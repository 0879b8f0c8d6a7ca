//! What is read of a wallet's own row, and how the reading of a wallet goes on from where it is.

use vstd::prelude::*;

use crate::anchor::AnchoredTx;
use crate::changeset::{ChangeSetView, TxGraphView};
use crate::descriptor::{
    descriptor_id_bytes, descriptor_keys, descriptor_of_text, descriptor_text, has_id_if_descriptor,
    key_derives, keys_derive, Descriptor, KeyShape, Wildcard,
};
use crate::hash::{hash_bytes, law_bytes_hash_round_trip, DescriptorId, Txid};
use crate::network::{law_network_names, network_of_name, Network};
use crate::number::unsigned32;
use crate::rows::{are_blocks_of, hashes_of_blocks, law_chain_of_rows, law_graph_step};
use crate::store::{
    changeset_of_row, name_or_default, read_action, read_reply_fits, read_start, read_step,
    reply_is_readable, row_is_readable, row_parses, WalletRead, WalletReply,
    WalletReplyView, WalletRow,
};
use crate::transaction::{OutPoint, Transaction};
use crate::tx_graph::{tx_graph_reply_fits, tx_graph_step, TxGraphRead, TxGraphReply};

verus! {

/// Whether a graph has nothing in it.
pub open spec fn graph_says_nothing(graph: TxGraphView) -> bool {
    &&& forall|tx: Transaction<Seq<u8>>| !#[trigger] graph.txs.contains(tx)
    &&& forall|outpoint: OutPoint| !#[trigger] graph.txouts.contains_key(outpoint)
    &&& forall|anchored: AnchoredTx| !#[trigger] graph.anchors.contains(anchored)
    &&& forall|txid: Txid| !#[trigger] graph.last_seen.contains_key(txid)
}

/// Whether a change set has nothing in it.
pub open spec fn says_nothing(changeset: ChangeSetView) -> bool {
    &&& changeset.descriptor is None
    &&& changeset.change_descriptor is None
    &&& changeset.network is None
    &&& forall|height: u32| !#[trigger] changeset.blocks.contains_key(height)
    &&& graph_says_nothing(changeset.tx_graph)
    &&& forall|id: DescriptorId| !#[trigger] changeset.last_revealed.contains_key(id)
}

/// The empty change set is the one that has nothing in it, and so is the empty graph.
pub proof fn law_empty(changeset: ChangeSetView, graph: TxGraphView)
    ensures
        changeset == ChangeSetView::empty() <==> says_nothing(changeset),
        graph == TxGraphView::empty() <==> graph_says_nothing(graph),
{
    if graph_says_nothing(graph) {
        assert(graph =~= TxGraphView::empty());
    }
    if says_nothing(changeset) {
        assert(changeset.tx_graph =~= TxGraphView::empty());
        assert(changeset =~= ChangeSetView::empty());
    }
}

/// How many steps below its master key the key is that is derived at index 0: the steps of the path
/// count, and the one that a wildcard stands for.
pub open spec fn derived_depth(depth: u8, steps: usize, wildcard: Wildcard) -> int {
    depth + steps + if wildcard == Wildcard::Absent {
        0int
    } else {
        1int
    }
}

/// A single key derives itself, and one with several paths derives nothing. Any other derives a key
/// if and only if no step is hardened, be it of the path or the wildcard's, and the depth of the key
/// that is derived is one that an extended key can have.
pub proof fn law_key_derives(key: KeyShape)
    ensures
        key is Single ==> key_derives(key),
        key is MultiXPub ==> !key_derives(key),
        key matches KeyShape::XPub { depth, steps, hardened_step, wildcard } ==> (key_derives(key)
            <==> !hardened_step && wildcard != Wildcard::Hardened && derived_depth(
            depth,
            steps,
            wildcard,
        ) <= 255),
{
}

/// A descriptor has an id if and only if every one of its keys derives. Keys derive together if and
/// only if they do by themselves, and no keys do.
pub proof fn law_keys_derive(a: Seq<KeyShape>, b: Seq<KeyShape>, key: KeyShape, text: Seq<char>)
    ensures
        keys_derive(Seq::<KeyShape>::empty()),
        keys_derive(seq![key]) <==> key_derives(key),
        keys_derive(a + b) <==> keys_derive(a) && keys_derive(b),
        descriptor_text(text) is None ==> has_id_if_descriptor(text),
        descriptor_text(text) is Some ==> (has_id_if_descriptor(text) <==> forall|i: int|
            0 <= i < descriptor_keys(text).len() ==> key_derives(
                #[trigger] descriptor_keys(text)[i],
            )),
{
    assert(seq![key][0] == key);
    assert(keys_derive(a + b) <==> keys_derive(a) && keys_derive(b)) by {
        let c = a + b;
        if keys_derive(c) {
            assert forall|i: int| 0 <= i < a.len() implies key_derives(#[trigger] a[i]) by {
                assert(c[i] == a[i]);
            }
            assert forall|i: int| 0 <= i < b.len() implies key_derives(#[trigger] b[i]) by {
                assert(c[a.len() + i] == b[i]);
            }
        }
        if keys_derive(a) && keys_derive(b) {
            assert forall|i: int| 0 <= i < c.len() implies key_derives(#[trigger] c[i]) by {
                if i < a.len() {
                    assert(c[i] == a[i]);
                } else {
                    assert(c[i] == b[i - a.len()]);
                }
            }
        }
    }
}

/// Whether a descriptor is the one that a text stands for, or there is neither.
pub open spec fn is_read_from(
    text: Option<Seq<char>>,
    descriptor: Option<Descriptor<Seq<char>>>,
) -> bool {
    match (text, descriptor) {
        (Some(text), Some(d)) => descriptor_text(text) == Some(d.text) && (descriptor_id_bytes(
            text,
        ).len() == 32 ==> hash_bytes(d.id) == descriptor_id_bytes(text)),
        (None, None) => true,
        _ => false,
    }
}

/// A text stands for a descriptor if and only if `miniscript` reads one, and that is how it is
/// written and what its id is.
pub proof fn law_descriptor_of_text(text: Seq<char>)
    ensures
        descriptor_of_text(text) is Some <==> descriptor_text(text) is Some,
        descriptor_of_text(text) is Some ==> is_read_from(Some(text), descriptor_of_text(text)),
{
    if descriptor_id_bytes(text).len() == 32 {
        law_bytes_hash_round_trip(descriptor_id_bytes(text));
    }
}

/// Whether there is a last revealed index for a descriptor with the given id.
pub open spec fn gives_index(
    descriptor: Option<Descriptor<Seq<char>>>,
    index: Option<i32>,
    id: DescriptorId,
) -> bool {
    descriptor is Some && descriptor->0.id == id && index is Some
}

/// Whether a change set says what a wallet's row does: its network is the one with the name in the
/// row, its descriptor what the external text stands for, its change descriptor what the internal
/// text does. The last revealed index of each descriptor is the one beside it; where both are one
/// descriptor and have an index, the internal one. Of the graph and the chain it says nothing.
pub open spec fn says_row(row: WalletRow<Seq<char>>, changeset: ChangeSetView) -> bool {
    &&& changeset.network == network_of_name(row.network)
    &&& is_read_from(row.external_descriptor, changeset.descriptor)
    &&& is_read_from(row.internal_descriptor, changeset.change_descriptor)
    &&& forall|id: DescriptorId| #[trigger]
        changeset.last_revealed.contains_key(id) <==> gives_index(
            changeset.descriptor,
            row.external_last_revealed,
            id,
        ) || gives_index(changeset.change_descriptor, row.internal_last_revealed, id)
    &&& forall|id: DescriptorId| #[trigger]
        changeset.last_revealed.contains_key(id) ==> changeset.last_revealed[id] == unsigned32(
            if gives_index(changeset.change_descriptor, row.internal_last_revealed, id) {
                row.internal_last_revealed->0
            } else {
                row.external_last_revealed->0
            },
        )
    &&& graph_says_nothing(changeset.tx_graph)
    &&& forall|height: u32| !#[trigger] changeset.blocks.contains_key(height)
}

/// A row's texts are descriptors if and only if `miniscript` reads them, and then the change set says
/// what the row does.
pub proof fn law_changeset_of_row(row: WalletRow<Seq<char>>)
    ensures
        row_parses(row) <==> (row.external_descriptor is Some ==> descriptor_text(
            row.external_descriptor->0,
        ) is Some) && (row.internal_descriptor is Some ==> descriptor_text(
            row.internal_descriptor->0,
        ) is Some),
        row_parses(row) ==> says_row(row, changeset_of_row(row)),
{
    if let Some(text) = row.external_descriptor {
        law_descriptor_of_text(text);
    }
    if let Some(text) = row.internal_descriptor {
        law_descriptor_of_text(text);
    }
}

/// A row can be read if and only if its network is one of the five, and each descriptor that is
/// looked at has an id. The internal one is not looked at where the external text is no descriptor.
pub proof fn law_row_is_readable(row: WalletRow<Seq<char>>)
    ensures
        row_is_readable(row) <==> {
            &&& row.network == "bitcoin"@ || row.network == "testnet"@ || row.network
                == "testnet4"@ || row.network == "signet"@ || row.network == "regtest"@
            &&& row.external_descriptor matches Some(text) ==> (descriptor_text(text) is Some
                ==> keys_derive(descriptor_keys(text)))
            &&& (row.external_descriptor matches Some(text) ==> descriptor_text(text) is Some)
                ==> (row.internal_descriptor matches Some(text) ==> (descriptor_text(text) is Some
                ==> keys_derive(descriptor_keys(text))))
        },
{
    law_network_names(Network::Bitcoin, Network::Bitcoin, row.network);
}

/// A store is for the wallet with the name that it was given, and where it was given none, for the
/// one named `bdk_pg_wallet`.
pub proof fn law_wallet_name(wallet_name: Option<String>)
    ensures
        wallet_name matches Some(name) ==> name_or_default(wallet_name) == name@,
        wallet_name is None ==> name_or_default(wallet_name) == "bdk_pg_wallet"@,
{
}

/// A wallet's reading starts with a migration if one is wanted, and with the wallet's row if not.
pub proof fn law_read_start<C, G>(migration: bool)
    ensures
        migration ==> read_start::<C, G>(migration) is Migrate,
        !migration ==> read_start::<C, G>(migration) is Wallet,
{
}

/// Whether two change sets differ in nothing but the graph.
pub open spec fn differ_in_graph(a: ChangeSetView, b: ChangeSetView) -> bool {
    &&& a.descriptor == b.descriptor
    &&& a.change_descriptor == b.change_descriptor
    &&& a.network == b.network
    &&& a.blocks == b.blocks
    &&& a.last_revealed == b.last_revealed
}

/// Whether two change sets differ in nothing but the blocks.
pub open spec fn differ_in_blocks(a: ChangeSetView, b: ChangeSetView) -> bool {
    &&& a.descriptor == b.descriptor
    &&& a.change_descriptor == b.change_descriptor
    &&& a.network == b.network
    &&& a.tx_graph == b.tx_graph
    &&& a.last_revealed == b.last_revealed
}

/// Reading goes on from any state. After the migration comes the wallet's row; without one, all is
/// read and nothing is there; with one whose texts are descriptors, the graph comes next, with what
/// the row says known. The graph is read as it is by itself, and takes the place of the one that was
/// known; then come the blocks, which take the place of those that were. Nothing else that is known
/// changes. A reply to something else is not taken.
pub proof fn law_read_step(
    state: WalletRead<ChangeSetView, TxGraphView>,
    reply: WalletReplyView,
)
    ensures
        read_reply_fits(state, reply) <==> (state is Migrate && reply is Migrated) || (
        state is Wallet && reply is Wallet) || (state is TxGraph && reply is TxGraph
            && tx_graph_reply_fits(state->TxGraph_1, reply->TxGraph_0)) || (state is LocalChain
            && reply is Blocks),
        !read_reply_fits(state, reply) ==> read_step(state, reply) is None,
        state is Migrate && reply is Migrated ==> (read_step(state, reply) matches Some(next)
            && next is Wallet),
        state is Wallet && reply is Wallet ==> match reply->Wallet_0 {
            None => read_step(state, reply) matches Some(WalletRead::Done(changeset))
                && says_nothing(changeset),
            Some(row) => match read_step(state, reply) {
                Some(WalletRead::TxGraph(changeset, graph)) => row_parses(row) && says_row(
                    row,
                    changeset,
                ) && graph is Txs,
                Some(_) => false,
                None => !row_parses(row),
            },
        },
        state is TxGraph && reply is TxGraph ==> match (
            read_step(state, reply),
            tx_graph_step(state->TxGraph_1, reply->TxGraph_0),
        ) {
            (Some(WalletRead::LocalChain(changeset)), Some(TxGraphRead::Done(graph))) =>
                differ_in_graph(changeset, state->TxGraph_0) && changeset.tx_graph == graph,
            (Some(WalletRead::TxGraph(changeset, graph)), Some(next)) => changeset
                == state->TxGraph_0 && graph == next && !(next is Done),
            (None, None) => true,
            _ => false,
        },
        state is LocalChain && reply is Blocks ==> match read_step(state, reply) {
            Some(WalletRead::Done(changeset)) => hashes_of_blocks(reply->Blocks_0)
                && differ_in_blocks(changeset, state->LocalChain_0) && are_blocks_of(
                reply->Blocks_0,
                changeset.blocks,
            ),
            Some(_) => false,
            None => !hashes_of_blocks(reply->Blocks_0),
        },
        !reply_is_readable(reply) <==> (reply matches WalletReply::Wallet(Some(row))
            && !row_is_readable(row)),
{
    law_empty(ChangeSetView::empty(), TxGraphView::empty());
    if reply is Wallet && reply->Wallet_0 is Some {
        law_changeset_of_row(reply->Wallet_0->0);
    }
    if state is TxGraph && reply is TxGraph {
        law_graph_step(state->TxGraph_1, reply->TxGraph_0);
    }
    if reply is Blocks {
        law_chain_of_rows(reply->Blocks_0);
    }
}

/// What is to be done next is nothing if and only if no reply would be taken any more.
pub proof fn law_finish(wallet_name: Seq<char>, state: WalletRead<ChangeSetView, TxGraphView>)
    ensures
        read_action(wallet_name, state) is Finish <==> forall|reply: WalletReplyView|
            !#[trigger] read_reply_fits(state, reply),
{
    let migrated: WalletReplyView = WalletReply::Migrated;
    let row: WalletReplyView = WalletReply::Wallet(None);
    let txs: WalletReplyView = WalletReply::TxGraph(TxGraphReply::Txs(Seq::empty()));
    let txouts: WalletReplyView = WalletReply::TxGraph(TxGraphReply::TxOuts(Seq::empty()));
    let anchors: WalletReplyView = WalletReply::TxGraph(TxGraphReply::Anchors(Seq::empty()));
    let blocks: WalletReplyView = WalletReply::Blocks(Seq::empty());
    assert(state is Migrate ==> read_reply_fits(state, migrated));
    assert(state is Wallet ==> read_reply_fits(state, row));
    assert(state is LocalChain ==> read_reply_fits(state, blocks));
    if let WalletRead::TxGraph(_, graph) = state {
        assert(graph is Txs ==> read_reply_fits(state, txs));
        assert(graph is TxOuts ==> read_reply_fits(state, txouts));
        assert(graph is Anchors ==> read_reply_fits(state, anchors));
    }
}

} // verus!
