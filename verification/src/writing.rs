//! What is written of a change set, statement by statement, whatever the change set says.

use vstd::laws_cmp::obeys_cmp;
use vstd::prelude::*;

use crate::anchor::anchor_text;
use crate::changeset::{ChangeSetView, TxGraphView};
use crate::descriptor::Descriptor;
use crate::hash::{hash_bytes, hash_text, BlockHash, DescriptorId};
use crate::local_chain::local_chain_statements;
use crate::network::network_name;
use crate::number::{signed32, signed64};
use crate::order::{
    key_order, lemma_key_order_exists, lemma_keys_are_ordered, lemma_keys_are_told_apart,
    tells_apart,
};
use crate::statement::{KeychainKind, Statement};
use crate::store::{keychain_statements, network_statements, write_statements};
use crate::transaction::Transaction;
use crate::tx_graph::tx_graph_statements;

verus! {

/// An order of finitely many keys has as many as there are.
proof fn lemma_order_len<K: Ord>(keys: Set<K>)
    requires
        obeys_cmp::<K>(),
        tells_apart::<K>(),
        keys.finite(),
    ensures
        key_order(keys).len() == keys.len(),
{
    lemma_key_order_exists(keys);
    key_order(keys).unique_seq_to_set();
}

/// What is written of a chain has one statement for each height, from the lowest up: where there is a
/// block at the height, one that stores its hash and the height, and where there is none, one that
/// deletes at the height.
pub proof fn law_chain_statements(
    wallet_name: Seq<char>,
    blocks: Map<u32, Option<BlockHash>>,
    i: int,
)
    requires
        blocks.dom().finite(),
    ensures
        local_chain_statements(wallet_name, blocks).len() == blocks.dom().len(),
        key_order(blocks.dom()).len() == blocks.dom().len(),
        0 <= i < blocks.dom().len() ==> ({
            let height = key_order(blocks.dom())[i];
            local_chain_statements(wallet_name, blocks)[i] == match blocks[height] {
                Some(hash) => Statement::<Seq<char>, Seq<u8>>::UpsertBlock {
                    wallet_name,
                    hash: hash_text(hash),
                    height: signed32(height),
                },
                None => Statement::<Seq<char>, Seq<u8>>::DeleteBlock {
                    wallet_name,
                    height: signed32(height),
                },
            }
        }),
{
    lemma_keys_are_ordered();
    lemma_keys_are_told_apart();
    lemma_order_len(blocks.dom());
}

/// What is written of a graph: first each transaction, as listed, by its id and its encoding; then
/// each time, by the transaction's id; then each output, by the id and index of its place, with its
/// value and its script; then each anchor, by the hash of its block and the transaction's id. Times,
/// outputs and anchors are in the order of their keys.
pub proof fn law_graph_statements(
    wallet_name: Seq<char>,
    txs: Seq<Transaction<Seq<u8>>>,
    graph: TxGraphView,
    i: int,
)
    requires
        graph.last_seen.dom().finite(),
        graph.txouts.dom().finite(),
        graph.anchors.finite(),
    ensures
        ({
            let statements = tx_graph_statements(wallet_name, txs, graph);
            let times = txs.len() as int;
            let outputs = times + graph.last_seen.dom().len();
            let anchors = outputs + graph.txouts.dom().len();
            &&& statements.len() == anchors + graph.anchors.len()
            &&& key_order(graph.last_seen.dom()).len() == graph.last_seen.dom().len()
            &&& key_order(graph.txouts.dom()).len() == graph.txouts.dom().len()
            &&& key_order(graph.anchors).len() == graph.anchors.len()
            &&& 0 <= i < times ==> statements[i] == (Statement::<Seq<char>, Seq<u8>>::UpsertTx {
                wallet_name,
                txid: hash_text(txs[i].txid),
                whole_tx: txs[i].bytes,
            })
            &&& times <= i < outputs ==> {
                let txid = key_order(graph.last_seen.dom())[i - times];
                statements[i] == (Statement::<Seq<char>, Seq<u8>>::UpdateLastSeen {
                    last_seen: signed64(graph.last_seen[txid]),
                    wallet_name,
                    txid: hash_text(txid),
                })
            }
            &&& outputs <= i < anchors ==> {
                let outpoint = key_order(graph.txouts.dom())[i - outputs];
                let txout = graph.txouts[outpoint];
                statements[i] == (Statement::<Seq<char>, Seq<u8>>::UpsertTxOut {
                    wallet_name,
                    txid: hash_text(outpoint.0),
                    vout: signed32(outpoint.1),
                    value: signed64(txout.value),
                    script: txout.script_pubkey,
                })
            }
            &&& anchors <= i < statements.len() ==> {
                let (anchor, txid) = key_order(graph.anchors)[i - anchors];
                statements[i] == (Statement::<Seq<char>, Seq<u8>>::UpsertAnchor {
                    wallet_name,
                    block_hash: hash_text(anchor.0.1),
                    anchor: anchor_text(anchor),
                    txid: hash_text(txid),
                })
            }
        }),
{
    lemma_keys_are_ordered();
    lemma_keys_are_told_apart();
    lemma_order_len(graph.last_seen.dom());
    lemma_order_len(graph.txouts.dom());
    lemma_order_len(graph.anchors);
}

/// How many statements there are for a keychain.
pub open spec fn keychain_count(
    descriptor: Option<Descriptor<Seq<char>>>,
    last_revealed: Map<DescriptorId, u32>,
) -> int {
    match descriptor {
        Some(d) => if last_revealed.contains_key(d.id) {
            2
        } else {
            1
        },
        None => 0,
    }
}

/// Whether from a place on there are the statements for a keychain: one that stores the descriptor's
/// text and the bytes of its id, and one that stores the last revealed index, where there is one.
pub open spec fn has_keychain_at(
    statements: Seq<Statement<Seq<char>, Seq<u8>>>,
    at: int,
    wallet_name: Seq<char>,
    keychainkind: KeychainKind,
    descriptor: Option<Descriptor<Seq<char>>>,
    last_revealed: Map<DescriptorId, u32>,
) -> bool {
    descriptor matches Some(d) ==> {
        &&& statements[at] == (Statement::<Seq<char>, Seq<u8>>::InsertKeychain {
            wallet_name,
            keychainkind,
            descriptor: d.text,
            descriptor_id: hash_bytes(d.id),
        })
        &&& last_revealed.contains_key(d.id) ==> statements[at + 1] == (Statement::<
            Seq<char>,
            Seq<u8>,
        >::UpdateLastRevealed {
            last_revealed: signed32(last_revealed[d.id]),
            wallet_name,
            keychainkind,
        })
    }
}

/// What is written of a change set: the external keychain's descriptor, which is the change set's
/// descriptor, and its last revealed index; the same of the internal keychain, which has the change
/// descriptor; the network's name; what is written of the chain; and what is written of the graph.
pub proof fn law_write_statements(
    wallet_name: Seq<char>,
    txs: Seq<Transaction<Seq<u8>>>,
    changeset: ChangeSetView,
)
    ensures
        ({
            let statements = write_statements(wallet_name, txs, changeset);
            let internal = keychain_count(changeset.descriptor, changeset.last_revealed);
            let network = internal + keychain_count(
                changeset.change_descriptor,
                changeset.last_revealed,
            );
            let chain = network + if changeset.network is Some {
                1int
            } else {
                0int
            };
            let blocks = local_chain_statements(wallet_name, changeset.blocks);
            &&& has_keychain_at(
                statements,
                0,
                wallet_name,
                KeychainKind::External,
                changeset.descriptor,
                changeset.last_revealed,
            )
            &&& has_keychain_at(
                statements,
                internal,
                wallet_name,
                KeychainKind::Internal,
                changeset.change_descriptor,
                changeset.last_revealed,
            )
            &&& changeset.network matches Some(n) ==> statements[network] == (Statement::<
                Seq<char>,
                Seq<u8>,
            >::InsertNetwork { wallet_name, name: network_name(n) })
            &&& statements.len() == chain + blocks.len() + tx_graph_statements(
                wallet_name,
                txs,
                changeset.tx_graph,
            ).len()
            &&& statements.skip(chain) == blocks + tx_graph_statements(
                wallet_name,
                txs,
                changeset.tx_graph,
            )
        }),
{
    let statements = write_statements(wallet_name, txs, changeset);
    let external = keychain_statements(
        wallet_name,
        changeset.descriptor,
        changeset.last_revealed,
        KeychainKind::External,
    );
    let internal = keychain_statements(
        wallet_name,
        changeset.change_descriptor,
        changeset.last_revealed,
        KeychainKind::Internal,
    );
    let network = network_statements(wallet_name, changeset.network);
    let blocks = local_chain_statements(wallet_name, changeset.blocks);
    let graph = tx_graph_statements(wallet_name, txs, changeset.tx_graph);
    assert(statements =~= external + internal + network + blocks + graph);
    assert(statements.skip((external + internal + network).len() as int) =~= blocks + graph);
}

} // verus!
