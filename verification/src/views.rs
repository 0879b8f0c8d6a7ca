//! What contracts say of a value they say of its view. A view shows every part of a value, each in
//! its own place and as it is.

use vstd::prelude::*;

use crate::changeset::{transaction_views, txout_views, ChangeSet, TxGraphChangeSet};
use crate::descriptor::Descriptor;
use crate::local_chain::{block_row_views, BlockRow};
use crate::statement::{statement_views, Bind, Statement};
use crate::store::{WalletAction, WalletRead, WalletReply, WalletRow};
use crate::transaction::{OutPoint, Transaction, TxOut};
use crate::tx_graph::{
    anchor_row_views, tx_row_views, txout_row_views, AnchorRow, TxGraphRead, TxGraphReply,
    TxOutRow, TxRow,
};

verus! {

/// The view of a value that is bound shows that value, as of its type.
pub proof fn law_bind_view(bind: Bind)
    ensures
        bind matches Bind::Text(text) ==> bind@ == Bind::<Seq<char>, Seq<u8>>::Text(text@),
        bind matches Bind::Int(number) ==> bind@ == Bind::<Seq<char>, Seq<u8>>::Int(number),
        bind matches Bind::BigInt(number) ==> bind@ == Bind::<Seq<char>, Seq<u8>>::BigInt(number),
        bind matches Bind::Bytes(bytes) ==> bind@ == Bind::<Seq<char>, Seq<u8>>::Bytes(bytes@),
        bind matches Bind::Json(text) ==> bind@ == Bind::<Seq<char>, Seq<u8>>::Json(text@),
{
}

/// The view of a statement shows which it is, and all its values.
pub proof fn law_statement_view(statement: Statement)
    ensures
        statement matches Statement::InsertKeychain {
            wallet_name,
            keychainkind,
            descriptor,
            descriptor_id,
        } ==> statement@ == (Statement::<Seq<char>, Seq<u8>>::InsertKeychain {
            wallet_name: wallet_name@,
            keychainkind,
            descriptor: descriptor@,
            descriptor_id: descriptor_id@,
        }),
        statement matches Statement::UpdateLastRevealed { last_revealed, wallet_name, keychainkind }
            ==> statement@ == (Statement::<Seq<char>, Seq<u8>>::UpdateLastRevealed {
            last_revealed,
            wallet_name: wallet_name@,
            keychainkind,
        }),
        statement matches Statement::InsertNetwork { wallet_name, name } ==> statement@ == (
        Statement::<Seq<char>, Seq<u8>>::InsertNetwork { wallet_name: wallet_name@, name: name@ }),
        statement matches Statement::UpsertTx { wallet_name, txid, whole_tx } ==> statement@ == (
        Statement::<Seq<char>, Seq<u8>>::UpsertTx {
            wallet_name: wallet_name@,
            txid: txid@,
            whole_tx: whole_tx@,
        }),
        statement matches Statement::UpdateLastSeen { last_seen, wallet_name, txid } ==> statement@
            == (Statement::<Seq<char>, Seq<u8>>::UpdateLastSeen {
            last_seen,
            wallet_name: wallet_name@,
            txid: txid@,
        }),
        statement matches Statement::UpsertTxOut { wallet_name, txid, vout, value, script }
            ==> statement@ == (Statement::<Seq<char>, Seq<u8>>::UpsertTxOut {
            wallet_name: wallet_name@,
            txid: txid@,
            vout,
            value,
            script: script@,
        }),
        statement matches Statement::UpsertAnchor { wallet_name, block_hash, anchor, txid }
            ==> statement@ == (Statement::<Seq<char>, Seq<u8>>::UpsertAnchor {
            wallet_name: wallet_name@,
            block_hash: block_hash@,
            anchor: anchor@,
            txid: txid@,
        }),
        statement matches Statement::UpsertBlock { wallet_name, hash, height } ==> statement@ == (
        Statement::<Seq<char>, Seq<u8>>::UpsertBlock {
            wallet_name: wallet_name@,
            hash: hash@,
            height,
        }),
        statement matches Statement::DeleteBlock { wallet_name, height } ==> statement@ == (
        Statement::<Seq<char>, Seq<u8>>::DeleteBlock { wallet_name: wallet_name@, height }),
{
}

/// The views of a list show its elements, in their order.
pub proof fn law_list_views(
    statements: Seq<Statement>,
    transactions: Seq<Transaction>,
    txs: Seq<TxRow>,
    txouts: Seq<TxOutRow>,
    anchors: Seq<AnchorRow>,
    blocks: Seq<BlockRow>,
    i: int,
)
    ensures
        statement_views(statements).len() == statements.len(),
        transaction_views(transactions).len() == transactions.len(),
        tx_row_views(txs).len() == txs.len(),
        txout_row_views(txouts).len() == txouts.len(),
        anchor_row_views(anchors).len() == anchors.len(),
        block_row_views(blocks).len() == blocks.len(),
        0 <= i < statements.len() ==> statement_views(statements)[i] == statements[i]@,
        0 <= i < transactions.len() ==> transaction_views(transactions)[i] == transactions[i]@,
        0 <= i < txs.len() ==> tx_row_views(txs)[i] == txs[i]@,
        0 <= i < txouts.len() ==> txout_row_views(txouts)[i] == txouts[i]@,
        0 <= i < anchors.len() ==> anchor_row_views(anchors)[i] == anchors[i]@,
        0 <= i < blocks.len() ==> block_row_views(blocks)[i] == blocks[i]@,
{
}

/// The view of a row of `tx` shows its columns.
pub proof fn law_tx_row_view(row: TxRow)
    ensures
        row@.txid == row.txid@,
        row.whole_tx matches Some(bytes) ==> row@.whole_tx == Some(bytes@),
        row.whole_tx is None ==> row@.whole_tx is None,
        row@.last_seen == row.last_seen,
{
}

/// The views of rows of `txout`, `anchor_tx` and `block` show their columns.
pub proof fn law_row_views(txout: TxOutRow, anchor: AnchorRow, block: BlockRow)
    ensures
        txout@.txid == txout.txid@,
        txout@.vout == txout.vout,
        txout@.value == txout.value,
        txout@.script == txout.script@,
        anchor@.anchor == anchor.anchor@,
        anchor@.txid == anchor.txid@,
        block@.hash == block.hash@,
        block@.height == block.height,
{
}

/// The view of a wallet's row shows its columns.
pub proof fn law_wallet_row_view(row: WalletRow)
    ensures
        row@.network == row.network@,
        row.internal_descriptor matches Some(text) ==> row@.internal_descriptor == Some(text@),
        row.internal_descriptor is None ==> row@.internal_descriptor is None,
        row@.internal_last_revealed == row.internal_last_revealed,
        row.external_descriptor matches Some(text) ==> row@.external_descriptor == Some(text@),
        row.external_descriptor is None ==> row@.external_descriptor is None,
        row@.external_last_revealed == row.external_last_revealed,
{
}

/// The views of a descriptor, a transaction and an output show their parts.
pub proof fn law_part_views(descriptor: Descriptor, tx: Transaction, txout: TxOut)
    ensures
        descriptor@.text == descriptor.text@,
        descriptor@.id == descriptor.id,
        tx@.txid == tx.txid,
        tx@.bytes == tx.bytes@,
        txout@.value == txout.value,
        txout@.script_pubkey == txout.script_pubkey@,
{
}

/// The view of changes to the graph shows every transaction, output, anchor and time in them, and no
/// other.
pub proof fn law_graph_view(graph: TxGraphChangeSet, tx: Transaction<Seq<u8>>, outpoint: OutPoint)
    ensures
        graph@.txs.contains(tx) <==> exists|i: int|
            0 <= i < graph.txs@.len() && (#[trigger] graph.txs@[i])@ == tx,
        graph@.txouts.contains_key(outpoint) <==> graph.txouts@.contains_key(outpoint),
        graph.txouts@.contains_key(outpoint) ==> graph@.txouts[outpoint]
            == graph.txouts@[outpoint]@,
        graph@.anchors == graph.anchors@,
        graph@.last_seen == graph.last_seen@,
{
    let views = transaction_views(graph.txs@);
    if graph@.txs.contains(tx) {
        let i = choose|i: int| 0 <= i < views.len() && views[i] == tx;
        assert(graph.txs@[i]@ == tx);
    }
    if exists|i: int| 0 <= i < graph.txs@.len() && (#[trigger] graph.txs@[i])@ == tx {
        let i = choose|i: int| 0 <= i < graph.txs@.len() && (#[trigger] graph.txs@[i])@ == tx;
        assert(views[i] == tx);
    }
    assert(txout_views(graph.txouts@).dom() =~= graph.txouts@.dom());
}

/// The view of a change set shows its parts.
pub proof fn law_changeset_view(changeset: ChangeSet)
    ensures
        changeset.descriptor matches Some(d) ==> changeset@.descriptor == Some(d@),
        changeset.descriptor is None ==> changeset@.descriptor is None,
        changeset.change_descriptor matches Some(d) ==> changeset@.change_descriptor == Some(d@),
        changeset.change_descriptor is None ==> changeset@.change_descriptor is None,
        changeset@.network == changeset.network,
        changeset@.blocks == changeset.local_chain.blocks@,
        changeset@.tx_graph == changeset.tx_graph@,
        changeset@.last_revealed == changeset.indexer.last_revealed@,
{
}

/// The views of what is to be done next, of a reply and of how far the reading is show what each
/// holds.
pub proof fn law_read_views(
    action: WalletAction,
    reply: WalletReply,
    state: WalletRead,
    graph_reply: TxGraphReply,
    graph_state: TxGraphRead,
)
    ensures
        action is Migrate <==> action@ is Migrate,
        action is Finish <==> action@ is Finish,
        action matches WalletAction::Query { sql, bind: Some(bind) } ==> action@ == (
        WalletAction::<Seq<char>, Seq<char>>::Query { sql: sql@, bind: Some(bind@) }),
        action matches WalletAction::Query { sql, bind: None } ==> action@ == (WalletAction::<
            Seq<char>,
            Seq<char>,
        >::Query { sql: sql@, bind: None }),
        reply is Migrated <==> reply@ is Migrated,
        reply matches WalletReply::Wallet(Some(row)) ==> reply@->Wallet_0 == Some(row@),
        reply matches WalletReply::Wallet(None) ==> reply@->Wallet_0 is None,
        reply is Wallet <==> reply@ is Wallet,
        reply matches WalletReply::TxGraph(inner) ==> reply@ is TxGraph && reply@->TxGraph_0
            == inner@,
        reply matches WalletReply::Blocks(rows) ==> reply@ is Blocks && reply@->Blocks_0
            == block_row_views(rows@),
        graph_reply matches TxGraphReply::Txs(rows) ==> graph_reply@ is Txs && graph_reply@->Txs_0
            == tx_row_views(rows@),
        graph_reply matches TxGraphReply::TxOuts(rows) ==> graph_reply@ is TxOuts
            && graph_reply@->TxOuts_0 == txout_row_views(rows@),
        graph_reply matches TxGraphReply::Anchors(rows) ==> graph_reply@ is Anchors
            && graph_reply@->Anchors_0 == anchor_row_views(rows@),
        state is Migrate <==> state@ is Migrate,
        state is Wallet <==> state@ is Wallet,
        state matches WalletRead::TxGraph(changeset, graph) ==> state@ is TxGraph
            && state@->TxGraph_0 == changeset@ && state@->TxGraph_1 == graph@,
        state matches WalletRead::LocalChain(changeset) ==> state@ is LocalChain
            && state@->LocalChain_0 == changeset@,
        state matches WalletRead::Done(changeset) ==> state@ is Done && state@->Done_0
            == changeset@,
        graph_state is Txs <==> graph_state@ is Txs,
        graph_state matches TxGraphRead::TxOuts(graph) ==> graph_state@ is TxOuts
            && graph_state@->TxOuts_0 == graph@,
        graph_state matches TxGraphRead::Anchors(graph) ==> graph_state@ is Anchors
            && graph_state@->Anchors_0 == graph@,
        graph_state matches TxGraphRead::Done(graph) ==> graph_state@ is Done
            && graph_state@->Done_0 == graph@,
{
}

/// Changes are well formed if and only if no transaction is listed twice, and so is what has been read
/// so far. While the graph of a wallet is read, it is not read to its end.
pub proof fn law_well_formed(
    graph: TxGraphChangeSet,
    changeset: ChangeSet,
    graph_state: TxGraphRead,
    state: WalletRead,
)
    ensures
        graph.well_formed() <==> forall|i: int, j: int|
            0 <= i < j < graph.txs@.len() ==> (#[trigger] graph.txs@[i])@ != (
            #[trigger] graph.txs@[j])@,
        changeset.well_formed() <==> changeset.tx_graph.well_formed(),
        graph_state is Txs ==> graph_state.well_formed(),
        graph_state matches TxGraphRead::TxOuts(known) ==> (graph_state.well_formed()
            <==> known.well_formed()),
        graph_state matches TxGraphRead::Anchors(known) ==> (graph_state.well_formed()
            <==> known.well_formed()),
        graph_state matches TxGraphRead::Done(known) ==> (graph_state.well_formed()
            <==> known.well_formed()),
        state is Migrate || state is Wallet ==> state.well_formed(),
        state matches WalletRead::TxGraph(known, inner) ==> (state.well_formed()
            <==> known.well_formed() && inner.well_formed() && !(inner is Done)),
        state matches WalletRead::LocalChain(known) ==> (state.well_formed()
            <==> known.well_formed()),
        state matches WalletRead::Done(known) ==> (state.well_formed() <==> known.well_formed()),
{
    let views = transaction_views(graph.txs@);
    if graph.well_formed() {
        assert forall|i: int, j: int| 0 <= i < j < graph.txs@.len() implies (
        #[trigger] graph.txs@[i])@ != (#[trigger] graph.txs@[j])@ by {
            assert(views[i] != views[j]);
        }
    }
    if forall|i: int, j: int|
        0 <= i < j < graph.txs@.len() ==> (#[trigger] graph.txs@[i])@ != (
        #[trigger] graph.txs@[j])@ {
        assert forall|i: int, j: int|
            0 <= i < views.len() && 0 <= j < views.len() && i != j implies views[i]
            != views[j] by {
            assert(views[i] == graph.txs@[i]@ && views[j] == graph.txs@[j]@);
            if i < j {
                assert(graph.txs@[i]@ != graph.txs@[j]@);
            } else {
                assert(graph.txs@[j]@ != graph.txs@[i]@);
            }
        }
    }
}

} // verus!
