//! What rows say, one by one, and how a reading goes on from where it is.

use vstd::prelude::*;

use crate::anchor::{anchor_of_text, AnchoredTx};
use crate::changeset::TxGraphView;
use crate::hash::{hash_of_text, BlockHash, Txid};
use crate::local_chain::{block_rows_parse, blocks_of_rows, BlockRow};
use crate::number::{unsigned32, unsigned64};
use crate::transaction::{decoded_transaction, OutPoint, Transaction};
use crate::tx_graph::{
    anchor_rows_parse, tx_graph_of_rows, tx_graph_reply_fits, tx_graph_step, tx_rows_parse,
    txout_rows_parse, with_anchor_rows, with_tx_rows, with_txout_rows, AnchorRow, TxGraphRead,
    TxGraphReply, TxGraphReplyView, TxOutRow, TxRow,
};

verus! {

/// Whether a row holds bytes that decode to the given transaction.
pub open spec fn row_holds_tx(row: TxRow<Seq<char>, Seq<u8>>, tx: Transaction<Seq<u8>>) -> bool {
    row.whole_tx matches Some(bytes) && decoded_transaction(bytes) == Some(tx)
}

/// Whether a row has a time for the given transaction.
pub open spec fn row_has_time(row: TxRow<Seq<char>, Seq<u8>>, txid: Txid) -> bool {
    row.last_seen is Some && hash_of_text(row.txid) == Some(txid)
}

/// Whether a row is for the output at the given place.
pub open spec fn row_is_at(row: TxOutRow<Seq<char>, Seq<u8>>, outpoint: OutPoint) -> bool {
    hash_of_text(row.txid) == Some(outpoint.0) && unsigned32(row.vout) == outpoint.1
}

/// Whether a row holds the given anchor of the given transaction.
pub open spec fn row_holds_anchor(row: AnchorRow<Seq<char>>, anchored: AnchoredTx) -> bool {
    anchor_of_text(row.anchor) == Some(anchored.0) && hash_of_text(row.txid) == Some(anchored.1)
}

/// Whether some row is so.
pub open spec fn some_row<R>(rows: Seq<R>, f: spec_fn(R) -> bool) -> bool {
    exists|i: int| 0 <= i < rows.len() && f(#[trigger] rows[i])
}

/// Whether the row at the given place is the last one that is so.
pub open spec fn is_last<R>(rows: Seq<R>, f: spec_fn(R) -> bool, i: int) -> bool {
    &&& 0 <= i < rows.len()
    &&& f(rows[i])
    &&& forall|j: int| i < j < rows.len() ==> !f(#[trigger] rows[j])
}

/// Whether every row is so.
pub open spec fn every_row<R>(rows: Seq<R>, f: spec_fn(R) -> bool) -> bool {
    forall|i: int| 0 <= i < rows.len() ==> f(#[trigger] rows[i])
}

/// Whether every transaction id in rows of `tx` is one.
pub open spec fn txids_of_txs(rows: Seq<TxRow<Seq<char>, Seq<u8>>>) -> bool {
    every_row(rows, |row: TxRow<Seq<char>, Seq<u8>>| hash_of_text(row.txid) is Some)
}

/// Whether every transaction id in rows of `txout` is one.
pub open spec fn txids_of_txouts(rows: Seq<TxOutRow<Seq<char>, Seq<u8>>>) -> bool {
    every_row(rows, |row: TxOutRow<Seq<char>, Seq<u8>>| hash_of_text(row.txid) is Some)
}

/// Whether every transaction id in rows of `anchor_tx` is one.
pub open spec fn txids_of_anchors(rows: Seq<AnchorRow<Seq<char>>>) -> bool {
    every_row(rows, |row: AnchorRow<Seq<char>>| hash_of_text(row.txid) is Some)
}

/// Whether every hash in rows of `block` is one.
pub open spec fn hashes_of_blocks(rows: Seq<BlockRow<Seq<char>>>) -> bool {
    every_row(rows, |row: BlockRow<Seq<char>>| hash_of_text(row.hash) is Some)
}

/// Whether a graph has come out of another by rows of `tx`: it has in addition the transactions that
/// their bytes decode to, and the times that they have, of which the last for a transaction counts.
pub open spec fn takes_txs(
    before: TxGraphView,
    rows: Seq<TxRow<Seq<char>, Seq<u8>>>,
    after: TxGraphView,
) -> bool {
    &&& after.txouts == before.txouts
    &&& after.anchors == before.anchors
    &&& forall|tx: Transaction<Seq<u8>>| #[trigger]
        after.txs.contains(tx) <==> before.txs.contains(tx) || some_row(
            rows,
            |row: TxRow<Seq<char>, Seq<u8>>| row_holds_tx(row, tx),
        )
    &&& forall|txid: Txid| #[trigger]
        after.last_seen.contains_key(txid) <==> before.last_seen.contains_key(txid) || some_row(
            rows,
            |row: TxRow<Seq<char>, Seq<u8>>| row_has_time(row, txid),
        )
    &&& forall|txid: Txid| #[trigger]
        before.last_seen.contains_key(txid) && !some_row(
            rows,
            |row: TxRow<Seq<char>, Seq<u8>>| row_has_time(row, txid),
        ) ==> after.last_seen[txid] == before.last_seen[txid]
    &&& forall|txid: Txid, i: int|
        #![trigger after.last_seen[txid], rows[i]]
        is_last(rows, |row: TxRow<Seq<char>, Seq<u8>>| row_has_time(row, txid), i)
            ==> after.last_seen[txid] == unsigned64(rows[i].last_seen->0)
}

/// Whether a graph has come out of another by rows of `txout`: it has in addition an output at each of
/// their places, with the value and the script of the last row for that place.
pub open spec fn takes_txouts(
    before: TxGraphView,
    rows: Seq<TxOutRow<Seq<char>, Seq<u8>>>,
    after: TxGraphView,
) -> bool {
    &&& after.txs == before.txs
    &&& after.anchors == before.anchors
    &&& after.last_seen == before.last_seen
    &&& forall|outpoint: OutPoint| #[trigger]
        after.txouts.contains_key(outpoint) <==> before.txouts.contains_key(outpoint) || some_row(
            rows,
            |row: TxOutRow<Seq<char>, Seq<u8>>| row_is_at(row, outpoint),
        )
    &&& forall|outpoint: OutPoint| #[trigger]
        before.txouts.contains_key(outpoint) && !some_row(
            rows,
            |row: TxOutRow<Seq<char>, Seq<u8>>| row_is_at(row, outpoint),
        ) ==> after.txouts[outpoint] == before.txouts[outpoint]
    &&& forall|outpoint: OutPoint, i: int|
        #![trigger after.txouts[outpoint], rows[i]]
        is_last(rows, |row: TxOutRow<Seq<char>, Seq<u8>>| row_is_at(row, outpoint), i) ==> {
            &&& after.txouts[outpoint].value == unsigned64(rows[i].value)
            &&& after.txouts[outpoint].script_pubkey == rows[i].script
        }
}

/// Whether a graph has come out of another by rows of `anchor_tx`: it has in addition the anchors that
/// their JSON stands for, each with the transaction of its row.
pub open spec fn takes_anchors(
    before: TxGraphView,
    rows: Seq<AnchorRow<Seq<char>>>,
    after: TxGraphView,
) -> bool {
    &&& after.txs == before.txs
    &&& after.txouts == before.txouts
    &&& after.last_seen == before.last_seen
    &&& forall|anchored: AnchoredTx| #[trigger]
        after.anchors.contains(anchored) <==> before.anchors.contains(anchored) || some_row(
            rows,
            |row: AnchorRow<Seq<char>>| row_holds_anchor(row, anchored),
        )
}

/// Whether blocks are those of rows of `block`: there is one at the height of each row, and no other,
/// and its hash is that of the last row for that height.
pub open spec fn are_blocks_of(
    rows: Seq<BlockRow<Seq<char>>>,
    blocks: Map<u32, Option<BlockHash>>,
) -> bool {
    &&& forall|height: u32| #[trigger]
        blocks.contains_key(height) <==> some_row(
            rows,
            |row: BlockRow<Seq<char>>| unsigned32(row.height) == height,
        )
    &&& forall|height: u32, i: int|
        #![trigger blocks[height], rows[i]]
        is_last(rows, |row: BlockRow<Seq<char>>| unsigned32(row.height) == height, i) ==> (
        blocks[height] is Some && blocks[height] == hash_of_text(rows[i].hash))
}

/// Some row is so if the last is, or one before it.
proof fn lemma_some_row<R>(rows: Seq<R>, f: spec_fn(R) -> bool)
    requires
        rows.len() > 0,
    ensures
        some_row(rows, f) <==> f(rows.last()) || some_row(rows.drop_last(), f),
        forall|i: int| #[trigger]
            is_last(rows, f, i) ==> if f(rows.last()) {
                i == rows.len() - 1
            } else {
                is_last(rows.drop_last(), f, i)
            },
{
    let shorter = rows.drop_last();
    if some_row(rows, f) {
        let i = choose|i: int| 0 <= i < rows.len() && f(#[trigger] rows[i]);
        if i < shorter.len() {
            assert(f(shorter[i]));
        }
    }
    if some_row(shorter, f) {
        let i = choose|i: int| 0 <= i < shorter.len() && f(#[trigger] shorter[i]);
        assert(f(rows[i]));
    }
    if f(rows.last()) {
        assert(f(rows[rows.len() - 1]));
    }
    assert forall|i: int| #[trigger] is_last(rows, f, i) implies if f(rows.last()) {
        i == rows.len() - 1
    } else {
        is_last(shorter, f, i)
    } by {
        if i < rows.len() - 1 {
            assert(!f(rows[rows.len() - 1]));
            assert(f(shorter[i]));
            assert forall|j: int| i < j < shorter.len() implies !f(#[trigger] shorter[j]) by {
                assert(!f(rows[j]));
            }
        }
    }
}

/// Where some row is so, one is the last.
proof fn lemma_last_exists<R>(rows: Seq<R>, f: spec_fn(R) -> bool) -> (i: int)
    requires
        some_row(rows, f),
    ensures
        is_last(rows, f, i),
    decreases rows.len(),
{
    lemma_some_row(rows, f);
    if f(rows.last()) {
        rows.len() - 1
    } else {
        let shorter = rows.drop_last();
        let i = lemma_last_exists(shorter, f);
        assert(f(rows[i]));
        assert forall|j: int| i < j < rows.len() implies !f(#[trigger] rows[j]) by {
            if j < shorter.len() {
                assert(!f(shorter[j]));
            }
        }
        i
    }
}

/// Every row is so if the last is, and all before it.
proof fn lemma_every_row<R>(rows: Seq<R>, f: spec_fn(R) -> bool)
    requires
        rows.len() > 0,
        every_row(rows, f),
    ensures
        f(rows.last()),
        every_row(rows.drop_last(), f),
{
    assert(f(rows[rows.len() - 1]));
    assert forall|i: int| 0 <= i < rows.drop_last().len() implies f(
        #[trigger] rows.drop_last()[i],
    ) by {
        assert(f(rows[i]));
    }
}

/// Rows of `tx` are taken one after the other.
proof fn lemma_takes_txs(graph: TxGraphView, rows: Seq<TxRow<Seq<char>, Seq<u8>>>)
    requires
        txids_of_txs(rows),
    ensures
        takes_txs(graph, rows, with_tx_rows(graph, rows)),
    decreases rows.len(),
{
    if rows.len() > 0 {
        let shorter = rows.drop_last();
        let between = with_tx_rows(graph, shorter);
        let after = with_tx_rows(graph, rows);
        lemma_every_row(
            rows,
            |row: TxRow<Seq<char>, Seq<u8>>| hash_of_text(row.txid) is Some,
        );
        lemma_takes_txs(graph, shorter);
        assert forall|tx: Transaction<Seq<u8>>| #[trigger]
            after.txs.contains(tx) <==> graph.txs.contains(tx) || some_row(
                rows,
                |row: TxRow<Seq<char>, Seq<u8>>| row_holds_tx(row, tx),
            ) by {
            lemma_some_row(rows, |row: TxRow<Seq<char>, Seq<u8>>| row_holds_tx(row, tx));
            assert(between.txs.contains(tx) <==> graph.txs.contains(tx) || some_row(
                shorter,
                |row: TxRow<Seq<char>, Seq<u8>>| row_holds_tx(row, tx),
            ));
        }
        assert forall|txid: Txid| #[trigger]
            after.last_seen.contains_key(txid) <==> graph.last_seen.contains_key(txid) || some_row(
                rows,
                |row: TxRow<Seq<char>, Seq<u8>>| row_has_time(row, txid),
            ) by {
            lemma_some_row(rows, |row: TxRow<Seq<char>, Seq<u8>>| row_has_time(row, txid));
            assert(between.last_seen.contains_key(txid) <==> graph.last_seen.contains_key(txid)
                || some_row(
                shorter,
                |row: TxRow<Seq<char>, Seq<u8>>| row_has_time(row, txid),
            ));
        }
        assert forall|txid: Txid| #[trigger]
            graph.last_seen.contains_key(txid) && !some_row(
                rows,
                |row: TxRow<Seq<char>, Seq<u8>>| row_has_time(row, txid),
            ) implies after.last_seen[txid] == graph.last_seen[txid] by {
            lemma_some_row(rows, |row: TxRow<Seq<char>, Seq<u8>>| row_has_time(row, txid));
        }
        assert forall|txid: Txid, i: int|
            #![trigger after.last_seen[txid], rows[i]]
            is_last(
                rows,
                |row: TxRow<Seq<char>, Seq<u8>>| row_has_time(row, txid),
                i,
            ) implies after.last_seen[txid] == unsigned64(rows[i].last_seen->0) by {
            let f = |row: TxRow<Seq<char>, Seq<u8>>| row_has_time(row, txid);
            lemma_some_row(rows, f);
            assert(is_last(rows, f, i));
            if !f(rows.last()) {
                assert(shorter[i] == rows[i]);
                assert(between.last_seen[txid] == unsigned64(shorter[i].last_seen->0));
            }
        }
    }
}

/// Rows of `txout` are taken one after the other.
proof fn lemma_takes_txouts(graph: TxGraphView, rows: Seq<TxOutRow<Seq<char>, Seq<u8>>>)
    requires
        txids_of_txouts(rows),
    ensures
        takes_txouts(graph, rows, with_txout_rows(graph, rows)),
    decreases rows.len(),
{
    if rows.len() > 0 {
        let shorter = rows.drop_last();
        let between = with_txout_rows(graph, shorter);
        let after = with_txout_rows(graph, rows);
        lemma_every_row(
            rows,
            |row: TxOutRow<Seq<char>, Seq<u8>>| hash_of_text(row.txid) is Some,
        );
        lemma_takes_txouts(graph, shorter);
        assert forall|outpoint: OutPoint| #[trigger]
            after.txouts.contains_key(outpoint) <==> graph.txouts.contains_key(outpoint)
                || some_row(
                rows,
                |row: TxOutRow<Seq<char>, Seq<u8>>| row_is_at(row, outpoint),
            ) by {
            lemma_some_row(
                rows,
                |row: TxOutRow<Seq<char>, Seq<u8>>| row_is_at(row, outpoint),
            );
            assert(between.txouts.contains_key(outpoint) <==> graph.txouts.contains_key(outpoint)
                || some_row(
                shorter,
                |row: TxOutRow<Seq<char>, Seq<u8>>| row_is_at(row, outpoint),
            ));
        }
        assert forall|outpoint: OutPoint| #[trigger]
            graph.txouts.contains_key(outpoint) && !some_row(
                rows,
                |row: TxOutRow<Seq<char>, Seq<u8>>| row_is_at(row, outpoint),
            ) implies after.txouts[outpoint] == graph.txouts[outpoint] by {
            lemma_some_row(
                rows,
                |row: TxOutRow<Seq<char>, Seq<u8>>| row_is_at(row, outpoint),
            );
        }
        assert forall|outpoint: OutPoint, i: int|
            #![trigger after.txouts[outpoint], rows[i]]
            is_last(
                rows,
                |row: TxOutRow<Seq<char>, Seq<u8>>| row_is_at(row, outpoint),
                i,
            ) implies after.txouts[outpoint].value == unsigned64(rows[i].value)
            && after.txouts[outpoint].script_pubkey == rows[i].script by {
            let f = |row: TxOutRow<Seq<char>, Seq<u8>>| row_is_at(row, outpoint);
            lemma_some_row(rows, f);
            assert(is_last(rows, f, i));
            if !f(rows.last()) {
                assert(shorter[i] == rows[i]);
                assert(between.txouts[outpoint].value == unsigned64(shorter[i].value));
            }
        }
    }
}

/// Rows of `anchor_tx` are taken one after the other.
proof fn lemma_takes_anchors(graph: TxGraphView, rows: Seq<AnchorRow<Seq<char>>>)
    requires
        txids_of_anchors(rows),
    ensures
        takes_anchors(graph, rows, with_anchor_rows(graph, rows)),
    decreases rows.len(),
{
    if rows.len() > 0 {
        let shorter = rows.drop_last();
        let between = with_anchor_rows(graph, shorter);
        let after = with_anchor_rows(graph, rows);
        lemma_every_row(rows, |row: AnchorRow<Seq<char>>| hash_of_text(row.txid) is Some);
        lemma_takes_anchors(graph, shorter);
        assert forall|anchored: AnchoredTx| #[trigger]
            after.anchors.contains(anchored) <==> graph.anchors.contains(anchored) || some_row(
                rows,
                |row: AnchorRow<Seq<char>>| row_holds_anchor(row, anchored),
            ) by {
            lemma_some_row(
                rows,
                |row: AnchorRow<Seq<char>>| row_holds_anchor(row, anchored),
            );
            assert(between.anchors.contains(anchored) <==> graph.anchors.contains(anchored)
                || some_row(
                shorter,
                |row: AnchorRow<Seq<char>>| row_holds_anchor(row, anchored),
            ));
        }
    }
}

/// Rows of `block` are taken one after the other.
proof fn lemma_blocks_of_rows(rows: Seq<BlockRow<Seq<char>>>)
    requires
        hashes_of_blocks(rows),
    ensures
        are_blocks_of(rows, blocks_of_rows(rows)),
    decreases rows.len(),
{
    if rows.len() > 0 {
        let shorter = rows.drop_last();
        let between = blocks_of_rows(shorter);
        let after = blocks_of_rows(rows);
        lemma_every_row(rows, |row: BlockRow<Seq<char>>| hash_of_text(row.hash) is Some);
        lemma_blocks_of_rows(shorter);
        assert forall|height: u32| #[trigger]
            after.contains_key(height) <==> some_row(
                rows,
                |row: BlockRow<Seq<char>>| unsigned32(row.height) == height,
            ) by {
            lemma_some_row(
                rows,
                |row: BlockRow<Seq<char>>| unsigned32(row.height) == height,
            );
            assert(between.contains_key(height) <==> some_row(
                shorter,
                |row: BlockRow<Seq<char>>| unsigned32(row.height) == height,
            ));
        }
        assert forall|height: u32, i: int|
            #![trigger after[height], rows[i]]
            is_last(
                rows,
                |row: BlockRow<Seq<char>>| unsigned32(row.height) == height,
                i,
            ) implies after[height] is Some && after[height] == hash_of_text(rows[i].hash) by {
            let f = |row: BlockRow<Seq<char>>| unsigned32(row.height) == height;
            lemma_some_row(rows, f);
            assert(is_last(rows, f, i));
            if !f(rows.last()) {
                assert(shorter[i] == rows[i]);
                assert(between[height] == hash_of_text(shorter[i].hash));
            }
        }
    }
}

/// Reading goes on from any graph: the rows of a table are taken if every transaction id in them is
/// one, and then the rows of the next table come. A reply with the rows of another table is not taken.
pub proof fn law_graph_step(state: TxGraphRead<TxGraphView>, reply: TxGraphReplyView)
    ensures
        (state is Txs && reply is Txs) || (state is TxOuts && reply is TxOuts) || (state is Anchors
            && reply is Anchors) <==> tx_graph_reply_fits(state, reply),
        !tx_graph_reply_fits(state, reply) ==> tx_graph_step(state, reply) is None,
        state is Txs && reply is Txs ==> match tx_graph_step(state, reply) {
            Some(TxGraphRead::TxOuts(after)) => txids_of_txs(reply->Txs_0) && takes_txs(
                TxGraphView::empty(),
                reply->Txs_0,
                after,
            ),
            Some(_) => false,
            None => !txids_of_txs(reply->Txs_0),
        },
        state is TxOuts && reply is TxOuts ==> match tx_graph_step(state, reply) {
            Some(TxGraphRead::Anchors(after)) => txids_of_txouts(reply->TxOuts_0) && takes_txouts(
                state->TxOuts_0,
                reply->TxOuts_0,
                after,
            ),
            Some(_) => false,
            None => !txids_of_txouts(reply->TxOuts_0),
        },
        state is Anchors && reply is Anchors ==> match tx_graph_step(state, reply) {
            Some(TxGraphRead::Done(after)) => txids_of_anchors(reply->Anchors_0) && takes_anchors(
                state->Anchors_0,
                reply->Anchors_0,
                after,
            ),
            Some(_) => false,
            None => !txids_of_anchors(reply->Anchors_0),
        },
{
    match (state, reply) {
        (TxGraphRead::Txs, TxGraphReply::Txs(rows)) => {
            lemma_txids_of_txs(rows);
            if txids_of_txs(rows) {
                lemma_takes_txs(TxGraphView::empty(), rows);
            }
        },
        (TxGraphRead::TxOuts(graph), TxGraphReply::TxOuts(rows)) => {
            lemma_txids_of_txouts(rows);
            if txids_of_txouts(rows) {
                lemma_takes_txouts(graph, rows);
            }
        },
        (TxGraphRead::Anchors(graph), TxGraphReply::Anchors(rows)) => {
            lemma_txids_of_anchors(rows);
            if txids_of_anchors(rows) {
                lemma_takes_anchors(graph, rows);
            }
        },
        _ => {},
    }
}

/// When the rows of `tx` can be taken.
proof fn lemma_txids_of_txs(rows: Seq<TxRow<Seq<char>, Seq<u8>>>)
    ensures
        txids_of_txs(rows) <==> tx_rows_parse(rows),
{
    let f = |row: TxRow<Seq<char>, Seq<u8>>| hash_of_text(row.txid) is Some;
    if txids_of_txs(rows) {
        assert forall|i: int| 0 <= i < rows.len() implies hash_of_text(
            #[trigger] rows[i].txid,
        ) is Some by {
            assert(f(rows[i]));
        }
    }
    if tx_rows_parse(rows) {
        assert forall|i: int| 0 <= i < rows.len() implies f(#[trigger] rows[i]) by {
            assert(hash_of_text(rows[i].txid) is Some);
        }
    }
}

/// When the rows of `txout` can be taken.
proof fn lemma_txids_of_txouts(rows: Seq<TxOutRow<Seq<char>, Seq<u8>>>)
    ensures
        txids_of_txouts(rows) <==> txout_rows_parse(rows),
{
    let f = |row: TxOutRow<Seq<char>, Seq<u8>>| hash_of_text(row.txid) is Some;
    if txids_of_txouts(rows) {
        assert forall|i: int| 0 <= i < rows.len() implies hash_of_text(
            #[trigger] rows[i].txid,
        ) is Some by {
            assert(f(rows[i]));
        }
    }
    if txout_rows_parse(rows) {
        assert forall|i: int| 0 <= i < rows.len() implies f(#[trigger] rows[i]) by {
            assert(hash_of_text(rows[i].txid) is Some);
        }
    }
}

/// When the rows of `anchor_tx` can be taken.
proof fn lemma_txids_of_anchors(rows: Seq<AnchorRow<Seq<char>>>)
    ensures
        txids_of_anchors(rows) <==> anchor_rows_parse(rows),
{
    let f = |row: AnchorRow<Seq<char>>| hash_of_text(row.txid) is Some;
    if txids_of_anchors(rows) {
        assert forall|i: int| 0 <= i < rows.len() implies hash_of_text(
            #[trigger] rows[i].txid,
        ) is Some by {
            assert(f(rows[i]));
        }
    }
    if anchor_rows_parse(rows) {
        assert forall|i: int| 0 <= i < rows.len() implies f(#[trigger] rows[i]) by {
            assert(hash_of_text(rows[i].txid) is Some);
        }
    }
}

/// When the rows of `block` can be taken.
proof fn lemma_hashes_of_blocks(rows: Seq<BlockRow<Seq<char>>>)
    ensures
        hashes_of_blocks(rows) <==> block_rows_parse(rows),
{
    let f = |row: BlockRow<Seq<char>>| hash_of_text(row.hash) is Some;
    if hashes_of_blocks(rows) {
        assert forall|i: int| 0 <= i < rows.len() implies hash_of_text(
            #[trigger] rows[i].hash,
        ) is Some by {
            assert(f(rows[i]));
        }
    }
    if block_rows_parse(rows) {
        assert forall|i: int| 0 <= i < rows.len() implies f(#[trigger] rows[i]) by {
            assert(hash_of_text(rows[i].hash) is Some);
        }
    }
}

/// The graph that rows stand for: there is one if and only if every transaction id is one, and it is
/// an empty one that has taken the rows of `tx`, those of `txout` and those of `anchor_tx`.
pub proof fn law_graph_of_rows(
    txs: Seq<TxRow<Seq<char>, Seq<u8>>>,
    txouts: Seq<TxOutRow<Seq<char>, Seq<u8>>>,
    anchors: Seq<AnchorRow<Seq<char>>>,
)
    ensures
        tx_graph_of_rows(txs, txouts, anchors) is Some <==> txids_of_txs(txs) && txids_of_txouts(
            txouts,
        ) && txids_of_anchors(anchors),
        tx_graph_of_rows(txs, txouts, anchors) matches Some(graph) ==> exists|
            first: TxGraphView,
            second: TxGraphView,
        |
            {
                &&& #[trigger] takes_txs(TxGraphView::empty(), txs, first)
                &&& takes_txouts(first, txouts, second)
                &&& #[trigger] takes_anchors(second, anchors, graph)
            },
{
    lemma_txids_of_txs(txs);
    lemma_txids_of_txouts(txouts);
    lemma_txids_of_anchors(anchors);
    if let Some(graph) = tx_graph_of_rows(txs, txouts, anchors) {
        let first = with_tx_rows(TxGraphView::empty(), txs);
        let second = with_txout_rows(first, txouts);
        lemma_takes_txs(TxGraphView::empty(), txs);
        lemma_takes_txouts(first, txouts);
        lemma_takes_anchors(second, anchors);
    }
}

/// The chain that rows stand for: there is one if and only if every hash is one.
pub proof fn law_chain_of_rows(rows: Seq<BlockRow<Seq<char>>>)
    ensures
        block_rows_parse(rows) <==> hashes_of_blocks(rows),
        block_rows_parse(rows) ==> are_blocks_of(rows, blocks_of_rows(rows)),
{
    lemma_hashes_of_blocks(rows);
    if block_rows_parse(rows) {
        lemma_blocks_of_rows(rows);
    }
}

/// Rows leave no doubt: what comes out of a graph by them is one graph, and one chain is theirs.
pub proof fn law_rows_leave_no_doubt(
    before: TxGraphView,
    txs: Seq<TxRow<Seq<char>, Seq<u8>>>,
    txouts: Seq<TxOutRow<Seq<char>, Seq<u8>>>,
    anchors: Seq<AnchorRow<Seq<char>>>,
    blocks: Seq<BlockRow<Seq<char>>>,
    graphs: (TxGraphView, TxGraphView),
    chains: (Map<u32, Option<BlockHash>>, Map<u32, Option<BlockHash>>),
)
    ensures
        takes_txs(before, txs, graphs.0) && takes_txs(before, txs, graphs.1) ==> graphs.0
            == graphs.1,
        takes_txouts(before, txouts, graphs.0) && takes_txouts(before, txouts, graphs.1)
            ==> graphs.0 == graphs.1,
        takes_anchors(before, anchors, graphs.0) && takes_anchors(before, anchors, graphs.1)
            ==> graphs.0 == graphs.1,
        are_blocks_of(blocks, chains.0) && are_blocks_of(blocks, chains.1) ==> chains.0
            == chains.1,
{
    let (a, b) = graphs;
    if takes_txs(before, txs, a) && takes_txs(before, txs, b) {
        assert(a.txs =~= b.txs);
        assert forall|txid: Txid| #[trigger] a.last_seen.contains_key(txid) implies a.last_seen[txid]
            == b.last_seen[txid] by {
            let f = |row: TxRow<Seq<char>, Seq<u8>>| row_has_time(row, txid);
            if some_row(txs, f) {
                let i = lemma_last_exists(txs, f);
                assert(is_last(txs, f, i));
                assert(a.last_seen[txid] == unsigned64(txs[i].last_seen->0));
                assert(b.last_seen[txid] == unsigned64(txs[i].last_seen->0));
            } else {
                assert(before.last_seen.contains_key(txid));
            }
        }
        assert(a.last_seen =~= b.last_seen);
    }
    if takes_txouts(before, txouts, a) && takes_txouts(before, txouts, b) {
        assert forall|outpoint: OutPoint| #[trigger]
            a.txouts.contains_key(outpoint) implies a.txouts[outpoint] == b.txouts[outpoint] by {
            let f = |row: TxOutRow<Seq<char>, Seq<u8>>| row_is_at(row, outpoint);
            if some_row(txouts, f) {
                let i = lemma_last_exists(txouts, f);
                assert(is_last(txouts, f, i));
                assert(a.txouts[outpoint].value == unsigned64(txouts[i].value));
                assert(b.txouts[outpoint].value == unsigned64(txouts[i].value));
            } else {
                assert(before.txouts.contains_key(outpoint));
            }
        }
        assert(a.txouts =~= b.txouts);
    }
    if takes_anchors(before, anchors, a) && takes_anchors(before, anchors, b) {
        assert(a.anchors =~= b.anchors);
    }
    let (x, y) = chains;
    if are_blocks_of(blocks, x) && are_blocks_of(blocks, y) {
        assert forall|height: u32| #[trigger] x.contains_key(height) implies x[height]
            == y[height] by {
            let f = |row: BlockRow<Seq<char>>| unsigned32(row.height) == height;
            let i = lemma_last_exists(blocks, f);
            assert(is_last(blocks, f, i));
            assert(x[height] == hash_of_text(blocks[i].hash));
            assert(y[height] == hash_of_text(blocks[i].hash));
        }
        assert(x =~= y);
    }
}

} // verus!
