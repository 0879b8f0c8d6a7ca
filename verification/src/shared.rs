//! What is read where the rows of several wallets stand in one table. The queries for transactions,
//! outputs, anchors and blocks name no wallet: they give the rows of all.

use vstd::prelude::*;

use crate::anchor::AnchoredTx;
use crate::changeset::{ChangeSetView, TxGraphView};
use crate::hash::{hash_of_text, law_hash_text_round_trip, BlockHash, Txid};
use crate::held::{
    block_key, has_id, holds_blocks, holds_txouts, holds_txs, tx_key, txout_key,
};
use crate::local_chain::{block_rows_parse, blocks_of_rows, BlockRow};
use crate::number::{law_u32_round_trip, law_u64_round_trip, signed32, unsigned32, unsigned64};
use crate::round_trip::{holds, law_read, lemma_chain_read, lemma_graph_read};
use crate::store::{row_is_readable, wallet_of_rows};
use crate::tables::{lists, rows_of, Listing, Tables};
use crate::transaction::{OutPoint, Transaction, TxOut};
use crate::tx_graph::{
    anchor_rows_parse, tx_graph_of_rows, tx_rows_parse, txout_rows_parse,
    with_anchor_rows, with_tx_rows, with_txout_rows, AnchorRow, TxOutRow, TxRow,
};

verus! {

/// The rows that are of one side, in their order: those with `true` in `mine` are of the one, those
/// with `false` of the other.
pub open spec fn picked<R>(rows: Seq<R>, mine: Seq<bool>, side: bool) -> Seq<R>
    decreases rows.len(),
{
    if rows.len() == 0 {
        Seq::empty()
    } else {
        let before = picked(rows.drop_last(), mine.drop_last(), side);
        if mine.last() == side {
            before.push(rows.last())
        } else {
            before
        }
    }
}

/// Every row is of one side or the other.
proof fn lemma_picked<R>(rows: Seq<R>, mine: Seq<bool>)
    requires
        rows.len() == mine.len(),
    ensures
        forall|row: R| #[trigger]
            rows.contains(row) <==> picked(rows, mine, true).contains(row) || picked(
                rows,
                mine,
                false,
            ).contains(row),
    decreases rows.len(),
{
    if rows.len() > 0 {
        let shorter = rows.drop_last();
        let last = rows.last();
        lemma_picked(shorter, mine.drop_last());
        assert(rows =~= shorter.push(last));
        assert forall|row: R| #[trigger]
            rows.contains(row) <==> picked(rows, mine, true).contains(row) || picked(
                rows,
                mine,
                false,
            ).contains(row) by {
            lemma_contains_push(shorter, last, row);
            lemma_contains_push(picked(shorter, mine.drop_last(), true), last, row);
            lemma_contains_push(picked(shorter, mine.drop_last(), false), last, row);
        }
    }
}

/// What a sequence contains with one element more.
proof fn lemma_contains_push<R>(rows: Seq<R>, last: R, row: R)
    ensures
        rows.push(last).contains(row) <==> rows.contains(row) || row == last,
{
    let longer = rows.push(last);
    if rows.contains(row) {
        let i = choose|i: int| 0 <= i < rows.len() && rows[i] == row;
        assert(longer[i] == row);
    }
    if row == last {
        assert(longer[rows.len() as int] == row);
    }
    if longer.contains(row) {
        let i = choose|i: int| 0 <= i < longer.len() && longer[i] == row;
        if i < rows.len() {
            assert(rows[i] == row);
        }
    }
}

/// Whether a map is the join of two: it has the keys of both, and under a key of only one of them
/// what that one has.
pub open spec fn joins<K, V>(joined: Map<K, V>, a: Map<K, V>, b: Map<K, V>) -> bool {
    &&& joined.dom() == a.dom().union(b.dom())
    &&& forall|key: K| #[trigger]
        a.contains_key(key) && !b.contains_key(key) ==> joined[key] == a[key]
    &&& forall|key: K| #[trigger]
        b.contains_key(key) && !a.contains_key(key) ==> joined[key] == b[key]
}

/// The join of maps that share no key is their union.
proof fn lemma_disjoint_join<K, V>(joined: Map<K, V>, a: Map<K, V>, b: Map<K, V>)
    requires
        joins(joined, a, b),
        a.dom().disjoint(b.dom()),
    ensures
        joined == a.union_prefer_right(b),
{
    assert forall|key: K| #[trigger] a.contains_key(key) implies !b.contains_key(key) by {
        assert(a.dom().contains(key));
    }
    assert(joined =~= a.union_prefer_right(b));
}

/// The place of the output in a row.
pub open spec fn row_outpoint(row: TxOutRow<Seq<char>, Seq<u8>>) -> OutPoint {
    (hash_of_text(row.txid)->0, unsigned32(row.vout))
}

/// The output in a row.
pub open spec fn row_txout(row: TxOutRow<Seq<char>, Seq<u8>>) -> TxOut<Seq<u8>> {
    TxOut { value: unsigned64(row.value), script_pubkey: row.script }
}

/// What rows of `txout` say does not depend on what was read before, and leaves it.
proof fn lemma_txouts_alone(graph: TxGraphView, rows: Seq<TxOutRow<Seq<char>, Seq<u8>>>)
    requires
        graph.txouts == Map::<OutPoint, TxOut<Seq<u8>>>::empty(),
    ensures
        with_txout_rows(graph, rows) == (TxGraphView {
            txouts: with_txout_rows(TxGraphView::empty(), rows).txouts,
            ..graph
        }),
    decreases rows.len(),
{
    if rows.len() > 0 {
        lemma_txouts_alone(graph, rows.drop_last());
    }
}

/// What rows of `anchor_tx` say does not depend on what was read before, and leaves it.
proof fn lemma_anchors_alone(graph: TxGraphView, rows: Seq<AnchorRow<Seq<char>>>)
    requires
        graph.anchors == Set::<AnchoredTx>::empty(),
    ensures
        with_anchor_rows(graph, rows) == (TxGraphView {
            anchors: with_anchor_rows(TxGraphView::empty(), rows).anchors,
            ..graph
        }),
    decreases rows.len(),
{
    if rows.len() > 0 {
        lemma_anchors_alone(graph, rows.drop_last());
    }
}

/// Rows of `tx` say nothing of outputs and anchors.
proof fn lemma_txs_alone(rows: Seq<TxRow<Seq<char>, Seq<u8>>>)
    ensures
        with_tx_rows(TxGraphView::empty(), rows).txouts == TxGraphView::empty().txouts,
        with_tx_rows(TxGraphView::empty(), rows).anchors == TxGraphView::empty().anchors,
    decreases rows.len(),
{
    if rows.len() > 0 {
        lemma_txs_alone(rows.drop_last());
    }
}

/// Each part of the graph is what its own table says.
proof fn lemma_graph_parts(
    txs: Seq<TxRow<Seq<char>, Seq<u8>>>,
    txouts: Seq<TxOutRow<Seq<char>, Seq<u8>>>,
    anchors: Seq<AnchorRow<Seq<char>>>,
)
    ensures
        tx_graph_of_rows(txs, txouts, anchors) matches Some(graph) ==> graph == (TxGraphView {
            txs: with_tx_rows(TxGraphView::empty(), txs).txs,
            last_seen: with_tx_rows(TxGraphView::empty(), txs).last_seen,
            txouts: with_txout_rows(TxGraphView::empty(), txouts).txouts,
            anchors: with_anchor_rows(TxGraphView::empty(), anchors).anchors,
        }),
{
    let empty = TxGraphView::empty();
    lemma_txs_alone(txs);
    lemma_txouts_alone(with_tx_rows(empty, txs), txouts);
    lemma_anchors_alone(with_txout_rows(with_tx_rows(empty, txs), txouts), anchors);
}

/// The outputs of the rows of two.
proof fn lemma_txouts_of_two(rows: Seq<TxOutRow<Seq<char>, Seq<u8>>>, mine: Seq<bool>)
    requires
        rows.len() == mine.len(),
    ensures
        joins(
            with_txout_rows(TxGraphView::empty(), rows).txouts,
            with_txout_rows(TxGraphView::empty(), picked(rows, mine, true)).txouts,
            with_txout_rows(TxGraphView::empty(), picked(rows, mine, false)).txouts,
        ),
    decreases rows.len(),
{
    let empty = TxGraphView::empty();
    let joined = with_txout_rows(empty, rows).txouts;
    let a = with_txout_rows(empty, picked(rows, mine, true)).txouts;
    let b = with_txout_rows(empty, picked(rows, mine, false)).txouts;
    if rows.len() == 0 {
        assert(joined.dom() =~= a.dom().union(b.dom()));
    } else {
        let shorter = rows.drop_last();
        let others = mine.drop_last();
        lemma_txouts_of_two(shorter, others);
        lemma_picked_last(rows, mine);
        assert(joined.dom() =~= a.dom().union(b.dom()));
        let joined1 = with_txout_rows(empty, shorter).txouts;
        let a1 = with_txout_rows(empty, picked(shorter, others, true)).txouts;
        let b1 = with_txout_rows(empty, picked(shorter, others, false)).txouts;
        lemma_join_insert(
            joined1,
            a1,
            b1,
            row_outpoint(rows.last()),
            row_txout(rows.last()),
        );
    }
}

/// The last row goes to its own side.
proof fn lemma_picked_last<R>(rows: Seq<R>, mine: Seq<bool>)
    requires
        rows.len() > 0,
    ensures
        ({
            let before = picked(rows.drop_last(), mine.drop_last(), mine.last());
            let own = picked(rows, mine, mine.last());
            &&& own == before.push(rows.last())
            &&& own.drop_last() == before
            &&& own.last() == rows.last()
            &&& picked(rows, mine, !mine.last()) == picked(
                rows.drop_last(),
                mine.drop_last(),
                !mine.last(),
            )
        }),
{
    let before = picked(rows.drop_last(), mine.drop_last(), mine.last());
    assert(before.push(rows.last()).drop_last() =~= before);
}

/// A join stays one when one side and the join get the same under a key.
proof fn lemma_join_insert<K, V>(joined: Map<K, V>, a: Map<K, V>, b: Map<K, V>, key: K, value: V)
    requires
        joins(joined, a, b),
    ensures
        joins(joined.insert(key, value), a.insert(key, value), b),
        joins(joined.insert(key, value), a, b.insert(key, value)),
{
    let longer = joined.insert(key, value);
    assert(longer.dom() =~= a.insert(key, value).dom().union(b.dom()));
    assert(longer.dom() =~= a.dom().union(b.insert(key, value).dom()));
    let a2 = a.insert(key, value);
    let b2 = b.insert(key, value);
    assert forall|k: K| #[trigger]
        a2.contains_key(k) && !b.contains_key(k) implies longer[k] == a2[k] by {
        if k != key {
            assert(a.contains_key(k));
        }
    }
    assert forall|k: K| #[trigger]
        b.contains_key(k) && !a2.contains_key(k) implies longer[k] == b[k] by {
        assert(!a.contains_key(k));
    }
    assert forall|k: K| #[trigger]
        a.contains_key(k) && !b2.contains_key(k) implies longer[k] == a[k] by {
        assert(!b.contains_key(k));
    }
    assert forall|k: K| #[trigger]
        b2.contains_key(k) && !a.contains_key(k) implies longer[k] == b2[k] by {
        if k != key {
            assert(b.contains_key(k));
        }
    }
}

/// Of the rows of `txout` for one place, the last counts.
proof fn lemma_last_txout_counts(rows: Seq<TxOutRow<Seq<char>, Seq<u8>>>, i: int)
    requires
        0 <= i < rows.len(),
        forall|j: int| i < j < rows.len() ==> row_outpoint(#[trigger] rows[j]) != row_outpoint(
            rows[i],
        ),
    ensures
        ({
            let txouts = with_txout_rows(TxGraphView::empty(), rows).txouts;
            txouts.contains_key(row_outpoint(rows[i])) && txouts[row_outpoint(rows[i])]
                == row_txout(rows[i])
        }),
    decreases rows.len(),
{
    let shorter = rows.drop_last();
    if i < rows.len() - 1 {
        assert forall|j: int| i < j < shorter.len() implies row_outpoint(#[trigger] shorter[j])
            != row_outpoint(shorter[i]) by {
            assert(row_outpoint(rows[j]) != row_outpoint(rows[i]));
        }
        lemma_last_txout_counts(shorter, i);
        assert(row_outpoint(rows[rows.len() - 1]) != row_outpoint(rows[i]));
    }
}

/// The transactions and times of the rows of two.
proof fn lemma_txs_of_two(rows: Seq<TxRow<Seq<char>, Seq<u8>>>, mine: Seq<bool>)
    requires
        rows.len() == mine.len(),
    ensures
        ({
            let both = with_tx_rows(TxGraphView::empty(), rows);
            let a = with_tx_rows(TxGraphView::empty(), picked(rows, mine, true));
            let b = with_tx_rows(TxGraphView::empty(), picked(rows, mine, false));
            both.txs == a.txs.union(b.txs) && joins(both.last_seen, a.last_seen, b.last_seen)
        }),
    decreases rows.len(),
{
    let empty = TxGraphView::empty();
    let both = with_tx_rows(empty, rows);
    let a = with_tx_rows(empty, picked(rows, mine, true));
    let b = with_tx_rows(empty, picked(rows, mine, false));
    if rows.len() == 0 {
        assert(both.last_seen.dom() =~= a.last_seen.dom().union(b.last_seen.dom()));
        assert(both.txs =~= a.txs.union(b.txs));
    } else {
        let shorter = rows.drop_last();
        let others = mine.drop_last();
        lemma_txs_of_two(shorter, others);
        lemma_picked_last(rows, mine);
        assert(both.txs =~= a.txs.union(b.txs));
        if let Some(last_seen) = rows.last().last_seen {
            lemma_join_insert(
                with_tx_rows(empty, shorter).last_seen,
                with_tx_rows(empty, picked(shorter, others, true)).last_seen,
                with_tx_rows(empty, picked(shorter, others, false)).last_seen,
                hash_of_text(rows.last().txid)->0,
                unsigned64(last_seen),
            );
        }
    }
}

/// Whether a row says when the transaction with the given id was last seen.
pub open spec fn row_sees(row: TxRow<Seq<char>, Seq<u8>>, txid: Txid) -> bool {
    row.last_seen is Some && hash_of_text(row.txid) == Some(txid)
}

/// Of the rows of `tx` that say when a transaction was last seen, the last counts.
proof fn lemma_last_time_counts(rows: Seq<TxRow<Seq<char>, Seq<u8>>>, i: int, txid: Txid)
    requires
        tx_rows_parse(rows),
        0 <= i < rows.len(),
        row_sees(rows[i], txid),
        forall|j: int| i < j < rows.len() ==> !row_sees(#[trigger] rows[j], txid),
    ensures
        ({
            let last_seen = with_tx_rows(TxGraphView::empty(), rows).last_seen;
            last_seen.contains_key(txid) && last_seen[txid] == unsigned64(rows[i].last_seen->0)
        }),
    decreases rows.len(),
{
    let shorter = rows.drop_last();
    if i < rows.len() - 1 {
        assert forall|j: int| 0 <= j < shorter.len() implies hash_of_text(
            #[trigger] shorter[j].txid,
        ) is Some by {
            assert(hash_of_text(rows[j].txid) is Some);
        }
        assert forall|j: int| i < j < shorter.len() implies !row_sees(
            #[trigger] shorter[j],
            txid,
        ) by {
            assert(!row_sees(rows[j], txid));
        }
        lemma_last_time_counts(shorter, i, txid);
        assert(!row_sees(rows[rows.len() - 1], txid));
        assert(hash_of_text(rows[rows.len() - 1].txid) is Some);
    }
}

/// The anchors of the rows of two.
proof fn lemma_anchors_of_two(rows: Seq<AnchorRow<Seq<char>>>, mine: Seq<bool>)
    requires
        rows.len() == mine.len(),
    ensures
        with_anchor_rows(TxGraphView::empty(), rows).anchors == with_anchor_rows(
            TxGraphView::empty(),
            picked(rows, mine, true),
        ).anchors.union(
            with_anchor_rows(TxGraphView::empty(), picked(rows, mine, false)).anchors,
        ),
    decreases rows.len(),
{
    let empty = TxGraphView::empty();
    let both = with_anchor_rows(empty, rows).anchors;
    let a = with_anchor_rows(empty, picked(rows, mine, true)).anchors;
    let b = with_anchor_rows(empty, picked(rows, mine, false)).anchors;
    if rows.len() > 0 {
        lemma_anchors_of_two(rows.drop_last(), mine.drop_last());
        lemma_picked_last(rows, mine);
    }
    assert(both =~= a.union(b));
}

/// The rows of two are in order if and only if those of each are.
proof fn lemma_rows_parse_of_two(
    txs: Seq<TxRow<Seq<char>, Seq<u8>>>,
    txs_mine: Seq<bool>,
    txouts: Seq<TxOutRow<Seq<char>, Seq<u8>>>,
    txouts_mine: Seq<bool>,
    anchors: Seq<AnchorRow<Seq<char>>>,
    anchors_mine: Seq<bool>,
)
    requires
        txs.len() == txs_mine.len(),
        txouts.len() == txouts_mine.len(),
        anchors.len() == anchors_mine.len(),
    ensures
        tx_rows_parse(txs) <==> tx_rows_parse(picked(txs, txs_mine, true)) && tx_rows_parse(
            picked(txs, txs_mine, false),
        ),
        txout_rows_parse(txouts) <==> txout_rows_parse(picked(txouts, txouts_mine, true))
            && txout_rows_parse(picked(txouts, txouts_mine, false)),
        anchor_rows_parse(anchors) <==> anchor_rows_parse(picked(anchors, anchors_mine, true))
            && anchor_rows_parse(picked(anchors, anchors_mine, false)),
{
    lemma_picked(txs, txs_mine);
    lemma_picked(txouts, txouts_mine);
    lemma_picked(anchors, anchors_mine);
    let f = |row: TxRow<Seq<char>, Seq<u8>>| hash_of_text(row.txid) is Some;
    let g = |row: TxOutRow<Seq<char>, Seq<u8>>| hash_of_text(row.txid) is Some;
    let h = |row: AnchorRow<Seq<char>>| hash_of_text(row.txid) is Some;
    lemma_all_of_two(txs, picked(txs, txs_mine, true), picked(txs, txs_mine, false), f);
    lemma_all_of_two(
        txouts,
        picked(txouts, txouts_mine, true),
        picked(txouts, txouts_mine, false),
        g,
    );
    lemma_all_of_two(
        anchors,
        picked(anchors, anchors_mine, true),
        picked(anchors, anchors_mine, false),
        h,
    );
    assert(tx_rows_parse(txs) == all_are(txs, f));
    assert(tx_rows_parse(picked(txs, txs_mine, true)) == all_are(picked(txs, txs_mine, true), f));
    assert(tx_rows_parse(picked(txs, txs_mine, false)) == all_are(picked(txs, txs_mine, false), f));
    assert(txout_rows_parse(txouts) == all_are(txouts, g));
    assert(txout_rows_parse(picked(txouts, txouts_mine, true)) == all_are(
        picked(txouts, txouts_mine, true),
        g,
    ));
    assert(txout_rows_parse(picked(txouts, txouts_mine, false)) == all_are(
        picked(txouts, txouts_mine, false),
        g,
    ));
    assert(anchor_rows_parse(anchors) == all_are(anchors, h));
    assert(anchor_rows_parse(picked(anchors, anchors_mine, true)) == all_are(
        picked(anchors, anchors_mine, true),
        h,
    ));
    assert(anchor_rows_parse(picked(anchors, anchors_mine, false)) == all_are(
        picked(anchors, anchors_mine, false),
        h,
    ));
}

/// Whether all rows are as `f` says.
spec fn all_are<R>(rows: Seq<R>, f: spec_fn(R) -> bool) -> bool {
    forall|i: int| 0 <= i < rows.len() ==> f(#[trigger] rows[i])
}

/// All rows are so if and only if those of each side are.
proof fn lemma_all_of_two<R>(rows: Seq<R>, a: Seq<R>, b: Seq<R>, f: spec_fn(R) -> bool)
    requires
        forall|row: R| #[trigger] rows.contains(row) <==> a.contains(row) || b.contains(row),
    ensures
        all_are(rows, f) <==> all_are(a, f) && all_are(b, f),
{
    if all_are(rows, f) {
        assert forall|i: int| 0 <= i < a.len() implies f(#[trigger] a[i]) by {
            assert(a.contains(a[i]) && rows.contains(a[i]));
        }
        assert forall|i: int| 0 <= i < b.len() implies f(#[trigger] b[i]) by {
            assert(b.contains(b[i]) && rows.contains(b[i]));
        }
    }
    if all_are(a, f) && all_are(b, f) {
        assert forall|i: int| 0 <= i < rows.len() implies f(#[trigger] rows[i]) by {
            assert(rows.contains(rows[i]));
        }
    }
}

/// The rows of two wallets, read together, give a graph if and only if those of each give one. It
/// has the transactions and anchors of both, and the outputs and times of both. Where the two share
/// none, those are the unions. Where they share a place or an id, the row that comes last counts.
pub proof fn law_graph_of_two(
    txs: Seq<TxRow<Seq<char>, Seq<u8>>>,
    txs_mine: Seq<bool>,
    txouts: Seq<TxOutRow<Seq<char>, Seq<u8>>>,
    txouts_mine: Seq<bool>,
    anchors: Seq<AnchorRow<Seq<char>>>,
    anchors_mine: Seq<bool>,
)
    requires
        txs.len() == txs_mine.len(),
        txouts.len() == txouts_mine.len(),
        anchors.len() == anchors_mine.len(),
    ensures
        ({
            let a = tx_graph_of_rows(
                picked(txs, txs_mine, true),
                picked(txouts, txouts_mine, true),
                picked(anchors, anchors_mine, true),
            );
            let b = tx_graph_of_rows(
                picked(txs, txs_mine, false),
                picked(txouts, txouts_mine, false),
                picked(anchors, anchors_mine, false),
            );
            let both = tx_graph_of_rows(txs, txouts, anchors);
            &&& both is Some <==> a is Some && b is Some
            &&& both matches Some(both) ==> {
                &&& both.txs == a->0.txs.union(b->0.txs)
                &&& both.anchors == a->0.anchors.union(b->0.anchors)
                &&& joins(both.txouts, a->0.txouts, b->0.txouts)
                &&& joins(both.last_seen, a->0.last_seen, b->0.last_seen)
                &&& a->0.txouts.dom().disjoint(b->0.txouts.dom()) ==> both.txouts
                    == a->0.txouts.union_prefer_right(b->0.txouts)
                &&& a->0.last_seen.dom().disjoint(b->0.last_seen.dom()) ==> both.last_seen
                    == a->0.last_seen.union_prefer_right(b->0.last_seen)
                &&& forall|i: int|
                    0 <= i < txouts.len() && (forall|j: int|
                        i < j < txouts.len() ==> row_outpoint(#[trigger] txouts[j])
                            != row_outpoint(txouts[i])) ==> both.txouts[row_outpoint(
                        #[trigger] txouts[i],
                    )] == row_txout(txouts[i])
                &&& forall|i: int, txid: Txid|
                    0 <= i < txs.len() && #[trigger] row_sees(txs[i], txid) && (forall|j: int|
                        i < j < txs.len() ==> !row_sees(#[trigger] txs[j], txid))
                        ==> both.last_seen[txid] == unsigned64(txs[i].last_seen->0)
            }
        }),
{
    let (txs_a, txs_b) = (picked(txs, txs_mine, true), picked(txs, txs_mine, false));
    let (txouts_a, txouts_b) = (picked(txouts, txouts_mine, true), picked(txouts, txouts_mine, false));
    let (anchors_a, anchors_b) = (
        picked(anchors, anchors_mine, true),
        picked(anchors, anchors_mine, false),
    );
    lemma_rows_parse_of_two(txs, txs_mine, txouts, txouts_mine, anchors, anchors_mine);
    lemma_graph_parts(txs, txouts, anchors);
    lemma_graph_parts(txs_a, txouts_a, anchors_a);
    lemma_graph_parts(txs_b, txouts_b, anchors_b);
    lemma_txs_of_two(txs, txs_mine);
    lemma_txouts_of_two(txouts, txouts_mine);
    lemma_anchors_of_two(anchors, anchors_mine);
    if let Some(both) = tx_graph_of_rows(txs, txouts, anchors) {
        let a = tx_graph_of_rows(txs_a, txouts_a, anchors_a)->0;
        let b = tx_graph_of_rows(txs_b, txouts_b, anchors_b)->0;
        if a.txouts.dom().disjoint(b.txouts.dom()) {
            lemma_disjoint_join(both.txouts, a.txouts, b.txouts);
        }
        if a.last_seen.dom().disjoint(b.last_seen.dom()) {
            lemma_disjoint_join(both.last_seen, a.last_seen, b.last_seen);
        }
        assert forall|i: int|
            0 <= i < txouts.len() && (forall|j: int|
                i < j < txouts.len() ==> row_outpoint(#[trigger] txouts[j]) != row_outpoint(
                    txouts[i],
                )) implies both.txouts[row_outpoint(#[trigger] txouts[i])] == row_txout(
            txouts[i],
        ) by {
            lemma_last_txout_counts(txouts, i);
        }
        assert forall|i: int, txid: Txid|
            0 <= i < txs.len() && #[trigger] row_sees(txs[i], txid) && (forall|j: int|
                i < j < txs.len() ==> !row_sees(#[trigger] txs[j], txid)) implies both.last_seen[txid]
            == unsigned64(txs[i].last_seen->0) by {
            lemma_last_time_counts(txs, i, txid);
        }
    }
}

/// The blocks of two wallets, read together, are in order if and only if those of each are. They
/// are those of both; where the two share no height, their union; where they share one, the row
/// that comes last counts.
pub proof fn law_chain_of_two(rows: Seq<BlockRow<Seq<char>>>, mine: Seq<bool>)
    requires
        rows.len() == mine.len(),
    ensures
        ({
            let (rows_a, rows_b) = (picked(rows, mine, true), picked(rows, mine, false));
            let both = blocks_of_rows(rows);
            let (a, b) = (blocks_of_rows(rows_a), blocks_of_rows(rows_b));
            &&& block_rows_parse(rows) <==> block_rows_parse(rows_a) && block_rows_parse(rows_b)
            &&& joins(both, a, b)
            &&& a.dom().disjoint(b.dom()) ==> both == a.union_prefer_right(b)
            &&& forall|i: int|
                0 <= i < rows.len() && (forall|j: int|
                    i < j < rows.len() ==> (#[trigger] rows[j]).height != rows[i].height)
                    ==> both[unsigned32((#[trigger] rows[i]).height)] == hash_of_text(rows[i].hash)
        }),
{
    let (rows_a, rows_b) = (picked(rows, mine, true), picked(rows, mine, false));
    let both = blocks_of_rows(rows);
    let (a, b) = (blocks_of_rows(rows_a), blocks_of_rows(rows_b));
    lemma_picked(rows, mine);
    let f = |row: BlockRow<Seq<char>>| hash_of_text(row.hash) is Some;
    lemma_all_of_two(rows, rows_a, rows_b, f);
    assert(block_rows_parse(rows) == all_are(rows, f));
    assert(block_rows_parse(rows_a) == all_are(rows_a, f));
    assert(block_rows_parse(rows_b) == all_are(rows_b, f));
    lemma_blocks_of_two(rows, mine);
    if a.dom().disjoint(b.dom()) {
        lemma_disjoint_join(both, a, b);
    }
    assert forall|i: int|
        0 <= i < rows.len() && (forall|j: int|
            i < j < rows.len() ==> (#[trigger] rows[j]).height != rows[i].height) implies both[unsigned32(
        (#[trigger] rows[i]).height,
    )] == hash_of_text(rows[i].hash) by {
        lemma_last_block_counts(rows, i);
    }
}

/// The blocks of the rows of two.
proof fn lemma_blocks_of_two(rows: Seq<BlockRow<Seq<char>>>, mine: Seq<bool>)
    requires
        rows.len() == mine.len(),
    ensures
        joins(
            blocks_of_rows(rows),
            blocks_of_rows(picked(rows, mine, true)),
            blocks_of_rows(picked(rows, mine, false)),
        ),
    decreases rows.len(),
{
    let both = blocks_of_rows(rows);
    let (a, b) = (
        blocks_of_rows(picked(rows, mine, true)),
        blocks_of_rows(picked(rows, mine, false)),
    );
    if rows.len() == 0 {
        assert(both.dom() =~= a.dom().union(b.dom()));
    } else {
        let shorter = rows.drop_last();
        let others = mine.drop_last();
        lemma_blocks_of_two(shorter, others);
        lemma_picked_last(rows, mine);
        lemma_join_insert(
            blocks_of_rows(shorter),
            blocks_of_rows(picked(shorter, others, true)),
            blocks_of_rows(picked(shorter, others, false)),
            unsigned32(rows.last().height),
            hash_of_text(rows.last().hash),
        );
    }
}

/// Of the rows of `block` for one height, the last counts.
proof fn lemma_last_block_counts(rows: Seq<BlockRow<Seq<char>>>, i: int)
    requires
        0 <= i < rows.len(),
        forall|j: int| i < j < rows.len() ==> (#[trigger] rows[j]).height != rows[i].height,
    ensures
        blocks_of_rows(rows)[unsigned32(rows[i].height)] == hash_of_text(rows[i].hash),
    decreases rows.len(),
{
    let shorter = rows.drop_last();
    if i < rows.len() - 1 {
        assert forall|j: int| i < j < shorter.len() implies (#[trigger] shorter[j]).height
            != shorter[i].height by {
            assert(rows[j].height != rows[i].height);
        }
        lemma_last_block_counts(shorter, i);
        assert(rows[rows.len() - 1].height != rows[i].height);
    }
}

/// Which keys are of the given wallet.
spec fn are_of<K>(keys: Seq<K>, owner: spec_fn(K) -> Seq<char>, wallet_name: Seq<char>) -> Seq<
    bool,
> {
    keys.map_values(|key: K| owner(key) == wallet_name)
}

/// What is picked of mapped rows is what is picked, mapped.
proof fn lemma_picked_map<K, R>(keys: Seq<K>, mine: Seq<bool>, side: bool, f: spec_fn(K) -> R)
    requires
        keys.len() == mine.len(),
    ensures
        picked(keys.map_values(f), mine, side) == picked(keys, mine, side).map_values(f),
    decreases keys.len(),
{
    if keys.len() == 0 {
        assert(picked(keys.map_values(f), mine, side) =~= picked(keys, mine, side).map_values(f));
    } else {
        let shorter = keys.drop_last();
        lemma_picked_map(shorter, mine.drop_last(), side, f);
        assert(keys.map_values(f).drop_last() =~= shorter.map_values(f));
        assert(picked(keys.map_values(f), mine, side) =~= picked(keys, mine, side).map_values(f));
    }
}

/// What is picked by a wallet are the keys of that wallet, and what is left the others.
proof fn lemma_picked_keys<K>(
    keys: Seq<K>,
    owner: spec_fn(K) -> Seq<char>,
    wallet_name: Seq<char>,
    side: bool,
)
    requires
        keys.no_duplicates(),
    ensures
        ({
            let own = picked(keys, are_of(keys, owner, wallet_name), side);
            &&& own.no_duplicates()
            &&& forall|key: K| #[trigger]
                own.contains(key) <==> keys.contains(key) && (owner(key) == wallet_name) == side
        }),
    decreases keys.len(),
{
    let mine = are_of(keys, owner, wallet_name);
    let own = picked(keys, mine, side);
    if keys.len() > 0 {
        let shorter = keys.drop_last();
        let last = keys.last();
        assert(mine.drop_last() =~= are_of(shorter, owner, wallet_name));
        lemma_picked_keys(shorter, owner, wallet_name, side);
        let before = picked(shorter, mine.drop_last(), side);
        assert(keys =~= shorter.push(last));
        assert(!shorter.contains(last)) by {
            if shorter.contains(last) {
                let i = choose|i: int| 0 <= i < shorter.len() && shorter[i] == last;
                assert(keys[i] == keys[keys.len() - 1]);
            }
        }
        assert(!before.contains(last));
        assert forall|key: K| #[trigger]
            own.contains(key) <==> keys.contains(key) && (owner(key) == wallet_name) == side by {
            lemma_contains_push(shorter, last, key);
            lemma_contains_push(before, last, key);
        }
        assert(own.no_duplicates()) by {
            if mine.last() == side {
                assert forall|i: int, j: int| 0 <= i < j < own.len() implies own[i] != own[j] by {
                    assert(before[i] == own[i]);
                    assert(before.contains(before[i]));
                }
            }
        }
    }
}

/// What is picked by a wallet lists that wallet's rows, and what is left the other's, where all
/// rows are of one of the two.
proof fn lemma_picked_lists<K, V>(
    keys: Seq<K>,
    table: Map<K, V>,
    owner: spec_fn(K) -> Seq<char>,
    wallet_name: Seq<char>,
    other: Seq<char>,
)
    requires
        lists(keys, table.dom()),
        wallet_name != other,
        forall|key: K| #[trigger]
            table.contains_key(key) ==> owner(key) == wallet_name || owner(key) == other,
    ensures
        lists(
            picked(keys, are_of(keys, owner, wallet_name), true),
            rows_of(table, owner, wallet_name).dom(),
        ),
        lists(
            picked(keys, are_of(keys, owner, wallet_name), false),
            rows_of(table, owner, other).dom(),
        ),
{
    let mine = are_of(keys, owner, wallet_name);
    lemma_picked_keys(keys, owner, wallet_name, true);
    lemma_picked_keys(keys, owner, wallet_name, false);
    let (a, b) = (picked(keys, mine, true), picked(keys, mine, false));
    assert forall|key: K| keys.contains(key) <==> #[trigger] table.contains_key(key) by {
        assert(keys.to_set().contains(key) <==> table.dom().contains(key));
    }
    assert(a.to_set() =~= rows_of(table, owner, wallet_name).dom()) by {
        assert forall|key: K|
            a.to_set().contains(key) <==> rows_of(table, owner, wallet_name).dom().contains(
                key,
            ) by {
            assert(a.to_set().contains(key) <==> a.contains(key));
            assert(keys.contains(key) <==> table.contains_key(key));
        }
    }
    assert(b.to_set() =~= rows_of(table, owner, other).dom()) by {
        assert forall|key: K|
            b.to_set().contains(key) <==> rows_of(table, owner, other).dom().contains(key) by {
            assert(b.to_set().contains(key) <==> b.contains(key));
            assert(keys.contains(key) <==> table.contains_key(key));
            assert(b.contains(key) <==> keys.contains(key) && owner(key) != wallet_name);
        }
    }
}

/// Whether the first key is listed after the second.
pub open spec fn listed_after<K>(keys: Seq<K>, first: K, second: K) -> bool {
    exists|i: int, j: int| 0 <= j < i < keys.len() && keys[i] == first && keys[j] == second
}

/// Whether all transactions, outputs, anchors and blocks in the tables are of one of two wallets.
pub open spec fn are_of_two(tables: Tables, wallet_name: Seq<char>, other: Seq<char>) -> bool {
    &&& forall|key: (Seq<char>, Seq<char>)| #[trigger]
        tables.tx.contains_key(key) ==> key.0 == wallet_name || key.0 == other
    &&& forall|key: (Seq<char>, Seq<char>, i32)| #[trigger]
        tables.txout.contains_key(key) ==> key.0 == wallet_name || key.0 == other
    &&& forall|key: (Seq<char>, Seq<char>, Seq<char>)| #[trigger]
        tables.anchor_tx.contains_key(key) ==> key.0 == wallet_name || key.0 == other
    &&& forall|key: (Seq<char>, Seq<char>)| #[trigger]
        tables.block.contains_key(key) ==> key.0 == wallet_name || key.0 == other
}

/// The rows that are listed of a wallet, and those of the other, as they are listed for each alone.
proof fn lemma_two_listings(
    tables: Tables,
    wallet_name: Seq<char>,
    other: Seq<char>,
    listing: Listing,
) -> (mine: (Seq<bool>, Seq<bool>, Seq<bool>, Seq<bool>, Listing, Listing))
    requires
        wallet_name != other,
        are_of_two(tables, wallet_name, other),
        listing.of(tables),
    ensures
        mine.4.of(tables.of_wallet(wallet_name)),
        mine.5.of(tables.of_wallet(other)),
        mine.0.len() == listing.tx.len(),
        mine.1.len() == listing.txout.len(),
        mine.2.len() == listing.anchor_tx.len(),
        mine.3.len() == listing.block.len(),
        picked(tables.tx_rows(listing.tx), mine.0, true) == tables.of_wallet(wallet_name).tx_rows(
            mine.4.tx,
        ),
        picked(tables.tx_rows(listing.tx), mine.0, false) == tables.of_wallet(other).tx_rows(
            mine.5.tx,
        ),
        picked(tables.txout_rows(listing.txout), mine.1, true) == tables.of_wallet(
            wallet_name,
        ).txout_rows(mine.4.txout),
        picked(tables.txout_rows(listing.txout), mine.1, false) == tables.of_wallet(
            other,
        ).txout_rows(mine.5.txout),
        picked(tables.anchor_rows(listing.anchor_tx), mine.2, true) == tables.of_wallet(
            wallet_name,
        ).anchor_rows(mine.4.anchor_tx),
        picked(tables.anchor_rows(listing.anchor_tx), mine.2, false) == tables.of_wallet(
            other,
        ).anchor_rows(mine.5.anchor_tx),
        picked(tables.block_rows(listing.block), mine.3, true) == tables.of_wallet(
            wallet_name,
        ).block_rows(mine.4.block),
        picked(tables.block_rows(listing.block), mine.3, false) == tables.of_wallet(
            other,
        ).block_rows(mine.5.block),
{
    let pair = |key: (Seq<char>, Seq<char>)| key.0;
    let txout = |key: (Seq<char>, Seq<char>, i32)| key.0;
    let anchor = |key: (Seq<char>, Seq<char>, Seq<char>)| key.0;
    let txs_mine = are_of(listing.tx, pair, wallet_name);
    let txouts_mine = are_of(listing.txout, txout, wallet_name);
    let anchors_mine = are_of(listing.anchor_tx, anchor, wallet_name);
    let blocks_mine = are_of(listing.block, pair, wallet_name);
    let own = Listing {
        tx: picked(listing.tx, txs_mine, true),
        txout: picked(listing.txout, txouts_mine, true),
        anchor_tx: picked(listing.anchor_tx, anchors_mine, true),
        block: picked(listing.block, blocks_mine, true),
    };
    let others = Listing {
        tx: picked(listing.tx, txs_mine, false),
        txout: picked(listing.txout, txouts_mine, false),
        anchor_tx: picked(listing.anchor_tx, anchors_mine, false),
        block: picked(listing.block, blocks_mine, false),
    };
    lemma_picked_lists(listing.tx, tables.tx, pair, wallet_name, other);
    lemma_picked_lists(listing.txout, tables.txout, txout, wallet_name, other);
    lemma_picked_lists(listing.anchor_tx, tables.anchor_tx, anchor, wallet_name, other);
    lemma_picked_lists(listing.block, tables.block, pair, wallet_name, other);
    lemma_same_rows_listed(tables, wallet_name, own);
    lemma_same_rows_listed(tables, other, others);
    let tx_row = |key: (Seq<char>, Seq<char>)|
        TxRow {
            txid: key.1,
            whole_tx: tables.tx[key].whole_tx,
            last_seen: tables.tx[key].last_seen,
        };
    let txout_row = |key: (Seq<char>, Seq<char>, i32)|
        TxOutRow {
            txid: key.1,
            vout: key.2,
            value: tables.txout[key].value,
            script: tables.txout[key].script,
        };
    let anchor_row = |key: (Seq<char>, Seq<char>, Seq<char>)|
        AnchorRow { anchor: tables.anchor_tx[key], txid: key.2 };
    let block_row = |key: (Seq<char>, Seq<char>)|
        BlockRow { hash: key.1, height: tables.block[key] };
    assert(tables.tx_rows(listing.tx) =~= listing.tx.map_values(tx_row));
    assert(tables.txout_rows(listing.txout) =~= listing.txout.map_values(txout_row));
    assert(tables.anchor_rows(listing.anchor_tx) =~= listing.anchor_tx.map_values(anchor_row));
    assert(tables.block_rows(listing.block) =~= listing.block.map_values(block_row));
    lemma_picked_map(listing.tx, txs_mine, true, tx_row);
    lemma_picked_map(listing.tx, txs_mine, false, tx_row);
    lemma_picked_map(listing.txout, txouts_mine, true, txout_row);
    lemma_picked_map(listing.txout, txouts_mine, false, txout_row);
    lemma_picked_map(listing.anchor_tx, anchors_mine, true, anchor_row);
    lemma_picked_map(listing.anchor_tx, anchors_mine, false, anchor_row);
    lemma_picked_map(listing.block, blocks_mine, true, block_row);
    lemma_picked_map(listing.block, blocks_mine, false, block_row);
    assert(own.tx.map_values(tx_row) =~= tables.tx_rows(own.tx));
    assert(others.tx.map_values(tx_row) =~= tables.tx_rows(others.tx));
    assert(own.txout.map_values(txout_row) =~= tables.txout_rows(own.txout));
    assert(others.txout.map_values(txout_row) =~= tables.txout_rows(others.txout));
    assert(own.anchor_tx.map_values(anchor_row) =~= tables.anchor_rows(own.anchor_tx));
    assert(others.anchor_tx.map_values(anchor_row) =~= tables.anchor_rows(others.anchor_tx));
    assert(own.block.map_values(block_row) =~= tables.block_rows(own.block));
    assert(others.block.map_values(block_row) =~= tables.block_rows(others.block));
    (txs_mine, txouts_mine, anchors_mine, blocks_mine, own, others)
}

/// A wallet's rows are the same in all the tables as in those of the wallet.
proof fn lemma_same_rows_listed(tables: Tables, wallet_name: Seq<char>, listing: Listing)
    requires
        listing.of(tables.of_wallet(wallet_name)),
    ensures
        tables.tx_rows(listing.tx) == tables.of_wallet(wallet_name).tx_rows(listing.tx),
        tables.txout_rows(listing.txout) == tables.of_wallet(wallet_name).txout_rows(
            listing.txout,
        ),
        tables.anchor_rows(listing.anchor_tx) == tables.of_wallet(wallet_name).anchor_rows(
            listing.anchor_tx,
        ),
        tables.block_rows(listing.block) == tables.of_wallet(wallet_name).block_rows(
            listing.block,
        ),
{
    let own = tables.of_wallet(wallet_name);
    assert forall|i: int| 0 <= i < listing.tx.len() implies own.tx.contains_key(
        #[trigger] listing.tx[i],
    ) by {
        assert(listing.tx.to_set().contains(listing.tx[i]));
    }
    assert forall|i: int| 0 <= i < listing.txout.len() implies own.txout.contains_key(
        #[trigger] listing.txout[i],
    ) by {
        assert(listing.txout.to_set().contains(listing.txout[i]));
    }
    assert forall|i: int| 0 <= i < listing.anchor_tx.len() implies own.anchor_tx.contains_key(
        #[trigger] listing.anchor_tx[i],
    ) by {
        assert(listing.anchor_tx.to_set().contains(listing.anchor_tx[i]));
    }
    assert forall|i: int| 0 <= i < listing.block.len() implies own.block.contains_key(
        #[trigger] listing.block[i],
    ) by {
        assert(listing.block.to_set().contains(listing.block[i]));
    }
    assert(tables.tx_rows(listing.tx) =~= own.tx_rows(listing.tx));
    assert(tables.txout_rows(listing.txout) =~= own.txout_rows(listing.txout));
    assert(tables.anchor_rows(listing.anchor_tx) =~= own.anchor_rows(listing.anchor_tx));
    assert(tables.block_rows(listing.block) =~= own.block_rows(listing.block));
}

/// Of two wallets' rows for one output, the one that is listed later counts.
proof fn lemma_later_txout_counts(
    tables: Tables,
    later: Seq<char>,
    later_txouts: Map<OutPoint, TxOut<Seq<u8>>>,
    earlier: Seq<char>,
    earlier_txouts: Map<OutPoint, TxOut<Seq<u8>>>,
    keys: Seq<(Seq<char>, Seq<char>, i32)>,
    outpoint: OutPoint,
)
    requires
        are_of_two(tables, later, earlier),
        lists(keys, tables.txout.dom()),
        holds_txouts(tables.of_wallet(later).txout, later, later_txouts),
        holds_txouts(tables.of_wallet(earlier).txout, earlier, earlier_txouts),
        later_txouts.contains_key(outpoint),
        listed_after(keys, txout_key(later, outpoint), txout_key(earlier, outpoint)),
    ensures
        with_txout_rows(TxGraphView::empty(), tables.txout_rows(keys)).txouts[outpoint]
            == later_txouts[outpoint],
{
    let rows = tables.txout_rows(keys);
    let (i, j) = choose|i: int, j: int|
        0 <= j < i < keys.len() && keys[i] == txout_key(later, outpoint) && keys[j] == txout_key(
            earlier,
            outpoint,
        );
    law_hash_text_round_trip(outpoint.0);
    law_u32_round_trip(outpoint.1, 0);
    law_u64_round_trip(later_txouts[outpoint].value, 0);
    assert(tables.of_wallet(later).txout.contains_key(keys[i]));
    assert(row_outpoint(rows[i]) == outpoint);
    assert(row_txout(rows[i]) == later_txouts[outpoint]);
    assert forall|k: int| i < k < rows.len() implies row_outpoint(#[trigger] rows[k])
        != row_outpoint(rows[i]) by {
        let key = keys[k];
        assert(keys.to_set().contains(key));
        assert(tables.txout.contains_key(key));
        let (wallet, txouts) = if key.0 == later {
            (later, later_txouts)
        } else {
            (earlier, earlier_txouts)
        };
        assert(tables.of_wallet(wallet).txout.contains_key(key));
        let o = choose|o: OutPoint| #[trigger]
            txouts.contains_key(o) && key == txout_key(wallet, o);
        law_hash_text_round_trip(o.0);
        law_u32_round_trip(o.1, 0);
        assert(row_outpoint(rows[k]) == o);
        assert(keys[k] != keys[i] && keys[k] != keys[j]);
    }
    lemma_last_txout_counts(rows, i);
}

/// Of two wallets' rows for one transaction that both have seen, the one that is listed later
/// counts.
proof fn lemma_later_time_counts(
    tables: Tables,
    later: Seq<char>,
    later_graph: TxGraphView,
    earlier: Seq<char>,
    earlier_graph: TxGraphView,
    keys: Seq<(Seq<char>, Seq<char>)>,
    txid: Txid,
)
    requires
        are_of_two(tables, later, earlier),
        lists(keys, tables.tx.dom()),
        holds_txs(
            tables.of_wallet(later).tx,
            later,
            later_graph.txs,
            later_graph.last_seen,
        ),
        holds_txs(
            tables.of_wallet(earlier).tx,
            earlier,
            earlier_graph.txs,
            earlier_graph.last_seen,
        ),
        later_graph.last_seen.contains_key(txid),
        listed_after(keys, tx_key(later, txid), tx_key(earlier, txid)),
        tx_rows_parse(tables.tx_rows(keys)),
    ensures
        with_tx_rows(TxGraphView::empty(), tables.tx_rows(keys)).last_seen[txid]
            == later_graph.last_seen[txid],
{
    let rows = tables.tx_rows(keys);
    let (i, j) = choose|i: int, j: int|
        0 <= j < i < keys.len() && keys[i] == tx_key(later, txid) && keys[j] == tx_key(
            earlier,
            txid,
        );
    law_hash_text_round_trip(txid);
    law_u64_round_trip(later_graph.last_seen[txid], 0);
    assert(has_id(later_graph.txs, txid));
    let tx = choose|tx: Transaction<Seq<u8>>| #[trigger]
        later_graph.txs.contains(tx) && tx.txid == txid;
    assert(tables.of_wallet(later).tx.contains_key(keys[i]));
    assert(row_sees(rows[i], txid));
    assert forall|k: int| i < k < rows.len() implies !row_sees(#[trigger] rows[k], txid) by {
        let key = keys[k];
        assert(keys.to_set().contains(key));
        assert(tables.tx.contains_key(key));
        let (wallet, graph) = if key.0 == later {
            (later, later_graph)
        } else {
            (earlier, earlier_graph)
        };
        assert(tables.of_wallet(wallet).tx.contains_key(key));
        let t = choose|t: Transaction<Seq<u8>>| #[trigger]
            graph.txs.contains(t) && key == tx_key(wallet, t.txid);
        law_hash_text_round_trip(t.txid);
        assert(keys[k] != keys[i] && keys[k] != keys[j]);
    }
    lemma_last_time_counts(rows, i, txid);
}

/// Of two wallets' rows for one height, the one that is listed later counts.
proof fn lemma_later_block_counts(
    tables: Tables,
    later: Seq<char>,
    later_blocks: Map<u32, Option<BlockHash>>,
    earlier: Seq<char>,
    earlier_blocks: Map<u32, Option<BlockHash>>,
    keys: Seq<(Seq<char>, Seq<char>)>,
    height: u32,
)
    requires
        are_of_two(tables, later, earlier),
        lists(keys, tables.block.dom()),
        holds_blocks(tables.of_wallet(later).block, later, later_blocks),
        holds_blocks(tables.of_wallet(earlier).block, earlier, earlier_blocks),
        later_blocks.contains_key(height),
        earlier_blocks.contains_key(height),
        listed_after(
            keys,
            block_key(later, later_blocks[height]->0),
            block_key(earlier, earlier_blocks[height]->0),
        ),
    ensures
        blocks_of_rows(tables.block_rows(keys))[height] == later_blocks[height],
{
    let rows = tables.block_rows(keys);
    let hash = later_blocks[height]->0;
    let (i, j) = choose|i: int, j: int|
        0 <= j < i < keys.len() && keys[i] == block_key(later, hash) && keys[j] == block_key(
            earlier,
            earlier_blocks[height]->0,
        );
    law_hash_text_round_trip(hash);
    law_u32_round_trip(height, 0);
    assert(tables.of_wallet(later).block.contains_key(keys[i]));
    assert(rows[i].height == signed32(height));
    assert forall|k: int| i < k < rows.len() implies (#[trigger] rows[k]).height
        != rows[i].height by {
        let key = keys[k];
        assert(keys.to_set().contains(key));
        assert(tables.block.contains_key(key));
        let (wallet, blocks) = if key.0 == later {
            (later, later_blocks)
        } else {
            (earlier, earlier_blocks)
        };
        assert(tables.of_wallet(wallet).block.contains_key(key));
        let h = choose|h: u32| #[trigger]
            blocks.contains_key(h) && key == block_key(wallet, blocks[h]->0);
        law_u32_round_trip(h, 0);
        assert(rows[k].height == signed32(h));
        assert(keys[k] != keys[i] && keys[k] != keys[j]);
    }
    lemma_last_block_counts(rows, i);
}

/// What is read of a wallet beside another is its own network, descriptors and indices, the
/// transactions and anchors of both wallets, and the outputs, times and blocks of both. Where both
/// have an output at one place, a time for one transaction, or a block at one height, the row that
/// the database lists later counts.
pub proof fn law_read_beside_another(
    tables: Tables,
    wallet_name: Seq<char>,
    stored: ChangeSetView,
    other: Seq<char>,
    others: ChangeSetView,
    listing: Listing,
)
    requires
        wallet_name != other,
        holds(tables.of_wallet(wallet_name), wallet_name, stored),
        stored.network is Some,
        holds(tables.of_wallet(other), other, others),
        are_of_two(tables, wallet_name, other),
        listing.of(tables),
    ensures
        tables.wallet_row(wallet_name) matches Some(row) && row_is_readable(row),
        wallet_of_rows(
            tables.wallet_row(wallet_name),
            tables.tx_rows(listing.tx),
            tables.txout_rows(listing.txout),
            tables.anchor_rows(listing.anchor_tx),
            tables.block_rows(listing.block),
        ) matches Some(read) && {
            &&& read.descriptor == stored.descriptor
            &&& read.change_descriptor == stored.change_descriptor
            &&& read.network == stored.network
            &&& read.last_revealed == stored.last_revealed
            &&& read.tx_graph.txs == stored.tx_graph.txs.union(others.tx_graph.txs)
            &&& read.tx_graph.anchors == stored.tx_graph.anchors.union(others.tx_graph.anchors)
            &&& joins(read.tx_graph.txouts, stored.tx_graph.txouts, others.tx_graph.txouts)
            &&& joins(
                read.tx_graph.last_seen,
                stored.tx_graph.last_seen,
                others.tx_graph.last_seen,
            )
            &&& joins(read.blocks, stored.blocks, others.blocks)
            &&& forall|o: OutPoint| #[trigger]
                stored.tx_graph.txouts.contains_key(o) && others.tx_graph.txouts.contains_key(o)
                    ==> {
                    let (own, foreign) = (txout_key(wallet_name, o), txout_key(other, o));
                    &&& listed_after(listing.txout, own, foreign) ==> read.tx_graph.txouts[o]
                        == stored.tx_graph.txouts[o]
                    &&& listed_after(listing.txout, foreign, own) ==> read.tx_graph.txouts[o]
                        == others.tx_graph.txouts[o]
                }
            &&& forall|id: Txid| #[trigger]
                stored.tx_graph.last_seen.contains_key(id)
                    && others.tx_graph.last_seen.contains_key(id) ==> {
                    let (own, foreign) = (tx_key(wallet_name, id), tx_key(other, id));
                    &&& listed_after(listing.tx, own, foreign) ==> read.tx_graph.last_seen[id]
                        == stored.tx_graph.last_seen[id]
                    &&& listed_after(listing.tx, foreign, own) ==> read.tx_graph.last_seen[id]
                        == others.tx_graph.last_seen[id]
                }
            &&& forall|height: u32| #[trigger]
                stored.blocks.contains_key(height) && others.blocks.contains_key(height) ==> {
                    let own = block_key(wallet_name, stored.blocks[height]->0);
                    let foreign = block_key(other, others.blocks[height]->0);
                    &&& listed_after(listing.block, own, foreign) ==> read.blocks[height]
                        == stored.blocks[height]
                    &&& listed_after(listing.block, foreign, own) ==> read.blocks[height]
                        == others.blocks[height]
                }
        },
{
    let (own, foreign) = (tables.of_wallet(wallet_name), tables.of_wallet(other));
    let (txs_mine, txouts_mine, anchors_mine, blocks_mine, own_listing, foreign_listing) =
        lemma_two_listings(tables, wallet_name, other, listing);
    law_read(own, wallet_name, stored, own_listing);
    lemma_graph_read(own, wallet_name, stored.tx_graph, own_listing);
    lemma_graph_read(foreign, other, others.tx_graph, foreign_listing);
    lemma_chain_read(own, wallet_name, stored.blocks, own_listing.block);
    lemma_chain_read(foreign, other, others.blocks, foreign_listing.block);
    assert(tables.wallet_row(wallet_name) == own.wallet_row(wallet_name));

    let txs = tables.tx_rows(listing.tx);
    let txouts = tables.txout_rows(listing.txout);
    let anchors = tables.anchor_rows(listing.anchor_tx);
    let blocks = tables.block_rows(listing.block);
    law_graph_of_two(txs, txs_mine, txouts, txouts_mine, anchors, anchors_mine);
    law_chain_of_two(blocks, blocks_mine);
    lemma_graph_parts(txs, txouts, anchors);
    let graph = tx_graph_of_rows(txs, txouts, anchors)->0;
    let row = tables.wallet_row(wallet_name)->0;
    let read = wallet_of_rows(Some(row), txs, txouts, anchors, blocks)->0;
    assert(read.tx_graph == graph);
    assert(read.blocks == blocks_of_rows(blocks));

    assert forall|o: OutPoint| #[trigger]
        stored.tx_graph.txouts.contains_key(o) && others.tx_graph.txouts.contains_key(
            o,
        ) implies (listed_after(
        listing.txout,
        txout_key(wallet_name, o),
        txout_key(other, o),
    ) ==> graph.txouts[o] == stored.tx_graph.txouts[o]) && (listed_after(
        listing.txout,
        txout_key(other, o),
        txout_key(wallet_name, o),
    ) ==> graph.txouts[o] == others.tx_graph.txouts[o]) by {
        let (a, b) = (stored.tx_graph.txouts, others.tx_graph.txouts);
        if listed_after(listing.txout, txout_key(wallet_name, o), txout_key(other, o)) {
            lemma_later_txout_counts(tables, wallet_name, a, other, b, listing.txout, o);
        }
        if listed_after(listing.txout, txout_key(other, o), txout_key(wallet_name, o)) {
            lemma_later_txout_counts(tables, other, b, wallet_name, a, listing.txout, o);
        }
    }
    assert forall|id: Txid| #[trigger]
        stored.tx_graph.last_seen.contains_key(id) && others.tx_graph.last_seen.contains_key(
            id,
        ) implies (listed_after(listing.tx, tx_key(wallet_name, id), tx_key(other, id))
        ==> graph.last_seen[id] == stored.tx_graph.last_seen[id]) && (listed_after(
        listing.tx,
        tx_key(other, id),
        tx_key(wallet_name, id),
    ) ==> graph.last_seen[id] == others.tx_graph.last_seen[id]) by {
        let (a, b) = (stored.tx_graph, others.tx_graph);
        if listed_after(listing.tx, tx_key(wallet_name, id), tx_key(other, id)) {
            lemma_later_time_counts(tables, wallet_name, a, other, b, listing.tx, id);
        }
        if listed_after(listing.tx, tx_key(other, id), tx_key(wallet_name, id)) {
            lemma_later_time_counts(tables, other, b, wallet_name, a, listing.tx, id);
        }
    }
    assert forall|height: u32| #[trigger]
        stored.blocks.contains_key(height) && others.blocks.contains_key(height) implies ({
        let own = block_key(wallet_name, stored.blocks[height]->0);
        let foreign = block_key(other, others.blocks[height]->0);
        &&& listed_after(listing.block, own, foreign) ==> read.blocks[height]
            == stored.blocks[height]
        &&& listed_after(listing.block, foreign, own) ==> read.blocks[height]
            == others.blocks[height]
    }) by {
        let (a, b) = (stored.blocks, others.blocks);
        let (x, y) = (block_key(wallet_name, a[height]->0), block_key(other, b[height]->0));
        if listed_after(listing.block, x, y) {
            lemma_later_block_counts(tables, wallet_name, a, other, b, listing.block, height);
        }
        if listed_after(listing.block, y, x) {
            lemma_later_block_counts(tables, other, b, wallet_name, a, listing.block, height);
        }
    }
}

} // verus!
