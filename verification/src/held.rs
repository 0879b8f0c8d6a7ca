//! What the tables hold of a wallet, after what is written to them, and for what is read of them.

use vstd::prelude::*;

use crate::anchor::{anchor_of_text, anchor_text, AnchoredTx};
use crate::changeset::TxGraphView;
use crate::hash::{
    hash_of_text, hash_text, law_hash_text_injective, law_hash_text_round_trip, BlockHash, Txid,
};
use crate::local_chain::{
    block_rows_parse, block_statement, blocks_of_rows, local_chain_statements,
};
use crate::number::{law_u32_round_trip, law_u64_round_trip, signed32, signed64};
use crate::order::{key_order, lemma_key_order_exists, lemma_keys_are_ordered, lemma_keys_are_told_apart};
use crate::tables::{Tables, TxOutRecord, TxRecord};
use crate::transaction::{OutPoint, Transaction, TxOut};
use crate::tx_graph::{
    anchor_rows_parse, anchor_statement, last_seen_statement, tx_rows_parse, tx_statements,
    txout_rows_parse, txout_statement, with_anchor_rows, with_tx_rows, with_txout_rows,
};

verus! {

/// The key of an output in `txout`.
pub open spec fn txout_key(wallet_name: Seq<char>, outpoint: OutPoint) -> (
    Seq<char>,
    Seq<char>,
    i32,
) {
    (wallet_name, hash_text(outpoint.0), signed32(outpoint.1))
}

/// What `txout` holds of an output.
pub open spec fn txout_record(txout: TxOut<Seq<u8>>) -> TxOutRecord {
    TxOutRecord { value: signed64(txout.value), script: txout.script_pubkey }
}

/// Whether `txout` holds the wallet's outputs, and nothing else.
pub open spec fn holds_txouts(
    table: Map<(Seq<char>, Seq<char>, i32), TxOutRecord>,
    wallet_name: Seq<char>,
    txouts: Map<OutPoint, TxOut<Seq<u8>>>,
) -> bool {
    &&& forall|outpoint: OutPoint| #[trigger]
        txouts.contains_key(outpoint) ==> table.contains_key(txout_key(wallet_name, outpoint))
            && table[txout_key(wallet_name, outpoint)] == txout_record(txouts[outpoint])
    &&& forall|key: (Seq<char>, Seq<char>, i32)| #[trigger]
        table.contains_key(key) ==> exists|outpoint: OutPoint| #[trigger]
            txouts.contains_key(outpoint) && key == txout_key(wallet_name, outpoint)
}

/// Different outputs have different keys.
proof fn lemma_txout_key_injective(wallet_name: Seq<char>, a: OutPoint, b: OutPoint)
    requires
        txout_key(wallet_name, a) == txout_key(wallet_name, b),
    ensures
        a == b,
{
    law_hash_text_injective(a.0, b.0);
    law_u32_round_trip(a.1, 0);
    law_u32_round_trip(b.1, 0);
}

/// One output more, or another value for one.
proof fn lemma_txout_written(
    table: Map<(Seq<char>, Seq<char>, i32), TxOutRecord>,
    wallet_name: Seq<char>,
    txouts: Map<OutPoint, TxOut<Seq<u8>>>,
    outpoint: OutPoint,
    txout: TxOut<Seq<u8>>,
)
    requires
        holds_txouts(table, wallet_name, txouts),
    ensures
        holds_txouts(
            table.insert(txout_key(wallet_name, outpoint), txout_record(txout)),
            wallet_name,
            txouts.insert(outpoint, txout),
        ),
{
    let table2 = table.insert(txout_key(wallet_name, outpoint), txout_record(txout));
    let txouts2 = txouts.insert(outpoint, txout);
    assert forall|o: OutPoint| #[trigger] txouts2.contains_key(o) implies table2.contains_key(
        txout_key(wallet_name, o),
    ) && table2[txout_key(wallet_name, o)] == txout_record(txouts2[o]) by {
        if o != outpoint {
            assert(txouts.contains_key(o));
            if txout_key(wallet_name, o) == txout_key(wallet_name, outpoint) {
                lemma_txout_key_injective(wallet_name, o, outpoint);
            }
        }
    }
    assert forall|key: (Seq<char>, Seq<char>, i32)| #[trigger]
        table2.contains_key(key) implies exists|o: OutPoint| #[trigger]
        txouts2.contains_key(o) && key == txout_key(wallet_name, o) by {
        if key == txout_key(wallet_name, outpoint) {
            assert(txouts2.contains_key(outpoint));
        } else {
            assert(table.contains_key(key));
            let o = choose|o: OutPoint| #[trigger]
                txouts.contains_key(o) && key == txout_key(wallet_name, o);
            assert(txouts2.contains_key(o));
        }
    }
}

/// What `txout` holds after the statements for some outputs.
pub(crate) proof fn lemma_txouts_written(
    tables: Tables,
    wallet_name: Seq<char>,
    before: Map<OutPoint, TxOut<Seq<u8>>>,
    txouts: Map<OutPoint, TxOut<Seq<u8>>>,
    order: Seq<OutPoint>,
)
    requires
        holds_txouts(tables.txout, wallet_name, before),
        forall|i: int| 0 <= i < order.len() ==> txouts.contains_key(#[trigger] order[i]),
    ensures
        ({
            let statements = order.map_values(
                |outpoint: OutPoint| txout_statement(wallet_name, outpoint, txouts[outpoint]),
            );
            tables.apply_all(statements) matches Some(after) && after == (Tables {
                txout: after.txout,
                ..tables
            }) && holds_txouts(
                after.txout,
                wallet_name,
                before.union_prefer_right(txouts.restrict(order.to_set())),
            )
        }),
    decreases order.len(),
{
    let f = |outpoint: OutPoint| txout_statement(wallet_name, outpoint, txouts[outpoint]);
    let statements = order.map_values(f);
    if order.len() == 0 {
        assert(before.union_prefer_right(txouts.restrict(order.to_set())) =~= before);
    } else {
        let shorter = order.drop_last();
        let last = order.last();
        lemma_txouts_written(tables, wallet_name, before, txouts, shorter);
        assert(statements.drop_last() =~= shorter.map_values(f));
        let between = tables.apply_all(shorter.map_values(f))->0;
        let held = before.union_prefer_right(txouts.restrict(shorter.to_set()));
        assert(txouts.contains_key(order[order.len() - 1]));
        lemma_txout_written(between.txout, wallet_name, held, last, txouts[last]);
        assert(order =~= shorter.push(last));
        assert(order.to_set() =~= shorter.to_set().insert(last)) by {
            lemma_push_to_set(shorter, last);
        }
        assert(held.insert(last, txouts[last]) =~= before.union_prefer_right(
            txouts.restrict(order.to_set()),
        ));
    }
}

/// The elements of a sequence with one more.
proof fn lemma_push_to_set<K>(s: Seq<K>, k: K)
    ensures
        s.push(k).to_set() == s.to_set().insert(k),
{
    assert forall|x: K| s.to_set().insert(k).contains(x) implies s.push(k).to_set().contains(
        x,
    ) by {
        if x == k {
            assert(s.push(k)[s.len() as int] == x);
        } else {
            let i = choose|i: int| 0 <= i < s.len() && s[i] == x;
            assert(s.push(k)[i] == x);
        }
    }
    assert(s.push(k).to_set() =~= s.to_set().insert(k));
}

/// What is read of some rows of `txout`.
pub(crate) proof fn lemma_txouts_read(
    tables: Tables,
    wallet_name: Seq<char>,
    txouts: Map<OutPoint, TxOut<Seq<u8>>>,
    keys: Seq<(Seq<char>, Seq<char>, i32)>,
    graph: TxGraphView,
)
    requires
        holds_txouts(tables.txout, wallet_name, txouts),
        forall|i: int| 0 <= i < keys.len() ==> tables.txout.contains_key(#[trigger] keys[i]),
    ensures
        txout_rows_parse(tables.txout_rows(keys)),
        with_txout_rows(graph, tables.txout_rows(keys)) == (TxGraphView {
            txouts: graph.txouts.union_prefer_right(
                txouts.restrict(
                    Set::new(|outpoint: OutPoint| keys.contains(txout_key(wallet_name, outpoint))),
                ),
            ),
            ..graph
        }),
    decreases keys.len(),
{
    let rows = tables.txout_rows(keys);
    let read = Set::new(|outpoint: OutPoint| keys.contains(txout_key(wallet_name, outpoint)));
    if keys.len() == 0 {
        assert(graph.txouts.union_prefer_right(txouts.restrict(read)) =~= graph.txouts);
    } else {
        let shorter = keys.drop_last();
        let key = keys.last();
        lemma_txouts_read(tables, wallet_name, txouts, shorter, graph);
        assert(rows.drop_last() =~= tables.txout_rows(shorter));
        assert(tables.txout.contains_key(keys[keys.len() - 1]));
        let outpoint = choose|o: OutPoint| #[trigger]
            txouts.contains_key(o) && key == txout_key(wallet_name, o);
        law_hash_text_round_trip(outpoint.0);
        law_u32_round_trip(outpoint.1, 0);
        law_u64_round_trip(txouts[outpoint].value, 0);
        assert forall|i: int| 0 <= i < rows.len() implies hash_of_text(
            #[trigger] rows[i].txid,
        ) is Some by {
            if i < rows.len() - 1 {
                assert(rows[i] == tables.txout_rows(shorter)[i]);
            }
        }
        let shorter_read = Set::new(
            |outpoint: OutPoint| shorter.contains(txout_key(wallet_name, outpoint)),
        );
        assert forall|o: OutPoint| read.contains(o) <==> (o == outpoint || shorter_read.contains(
            o,
        )) by {
            assert(keys =~= shorter.push(key));
            if keys.contains(txout_key(wallet_name, o)) {
                let i = choose|i: int| 0 <= i < keys.len() && keys[i] == txout_key(wallet_name, o);
                if i < shorter.len() {
                    assert(shorter[i] == txout_key(wallet_name, o));
                } else {
                    lemma_txout_key_injective(wallet_name, o, outpoint);
                }
            }
            if shorter.contains(txout_key(wallet_name, o)) {
                let i = choose|i: int|
                    0 <= i < shorter.len() && shorter[i] == txout_key(wallet_name, o);
                assert(keys[i] == txout_key(wallet_name, o));
            }
            if o == outpoint {
                assert(keys[keys.len() - 1] == txout_key(wallet_name, o));
            }
        }
        let before = graph.txouts.union_prefer_right(txouts.restrict(shorter_read));
        assert(before.insert(outpoint, txouts[outpoint]) =~= graph.txouts.union_prefer_right(
            txouts.restrict(read),
        ));
    }
}

/// The key of an anchor in `anchor_tx`.
pub open spec fn anchor_key(wallet_name: Seq<char>, anchored: AnchoredTx) -> (
    Seq<char>,
    Seq<char>,
    Seq<char>,
) {
    (wallet_name, hash_text(anchored.0.0.1), hash_text(anchored.1))
}

/// Whether two anchors are of the same block and transaction.
pub open spec fn same_place(a: AnchoredTx, b: AnchoredTx) -> bool {
    a.0.0.1 == b.0.0.1 && a.1 == b.1
}

/// Whether an anchor's JSON text stands for that anchor.
pub open spec fn reads_back(anchored: AnchoredTx) -> bool {
    anchor_of_text(anchor_text(anchored.0)) == Some(anchored.0)
}

/// Whether `anchor_tx` holds the wallet's anchors, and nothing else.
pub open spec fn holds_anchors(
    table: Map<(Seq<char>, Seq<char>, Seq<char>), Seq<char>>,
    wallet_name: Seq<char>,
    anchors: Set<AnchoredTx>,
) -> bool {
    &&& forall|a: AnchoredTx| #[trigger]
        anchors.contains(a) ==> reads_back(a) && table.contains_key(anchor_key(wallet_name, a))
            && table[anchor_key(wallet_name, a)] == anchor_text(a.0)
    &&& forall|key: (Seq<char>, Seq<char>, Seq<char>)| #[trigger]
        table.contains_key(key) ==> exists|a: AnchoredTx| #[trigger]
            anchors.contains(a) && key == anchor_key(wallet_name, a)
}

/// The anchors of `before`, with those of `added` in the place of others of the same block and
/// transaction.
pub open spec fn anchors_with(before: Set<AnchoredTx>, added: Set<AnchoredTx>) -> Set<AnchoredTx> {
    Set::new(
        |a: AnchoredTx|
            added.contains(a) || (before.contains(a) && forall|b: AnchoredTx| #[trigger]
                added.contains(b) ==> !same_place(b, a)),
    )
}

/// Whether no two anchors are of the same block and transaction.
pub open spec fn one_anchor_per_place(anchors: Set<AnchoredTx>) -> bool {
    forall|a: AnchoredTx, b: AnchoredTx| #[trigger]
        anchors.contains(a) && #[trigger] anchors.contains(b) && same_place(a, b) ==> a == b
}

/// Anchors of different blocks or transactions have different keys.
proof fn lemma_anchor_key_injective(wallet_name: Seq<char>, a: AnchoredTx, b: AnchoredTx)
    requires
        anchor_key(wallet_name, a) == anchor_key(wallet_name, b),
    ensures
        same_place(a, b),
{
    law_hash_text_injective(a.0.0.1, b.0.0.1);
    law_hash_text_injective(a.1, b.1);
}

/// What `anchor_tx` holds after the statements for some anchors.
pub(crate) proof fn lemma_anchors_written(
    tables: Tables,
    wallet_name: Seq<char>,
    before: Set<AnchoredTx>,
    order: Seq<AnchoredTx>,
)
    requires
        holds_anchors(tables.anchor_tx, wallet_name, before),
        one_anchor_per_place(order.to_set()),
        order.no_duplicates(),
        forall|i: int| 0 <= i < order.len() ==> reads_back(#[trigger] order[i]),
    ensures
        ({
            let statements = order.map_values(|a: AnchoredTx| anchor_statement(wallet_name, a));
            tables.apply_all(statements) matches Some(after) && after == (Tables {
                anchor_tx: after.anchor_tx,
                ..tables
            }) && holds_anchors(
                after.anchor_tx,
                wallet_name,
                anchors_with(before, order.to_set()),
            )
        }),
    decreases order.len(),
{
    let f = |a: AnchoredTx| anchor_statement(wallet_name, a);
    let statements = order.map_values(f);
    if order.len() == 0 {
        assert(anchors_with(before, order.to_set()) =~= before);
    } else {
        let shorter = order.drop_last();
        let last = order.last();
        assert(order =~= shorter.push(last));
        lemma_push_to_set(shorter, last);
        assert(one_anchor_per_place(shorter.to_set())) by {
            assert forall|a: AnchoredTx, b: AnchoredTx| #[trigger]
                shorter.to_set().contains(a) && #[trigger] shorter.to_set().contains(b)
                    && same_place(a, b) implies a == b by {
                assert(order.to_set().contains(a) && order.to_set().contains(b));
            }
        }
        assert forall|i: int| 0 <= i < shorter.len() implies reads_back(#[trigger] shorter[i]) by {
            assert(order[i] == shorter[i]);
        }
        lemma_anchors_written(tables, wallet_name, before, shorter);
        assert(statements.drop_last() =~= shorter.map_values(f));
        let between = tables.apply_all(shorter.map_values(f))->0;
        let held = anchors_with(before, shorter.to_set());
        let table = between.anchor_tx;
        let key = anchor_key(wallet_name, last);
        let table2 = table.insert(key, anchor_text(last.0));
        let held2 = anchors_with(before, order.to_set());
        assert(reads_back(order[order.len() - 1]));
        assert(order.to_set().contains(last));
        assert forall|a: AnchoredTx| #[trigger] held2.contains(a) implies reads_back(a)
            && table2.contains_key(anchor_key(wallet_name, a)) && table2[anchor_key(
            wallet_name,
            a,
        )] == anchor_text(a.0) by {
            if a != last {
                assert(!same_place(last, a));
                assert(held.contains(a)) by {
                    if !shorter.to_set().contains(a) {
                        assert forall|b: AnchoredTx| #[trigger]
                            shorter.to_set().contains(b) implies !same_place(b, a) by {
                            assert(order.to_set().contains(b));
                        }
                    }
                }
                if anchor_key(wallet_name, a) == key {
                    lemma_anchor_key_injective(wallet_name, last, a);
                }
            }
        }
        assert forall|k: (Seq<char>, Seq<char>, Seq<char>)| #[trigger]
            table2.contains_key(k) implies exists|a: AnchoredTx| #[trigger]
            held2.contains(a) && k == anchor_key(wallet_name, a) by {
            if k == key {
                assert(held2.contains(last));
            } else {
                assert(table.contains_key(k));
                let a = choose|a: AnchoredTx| #[trigger]
                    held.contains(a) && k == anchor_key(wallet_name, a);
                assert(held2.contains(a)) by {
                    if !order.to_set().contains(a) {
                        assert forall|b: AnchoredTx| #[trigger]
                            order.to_set().contains(b) implies !same_place(b, a) by {
                            if b == last {
                                assert(anchor_key(wallet_name, a) != key);
                            } else {
                                assert(shorter.to_set().contains(b));
                            }
                        }
                    }
                }
            }
        }
    }
}

/// What is read of some rows of `anchor_tx`.
pub(crate) proof fn lemma_anchors_read(
    tables: Tables,
    wallet_name: Seq<char>,
    anchors: Set<AnchoredTx>,
    keys: Seq<(Seq<char>, Seq<char>, Seq<char>)>,
    graph: TxGraphView,
)
    requires
        holds_anchors(tables.anchor_tx, wallet_name, anchors),
        forall|i: int| 0 <= i < keys.len() ==> tables.anchor_tx.contains_key(#[trigger] keys[i]),
    ensures
        anchor_rows_parse(tables.anchor_rows(keys)),
        with_anchor_rows(graph, tables.anchor_rows(keys)) == (TxGraphView {
            anchors: graph.anchors.union(
                anchors.filter(|a: AnchoredTx| keys.contains(anchor_key(wallet_name, a))),
            ),
            ..graph
        }),
    decreases keys.len(),
{
    let rows = tables.anchor_rows(keys);
    let read = anchors.filter(|a: AnchoredTx| keys.contains(anchor_key(wallet_name, a)));
    if keys.len() == 0 {
        assert(graph.anchors.union(read) =~= graph.anchors);
    } else {
        let shorter = keys.drop_last();
        let key = keys.last();
        lemma_anchors_read(tables, wallet_name, anchors, shorter, graph);
        assert(rows.drop_last() =~= tables.anchor_rows(shorter));
        assert(tables.anchor_tx.contains_key(keys[keys.len() - 1]));
        let x = choose|a: AnchoredTx| #[trigger]
            anchors.contains(a) && key == anchor_key(wallet_name, a);
        law_hash_text_round_trip(x.1);
        assert(reads_back(x));
        assert forall|i: int| 0 <= i < rows.len() implies hash_of_text(
            #[trigger] rows[i].txid,
        ) is Some by {
            if i < rows.len() - 1 {
                assert(rows[i] == tables.anchor_rows(shorter)[i]);
            }
        }
        let shorter_read = anchors.filter(
            |a: AnchoredTx| shorter.contains(anchor_key(wallet_name, a)),
        );
        assert forall|a: AnchoredTx| read.contains(a) <==> (a == x || shorter_read.contains(
            a,
        )) by {
            assert(keys =~= shorter.push(key));
            if anchors.contains(a) && keys.contains(anchor_key(wallet_name, a)) {
                let i = choose|i: int| 0 <= i < keys.len() && keys[i] == anchor_key(wallet_name, a);
                if i < shorter.len() {
                    assert(shorter[i] == anchor_key(wallet_name, a));
                } else {
                    assert(anchor_text(a.0) == anchor_text(x.0));
                    lemma_anchor_key_injective(wallet_name, a, x);
                    assert(reads_back(a));
                }
            }
            if shorter.contains(anchor_key(wallet_name, a)) {
                let i = choose|i: int|
                    0 <= i < shorter.len() && shorter[i] == anchor_key(wallet_name, a);
                assert(keys[i] == anchor_key(wallet_name, a));
            }
            if a == x {
                assert(keys[keys.len() - 1] == anchor_key(wallet_name, a));
            }
        }
        assert(graph.anchors.union(shorter_read).insert(x) =~= graph.anchors.union(read));
    }
}

/// The key of a transaction in `tx`.
pub open spec fn tx_key(wallet_name: Seq<char>, txid: Txid) -> (Seq<char>, Seq<char>) {
    (wallet_name, hash_text(txid))
}

/// Whether some transaction has the given id.
pub open spec fn has_id(txs: Set<Transaction<Seq<u8>>>, txid: Txid) -> bool {
    exists|tx: Transaction<Seq<u8>>| #[trigger] txs.contains(tx) && tx.txid == txid
}

/// What `tx` holds of when a transaction was last seen.
pub open spec fn last_seen_record(last_seen: Map<Txid, u64>, txid: Txid) -> Option<i64> {
    if last_seen.contains_key(txid) {
        Some(signed64(last_seen[txid]))
    } else {
        None
    }
}

/// Whether `tx` holds the wallet's transactions and when they were last seen, and nothing else.
pub open spec fn holds_txs(
    table: Map<(Seq<char>, Seq<char>), TxRecord>,
    wallet_name: Seq<char>,
    txs: Set<Transaction<Seq<u8>>>,
    last_seen: Map<Txid, u64>,
) -> bool {
    &&& forall|tx: Transaction<Seq<u8>>| #[trigger]
        txs.contains(tx) ==> tx.valid() && table.contains_key(tx_key(wallet_name, tx.txid))
            && table[tx_key(wallet_name, tx.txid)] == (TxRecord {
            whole_tx: Some(tx.bytes),
            last_seen: last_seen_record(last_seen, tx.txid),
        })
    &&& forall|key: (Seq<char>, Seq<char>)| #[trigger]
        table.contains_key(key) ==> exists|tx: Transaction<Seq<u8>>| #[trigger]
            txs.contains(tx) && key == tx_key(wallet_name, tx.txid)
    &&& forall|txid: Txid| #[trigger] last_seen.contains_key(txid) ==> has_id(txs, txid)
}

/// The transactions of `before`, with those of `added` in the place of others of the same id.
pub open spec fn txs_with(
    before: Set<Transaction<Seq<u8>>>,
    added: Set<Transaction<Seq<u8>>>,
) -> Set<Transaction<Seq<u8>>> {
    Set::new(
        |tx: Transaction<Seq<u8>>|
            added.contains(tx) || (before.contains(tx) && !has_id(added, tx.txid)),
    )
}

/// Whether no two transactions have the same id.
pub open spec fn one_tx_per_id(txs: Set<Transaction<Seq<u8>>>) -> bool {
    forall|a: Transaction<Seq<u8>>, b: Transaction<Seq<u8>>| #[trigger]
        txs.contains(a) && #[trigger] txs.contains(b) && a.txid == b.txid ==> a == b
}

/// What `tx` holds after the statements for some transactions.
pub(crate) proof fn lemma_txs_written(
    tables: Tables,
    wallet_name: Seq<char>,
    before: Set<Transaction<Seq<u8>>>,
    last_seen: Map<Txid, u64>,
    txs: Seq<Transaction<Seq<u8>>>,
)
    requires
        holds_txs(tables.tx, wallet_name, before, last_seen),
        one_tx_per_id(txs.to_set()),
        txs.no_duplicates(),
        forall|i: int| 0 <= i < txs.len() ==> (#[trigger] txs[i]).valid(),
    ensures
        tables.apply_all(tx_statements(wallet_name, txs)) matches Some(after) && after == (Tables {
            tx: after.tx,
            ..tables
        }) && holds_txs(after.tx, wallet_name, txs_with(before, txs.to_set()), last_seen),
    decreases txs.len(),
{
    let statements = tx_statements(wallet_name, txs);
    if txs.len() == 0 {
        assert(txs_with(before, txs.to_set()) =~= before);
    } else {
        let shorter = txs.drop_last();
        let last = txs.last();
        assert(txs =~= shorter.push(last));
        lemma_push_to_set(shorter, last);
        assert(one_tx_per_id(shorter.to_set())) by {
            assert forall|a: Transaction<Seq<u8>>, b: Transaction<Seq<u8>>| #[trigger]
                shorter.to_set().contains(a) && #[trigger] shorter.to_set().contains(b) && a.txid
                    == b.txid implies a == b by {
                assert(txs.to_set().contains(a) && txs.to_set().contains(b));
            }
        }
        assert forall|i: int| 0 <= i < shorter.len() implies (#[trigger] shorter[i]).valid() by {
            assert(txs[i] == shorter[i]);
        }
        lemma_txs_written(tables, wallet_name, before, last_seen, shorter);
        assert(statements.drop_last() =~= tx_statements(wallet_name, shorter));
        let between = tables.apply_all(tx_statements(wallet_name, shorter))->0;
        let after = tables.apply_all(statements)->0;
        let held = txs_with(before, shorter.to_set());
        let held2 = txs_with(before, txs.to_set());
        let key = tx_key(wallet_name, last.txid);
        assert(txs[txs.len() - 1].valid());
        assert(txs.to_set().contains(last));
        assert(after.tx == between.tx.insert(key, after.tx[key]));
        assert(after.tx[key].last_seen == last_seen_record(last_seen, last.txid)) by {
            if between.tx.contains_key(key) {
                let tx = choose|tx: Transaction<Seq<u8>>| #[trigger]
                    held.contains(tx) && key == tx_key(wallet_name, tx.txid);
                law_hash_text_injective(tx.txid, last.txid);
            } else if last_seen.contains_key(last.txid) {
                assert(has_id(held, last.txid));
            }
        }
        assert forall|tx: Transaction<Seq<u8>>| #[trigger] held2.contains(tx) implies tx.valid()
            && after.tx.contains_key(tx_key(wallet_name, tx.txid)) && after.tx[tx_key(
            wallet_name,
            tx.txid,
        )] == (TxRecord {
            whole_tx: Some(tx.bytes),
            last_seen: last_seen_record(last_seen, tx.txid),
        }) by {
            if tx != last {
                assert(tx.txid != last.txid) by {
                    if !txs.to_set().contains(tx) && tx.txid == last.txid {
                        assert(has_id(txs.to_set(), tx.txid));
                    }
                }
                assert(held.contains(tx)) by {
                    if !shorter.to_set().contains(tx) && has_id(shorter.to_set(), tx.txid) {
                        let other = choose|other: Transaction<Seq<u8>>| #[trigger]
                            shorter.to_set().contains(other) && other.txid == tx.txid;
                        assert(txs.to_set().contains(other));
                        assert(has_id(txs.to_set(), tx.txid));
                    }
                }
                if tx_key(wallet_name, tx.txid) == key {
                    law_hash_text_injective(tx.txid, last.txid);
                }
            }
        }
        assert forall|k: (Seq<char>, Seq<char>)| #[trigger]
            after.tx.contains_key(k) implies exists|tx: Transaction<Seq<u8>>| #[trigger]
            held2.contains(tx) && k == tx_key(wallet_name, tx.txid) by {
            if k == key {
                assert(held2.contains(last));
            } else {
                let tx = choose|tx: Transaction<Seq<u8>>| #[trigger]
                    held.contains(tx) && k == tx_key(wallet_name, tx.txid);
                lemma_kept_tx(before, shorter, last, tx);
            }
        }
        assert forall|txid: Txid| #[trigger] last_seen.contains_key(txid) implies has_id(
            held2,
            txid,
        ) by {
            assert(has_id(held, txid));
            if txid == last.txid {
                assert(held2.contains(last));
            } else {
                let tx = choose|tx: Transaction<Seq<u8>>| #[trigger]
                    held.contains(tx) && tx.txid == txid;
                lemma_kept_tx(before, shorter, last, tx);
            }
        }
    }
}

/// A transaction stays when one with another id is added.
proof fn lemma_kept_tx(
    before: Set<Transaction<Seq<u8>>>,
    txs: Seq<Transaction<Seq<u8>>>,
    last: Transaction<Seq<u8>>,
    tx: Transaction<Seq<u8>>,
)
    requires
        txs_with(before, txs.to_set()).contains(tx),
        tx.txid != last.txid,
    ensures
        txs_with(before, txs.push(last).to_set()).contains(tx),
{
    lemma_push_to_set(txs, last);
    let added = txs.push(last).to_set();
    if !added.contains(tx) && has_id(added, tx.txid) {
        let other = choose|other: Transaction<Seq<u8>>| #[trigger]
            added.contains(other) && other.txid == tx.txid;
        assert(txs.to_set().contains(other));
    }
}

/// The ids of transactions.
pub open spec fn ids(txs: Set<Transaction<Seq<u8>>>) -> Set<Txid> {
    Set::new(|txid: Txid| has_id(txs, txid))
}

/// What `tx` holds after the statements on when some transactions were last seen.
pub(crate) proof fn lemma_last_seen_written(
    tables: Tables,
    wallet_name: Seq<char>,
    txs: Set<Transaction<Seq<u8>>>,
    before: Map<Txid, u64>,
    last_seen: Map<Txid, u64>,
    order: Seq<Txid>,
)
    requires
        holds_txs(tables.tx, wallet_name, txs, before),
        forall|i: int| 0 <= i < order.len() ==> last_seen.contains_key(#[trigger] order[i]),
    ensures
        ({
            let statements = order.map_values(
                |txid: Txid| last_seen_statement(wallet_name, txid, last_seen[txid]),
            );
            tables.apply_all(statements) matches Some(after) && after == (Tables {
                tx: after.tx,
                ..tables
            }) && holds_txs(
                after.tx,
                wallet_name,
                txs,
                before.union_prefer_right(
                    last_seen.restrict(order.to_set()).restrict(ids(txs)),
                ),
            )
        }),
    decreases order.len(),
{
    let f = |txid: Txid| last_seen_statement(wallet_name, txid, last_seen[txid]);
    let statements = order.map_values(f);
    let held2 = before.union_prefer_right(last_seen.restrict(order.to_set()).restrict(ids(txs)));
    if order.len() == 0 {
        assert(held2 =~= before);
    } else {
        let shorter = order.drop_last();
        let last = order.last();
        assert(order =~= shorter.push(last));
        lemma_push_to_set(shorter, last);
        lemma_last_seen_written(tables, wallet_name, txs, before, last_seen, shorter);
        assert(statements.drop_last() =~= shorter.map_values(f));
        assert(last_seen.contains_key(order[order.len() - 1]));
        let between = tables.apply_all(shorter.map_values(f))->0;
        let after = tables.apply_all(statements)->0;
        let held = before.union_prefer_right(
            last_seen.restrict(shorter.to_set()).restrict(ids(txs)),
        );
        let key = tx_key(wallet_name, last);
        if has_id(txs, last) {
            let tx = choose|tx: Transaction<Seq<u8>>| #[trigger]
                txs.contains(tx) && tx.txid == last;
            assert(between.tx.contains_key(key));
            assert(held2 =~= held.insert(last, last_seen[last]));
            assert forall|tx: Transaction<Seq<u8>>| #[trigger] txs.contains(tx) implies tx.valid()
                && after.tx.contains_key(tx_key(wallet_name, tx.txid)) && after.tx[tx_key(
                wallet_name,
                tx.txid,
            )] == (TxRecord {
                whole_tx: Some(tx.bytes),
                last_seen: last_seen_record(held2, tx.txid),
            }) by {
                if tx.txid != last && tx_key(wallet_name, tx.txid) == key {
                    law_hash_text_injective(tx.txid, last);
                }
            }
        } else {
            assert(held2 =~= held);
            if between.tx.contains_key(key) {
                let tx = choose|tx: Transaction<Seq<u8>>| #[trigger]
                    txs.contains(tx) && key == tx_key(wallet_name, tx.txid);
                law_hash_text_injective(tx.txid, last);
            }
        }
    }
}

/// What is read of some rows of `tx`.
pub(crate) proof fn lemma_txs_read(
    tables: Tables,
    wallet_name: Seq<char>,
    txs: Set<Transaction<Seq<u8>>>,
    last_seen: Map<Txid, u64>,
    keys: Seq<(Seq<char>, Seq<char>)>,
    graph: TxGraphView,
)
    requires
        holds_txs(tables.tx, wallet_name, txs, last_seen),
        forall|i: int| 0 <= i < keys.len() ==> tables.tx.contains_key(#[trigger] keys[i]),
    ensures
        tx_rows_parse(tables.tx_rows(keys)),
        with_tx_rows(graph, tables.tx_rows(keys)) == (TxGraphView {
            txs: graph.txs.union(
                txs.filter(
                    |tx: Transaction<Seq<u8>>| keys.contains(tx_key(wallet_name, tx.txid)),
                ),
            ),
            last_seen: graph.last_seen.union_prefer_right(
                last_seen.restrict(Set::new(|txid: Txid| keys.contains(tx_key(wallet_name, txid)))),
            ),
            ..graph
        }),
    decreases keys.len(),
{
    let rows = tables.tx_rows(keys);
    let read = txs.filter(|tx: Transaction<Seq<u8>>| keys.contains(tx_key(wallet_name, tx.txid)));
    let seen = Set::new(|txid: Txid| keys.contains(tx_key(wallet_name, txid)));
    if keys.len() == 0 {
        assert(graph.txs.union(read) =~= graph.txs);
        assert(graph.last_seen.union_prefer_right(last_seen.restrict(seen)) =~= graph.last_seen);
    } else {
        let shorter = keys.drop_last();
        let key = keys.last();
        lemma_txs_read(tables, wallet_name, txs, last_seen, shorter, graph);
        assert(rows.drop_last() =~= tables.tx_rows(shorter));
        assert(tables.tx.contains_key(keys[keys.len() - 1]));
        let x = choose|tx: Transaction<Seq<u8>>| #[trigger]
            txs.contains(tx) && key == tx_key(wallet_name, tx.txid);
        law_hash_text_round_trip(x.txid);
        assert(x.valid());
        assert forall|i: int| 0 <= i < rows.len() implies hash_of_text(
            #[trigger] rows[i].txid,
        ) is Some by {
            if i < rows.len() - 1 {
                assert(rows[i] == tables.tx_rows(shorter)[i]);
            }
        }
        let shorter_read = txs.filter(
            |tx: Transaction<Seq<u8>>| shorter.contains(tx_key(wallet_name, tx.txid)),
        );
        let shorter_seen = Set::new(|txid: Txid| shorter.contains(tx_key(wallet_name, txid)));
        assert forall|txid: Txid| seen.contains(txid) <==> (txid == x.txid
            || shorter_seen.contains(txid)) by {
            assert(keys =~= shorter.push(key));
            if keys.contains(tx_key(wallet_name, txid)) {
                let i = choose|i: int| 0 <= i < keys.len() && keys[i] == tx_key(wallet_name, txid);
                if i < shorter.len() {
                    assert(shorter[i] == tx_key(wallet_name, txid));
                } else {
                    law_hash_text_injective(txid, x.txid);
                }
            }
            if shorter.contains(tx_key(wallet_name, txid)) {
                let i = choose|i: int|
                    0 <= i < shorter.len() && shorter[i] == tx_key(wallet_name, txid);
                assert(keys[i] == tx_key(wallet_name, txid));
            }
            if txid == x.txid {
                assert(keys[keys.len() - 1] == tx_key(wallet_name, txid));
            }
        }
        assert forall|tx: Transaction<Seq<u8>>| read.contains(tx) <==> (tx == x
            || shorter_read.contains(tx)) by {
            assert(seen.contains(tx.txid) <==> (tx.txid == x.txid || shorter_seen.contains(
                tx.txid,
            )));
        }
        let before = graph.last_seen.union_prefer_right(last_seen.restrict(shorter_seen));
        let after = graph.last_seen.union_prefer_right(last_seen.restrict(seen));
        if last_seen.contains_key(x.txid) {
            law_u64_round_trip(last_seen[x.txid], 0);
            assert(before.insert(x.txid, last_seen[x.txid]) =~= after);
        } else {
            assert(before =~= after);
        }
        assert(graph.txs.union(shorter_read).insert(x) =~= graph.txs.union(read));
    }
}

/// The key of a block in `block`.
pub open spec fn block_key(wallet_name: Seq<char>, hash: BlockHash) -> (Seq<char>, Seq<char>) {
    (wallet_name, hash_text(hash))
}

/// Whether `block` holds the wallet's blocks, and nothing else.
pub open spec fn holds_blocks(
    table: Map<(Seq<char>, Seq<char>), i32>,
    wallet_name: Seq<char>,
    blocks: Map<u32, Option<BlockHash>>,
) -> bool {
    &&& forall|height: u32| #[trigger]
        blocks.contains_key(height) ==> (blocks[height] matches Some(hash) && table.contains_key(
            block_key(wallet_name, hash),
        ) && table[block_key(wallet_name, hash)] == signed32(height))
    &&& forall|key: (Seq<char>, Seq<char>)| #[trigger]
        table.contains_key(key) ==> exists|height: u32| #[trigger]
            blocks.contains_key(height) && key == block_key(wallet_name, blocks[height]->0)
}

/// Whether a block is added at some height of `heights`.
pub open spec fn is_added(
    added: Map<u32, Option<BlockHash>>,
    heights: Set<u32>,
    hash: BlockHash,
) -> bool {
    exists|height: u32| #[trigger]
        added.contains_key(height) && heights.contains(height) && added[height] == Some(hash)
}

/// The blocks of `before`, without those that `added` removes or moves to another height, and with
/// those that it adds.
pub open spec fn blocks_with(
    before: Map<u32, Option<BlockHash>>,
    added: Map<u32, Option<BlockHash>>,
) -> Map<u32, Option<BlockHash>> {
    Map::new(
        |height: u32|
            if added.contains_key(height) {
                added[height] is Some
            } else {
                before.contains_key(height) && !is_added(added, added.dom(), before[height]->0)
            },
        |height: u32|
            if added.contains_key(height) {
                added[height]
            } else {
                before[height]
            },
    )
}

/// Whether no block is added at two heights.
pub open spec fn one_height_per_block(added: Map<u32, Option<BlockHash>>) -> bool {
    forall|m: u32, n: u32| #[trigger]
        added.contains_key(m) && #[trigger] added.contains_key(n) && added[m] is Some && added[m]
            == added[n] ==> m == n
}

/// Whether no block is added at two heights, nor at the height of another block that stays there.
pub open spec fn blocks_fit(
    before: Map<u32, Option<BlockHash>>,
    added: Map<u32, Option<BlockHash>>,
) -> bool {
    &&& one_height_per_block(added)
    &&& forall|height: u32| #[trigger]
        added.contains_key(height) && added[height] is Some && before.contains_key(height)
            && before[height] != added[height] ==> is_added(
            added,
            added.dom(),
            before[height]->0,
        )
}

/// Whether the block at a height is removed, and that height is one of `heights`.
pub open spec fn is_removed(
    added: Map<u32, Option<BlockHash>>,
    heights: Set<u32>,
    height: u32,
) -> bool {
    added.contains_key(height) && heights.contains(height) && added[height] is None
}

/// What `block` holds when the statements for the heights of `heights` have been executed.
spec fn holds_blocks_up_to(
    table: Map<(Seq<char>, Seq<char>), i32>,
    wallet_name: Seq<char>,
    before: Map<u32, Option<BlockHash>>,
    added: Map<u32, Option<BlockHash>>,
    heights: Set<u32>,
) -> bool {
    &&& forall|height: u32| #[trigger]
        added.contains_key(height) && heights.contains(height) && added[height] is Some
            ==> table.contains_key(block_key(wallet_name, added[height]->0)) && table[block_key(
            wallet_name,
            added[height]->0,
        )] == signed32(height)
    &&& forall|height: u32| #[trigger]
        before.contains_key(height) && !is_added(added, heights, before[height]->0) ==> {
            let key = block_key(wallet_name, before[height]->0);
            &&& table.contains_key(key) <==> !is_removed(added, heights, height)
            &&& table.contains_key(key) ==> table[key] == signed32(height)
        }
    &&& forall|key: (Seq<char>, Seq<char>)| #[trigger]
        table.contains_key(key) ==> ({
            ||| exists|height: u32| #[trigger]
                added.contains_key(height) && heights.contains(height) && added[height] is Some
                    && key == block_key(wallet_name, added[height]->0)
            ||| exists|height: u32| #[trigger]
                before.contains_key(height) && key == block_key(wallet_name, before[height]->0)
        })
}

/// One height more.
proof fn lemma_block_written(
    tables: Tables,
    wallet_name: Seq<char>,
    before: Map<u32, Option<BlockHash>>,
    added: Map<u32, Option<BlockHash>>,
    heights: Set<u32>,
    next: u32,
)
    requires
        holds_blocks_up_to(tables.block, wallet_name, before, added, heights),
        one_height_per_block(added),
        forall|height: u32| #[trigger] before.contains_key(height) ==> before[height] is Some,
        added.contains_key(next),
        !heights.contains(next),
    ensures
        tables.apply(block_statement(wallet_name, next, added[next])) matches Some(after) && after
            == (Tables { block: after.block, ..tables }) && holds_blocks_up_to(
            after.block,
            wallet_name,
            before,
            added,
            heights.insert(next),
        ),
{
    let after = tables.apply(block_statement(wallet_name, next, added[next]))->0;
    let table = tables.block;
    let table2 = after.block;
    let heights2 = heights.insert(next);
    assert forall|height: u32| #[trigger]
        added.contains_key(height) && heights2.contains(height) && added[height]
            is Some implies table2.contains_key(block_key(wallet_name, added[height]->0))
        && table2[block_key(wallet_name, added[height]->0)] == signed32(height) by {
        if height != next {
            let key = block_key(wallet_name, added[height]->0);
            assert(table.contains_key(key) && table[key] == signed32(height));
            if let Some(hash) = added[next] {
                if block_key(wallet_name, hash) == key {
                    law_hash_text_injective(hash, added[height]->0);
                }
            } else {
                law_u32_round_trip(height, 0);
                law_u32_round_trip(next, 0);
            }
        }
    }
    assert forall|height: u32| #[trigger]
        before.contains_key(height) && !is_added(added, heights2, before[height]->0) implies ({
        let key = block_key(wallet_name, before[height]->0);
        &&& table2.contains_key(key) <==> !is_removed(added, heights2, height)
        &&& table2.contains_key(key) ==> table2[key] == signed32(height)
    }) by {
        let key = block_key(wallet_name, before[height]->0);
        assert(!is_added(added, heights, before[height]->0));
        if let Some(hash) = added[next] {
            if block_key(wallet_name, hash) == key {
                law_hash_text_injective(hash, before[height]->0);
                assert(is_added(added, heights2, before[height]->0));
            }
        } else {
            law_u32_round_trip(height, 0);
            law_u32_round_trip(next, 0);
        }
    }
    assert forall|key: (Seq<char>, Seq<char>)| #[trigger] table2.contains_key(key) implies ({
        ||| exists|height: u32| #[trigger]
            added.contains_key(height) && heights2.contains(height) && added[height] is Some && key
                == block_key(wallet_name, added[height]->0)
        ||| exists|height: u32| #[trigger]
            before.contains_key(height) && key == block_key(wallet_name, before[height]->0)
    }) by {
        if added[next] is Some && key == block_key(wallet_name, added[next]->0) {
            assert(added.contains_key(next) && heights2.contains(next));
        } else {
            assert(table.contains_key(key));
            if exists|height: u32| #[trigger]
                added.contains_key(height) && heights.contains(height) && added[height] is Some
                    && key == block_key(wallet_name, added[height]->0) {
                let height = choose|height: u32| #[trigger]
                    added.contains_key(height) && heights.contains(height) && added[height] is Some
                        && key == block_key(wallet_name, added[height]->0);
                assert(added.contains_key(height) && heights2.contains(height));
            }
        }
    }
}

/// What `block` holds after the statements for some heights.
proof fn lemma_some_blocks_written(
    tables: Tables,
    wallet_name: Seq<char>,
    before: Map<u32, Option<BlockHash>>,
    added: Map<u32, Option<BlockHash>>,
    order: Seq<u32>,
)
    requires
        holds_blocks(tables.block, wallet_name, before),
        one_height_per_block(added),
        order.no_duplicates(),
        forall|i: int| 0 <= i < order.len() ==> added.contains_key(#[trigger] order[i]),
    ensures
        ({
            let statements = order.map_values(
                |height: u32| block_statement(wallet_name, height, added[height]),
            );
            tables.apply_all(statements) matches Some(after) && after == (Tables {
                block: after.block,
                ..tables
            }) && holds_blocks_up_to(after.block, wallet_name, before, added, order.to_set())
        }),
    decreases order.len(),
{
    let f = |height: u32| block_statement(wallet_name, height, added[height]);
    let statements = order.map_values(f);
    if order.len() > 0 {
        let shorter = order.drop_last();
        let last = order.last();
        assert(order =~= shorter.push(last));
        lemma_push_to_set(shorter, last);
        assert forall|i: int| 0 <= i < shorter.len() implies added.contains_key(
            #[trigger] shorter[i],
        ) by {
            assert(order[i] == shorter[i]);
        }
        lemma_some_blocks_written(tables, wallet_name, before, added, shorter);
        assert(statements.drop_last() =~= shorter.map_values(f));
        let between = tables.apply_all(shorter.map_values(f))->0;
        assert(added.contains_key(order[order.len() - 1]));
        assert(!shorter.to_set().contains(last)) by {
            if shorter.to_set().contains(last) {
                let i = choose|i: int| 0 <= i < shorter.len() && shorter[i] == last;
                assert(order[i] == order[order.len() - 1]);
            }
        }
        lemma_block_written(between, wallet_name, before, added, shorter.to_set(), last);
    }
}

/// What `block` holds after the statements for changes to the chain.
pub(crate) proof fn lemma_blocks_written(
    tables: Tables,
    wallet_name: Seq<char>,
    before: Map<u32, Option<BlockHash>>,
    added: Map<u32, Option<BlockHash>>,
)
    requires
        holds_blocks(tables.block, wallet_name, before),
        blocks_fit(before, added),
        added.dom().finite(),
    ensures
        tables.apply_all(local_chain_statements(wallet_name, added)) matches Some(after) && after
            == (Tables { block: after.block, ..tables }) && holds_blocks(
            after.block,
            wallet_name,
            blocks_with(before, added),
        ),
{
    lemma_keys_are_ordered();
    lemma_keys_are_told_apart();
    lemma_key_order_exists(added.dom());
    let order = key_order(added.dom());
    assert forall|i: int| 0 <= i < order.len() implies added.contains_key(
        #[trigger] order[i],
    ) by {
        assert(order.to_set().contains(order[i]));
    }
    lemma_some_blocks_written(tables, wallet_name, before, added, order);
    let after = tables.apply_all(local_chain_statements(wallet_name, added))->0;
    let table = after.block;
    let held = blocks_with(before, added);
    let heights = added.dom();
    assert(holds_blocks_up_to(table, wallet_name, before, added, heights));
    assert forall|height: u32| #[trigger] held.contains_key(height) implies (held[height] matches Some(
        hash,
    ) && table.contains_key(block_key(wallet_name, hash)) && table[block_key(wallet_name, hash)]
        == signed32(height)) by {
        if added.contains_key(height) {
            assert(heights.contains(height));
        } else {
            assert(before.contains_key(height));
            assert(!is_removed(added, heights, height));
        }
    }
    assert forall|key: (Seq<char>, Seq<char>)| #[trigger] table.contains_key(key) implies exists|
        height: u32,
    | #[trigger]
        held.contains_key(height) && key == block_key(wallet_name, held[height]->0) by {
        if exists|height: u32| #[trigger]
            added.contains_key(height) && heights.contains(height) && added[height] is Some && key
                == block_key(wallet_name, added[height]->0) {
            let height = choose|height: u32| #[trigger]
                added.contains_key(height) && heights.contains(height) && added[height] is Some
                    && key == block_key(wallet_name, added[height]->0);
            assert(held.contains_key(height));
        } else {
            let height = choose|height: u32| #[trigger]
                before.contains_key(height) && key == block_key(wallet_name, before[height]->0);
            let hash = before[height]->0;
            if is_added(added, heights, hash) {
                let m = choose|m: u32| #[trigger]
                    added.contains_key(m) && heights.contains(m) && added[m] == Some(hash);
                assert(added.contains_key(m) && key == block_key(wallet_name, added[m]->0));
                assert(false);
            }
            assert(!is_removed(added, heights, height));
            assert(!added.contains_key(height)) by {
                if added.contains_key(height) {
                    assert(added[height] is Some);
                    assert(before[height] != added[height]);
                }
            }
            assert(held.contains_key(height));
        }
    }
}

/// What is read of some rows of `block`.
pub(crate) proof fn lemma_blocks_read(
    tables: Tables,
    wallet_name: Seq<char>,
    blocks: Map<u32, Option<BlockHash>>,
    keys: Seq<(Seq<char>, Seq<char>)>,
)
    requires
        holds_blocks(tables.block, wallet_name, blocks),
        forall|i: int| 0 <= i < keys.len() ==> tables.block.contains_key(#[trigger] keys[i]),
    ensures
        block_rows_parse(tables.block_rows(keys)),
        blocks_of_rows(tables.block_rows(keys)) == blocks.restrict(
            Set::new(|height: u32| keys.contains(block_key(wallet_name, blocks[height]->0))),
        ),
    decreases keys.len(),
{
    let rows = tables.block_rows(keys);
    let read = Set::new(|height: u32| keys.contains(block_key(wallet_name, blocks[height]->0)));
    if keys.len() == 0 {
        assert(blocks.restrict(read) =~= Map::empty());
    } else {
        let shorter = keys.drop_last();
        let key = keys.last();
        lemma_blocks_read(tables, wallet_name, blocks, shorter);
        assert(rows.drop_last() =~= tables.block_rows(shorter));
        assert(tables.block.contains_key(keys[keys.len() - 1]));
        let x = choose|height: u32| #[trigger]
            blocks.contains_key(height) && key == block_key(wallet_name, blocks[height]->0);
        law_hash_text_round_trip(blocks[x]->0);
        law_u32_round_trip(x, 0);
        assert forall|i: int| 0 <= i < rows.len() implies hash_of_text(
            #[trigger] rows[i].hash,
        ) is Some by {
            if i < rows.len() - 1 {
                assert(rows[i] == tables.block_rows(shorter)[i]);
            }
        }
        let shorter_read = Set::new(
            |height: u32| shorter.contains(block_key(wallet_name, blocks[height]->0)),
        );
        assert forall|height: u32| blocks.contains_key(height) implies (read.contains(height)
            <==> (height == x || shorter_read.contains(height))) by {
            let k = block_key(wallet_name, blocks[height]->0);
            assert(keys =~= shorter.push(key));
            if keys.contains(k) {
                let i = choose|i: int| 0 <= i < keys.len() && keys[i] == k;
                if i < shorter.len() {
                    assert(shorter[i] == k);
                } else {
                    law_u32_round_trip(height, 0);
                }
            }
            if shorter.contains(k) {
                let i = choose|i: int| 0 <= i < shorter.len() && shorter[i] == k;
                assert(keys[i] == k);
            }
            if height == x {
                assert(keys[keys.len() - 1] == k);
            }
        }
        assert(blocks.restrict(shorter_read).insert(x, blocks[x]) =~= blocks.restrict(read));
    }
}

} // verus!
