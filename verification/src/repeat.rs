//! What is written twice.

use vstd::prelude::*;

use crate::anchor::{anchor_text, AnchoredTx};
use crate::changeset::{ChangeSetView, TxGraphView};
use crate::hash::{BlockHash, Txid};
use crate::held::{anchor_key, block_key, tx_key, txout_key, txout_record};
use crate::local_chain::{block_statement, local_chain_statements};
use crate::number::{law_u32_round_trip, signed32, signed64};
use crate::order::{
    key_order, lemma_key_order_exists, lemma_keys_are_ordered, lemma_keys_are_told_apart,
};
use crate::store::write_statements;
use crate::tables::{lemma_apply_all_append, Tables, TxRecord};
use crate::transaction::{OutPoint, Transaction, TxOut};
use crate::tx_graph::{
    anchor_statement, anchor_statements, last_seen_statement, last_seen_statements,
    tx_graph_statements, tx_statements, txout_statement, txout_statements,
};

verus! {

/// A table after rows are put into it, one after the other.
spec fn after_puts<K, V>(table: Map<K, V>, rows: Seq<(K, V)>) -> Map<K, V>
    decreases rows.len(),
{
    if rows.len() == 0 {
        table
    } else {
        after_puts(table, rows.drop_last()).insert(rows.last().0, rows.last().1)
    }
}

/// Whether one of the rows has the given key.
spec fn has_key<K, V>(rows: Seq<(K, V)>, key: K) -> bool {
    exists|i: int| 0 <= i < rows.len() && (#[trigger] rows[i]).0 == key
}

/// A key of the shorter list is one of the longer, and the only other is the last.
proof fn lemma_has_key<K, V>(rows: Seq<(K, V)>, key: K)
    requires
        rows.len() > 0,
    ensures
        has_key(rows, key) <==> (key == rows.last().0 || has_key(rows.drop_last(), key)),
{
    let shorter = rows.drop_last();
    if has_key(rows, key) {
        let i = choose|i: int| 0 <= i < rows.len() && (#[trigger] rows[i]).0 == key;
        if i < shorter.len() {
            assert(shorter[i].0 == key);
        }
    }
    if has_key(shorter, key) {
        let i = choose|i: int| 0 <= i < shorter.len() && (#[trigger] shorter[i]).0 == key;
        assert(rows[i].0 == key);
    }
    if key == rows.last().0 {
        assert(rows[rows.len() - 1].0 == key);
    }
}

/// What stands under a key that was put does not depend on the table, and what stands under
/// another is what stood there.
proof fn lemma_after_puts<K, V>(a: Map<K, V>, b: Map<K, V>, rows: Seq<(K, V)>, key: K)
    ensures
        has_key(rows, key) ==> after_puts(a, rows).contains_key(key) && after_puts(
            b,
            rows,
        ).contains_key(key) && after_puts(a, rows)[key] == after_puts(b, rows)[key],
        !has_key(rows, key) ==> after_puts(a, rows).contains_key(key) == a.contains_key(key)
            && after_puts(a, rows)[key] == a[key],
    decreases rows.len(),
{
    if rows.len() > 0 {
        lemma_has_key(rows, key);
        lemma_after_puts(a, b, rows.drop_last(), key);
    }
}

/// Rows that are put a second time change nothing.
proof fn lemma_puts_twice<K, V>(table: Map<K, V>, rows: Seq<(K, V)>)
    ensures
        after_puts(after_puts(table, rows), rows) == after_puts(table, rows),
{
    let once = after_puts(table, rows);
    let twice = after_puts(once, rows);
    assert forall|key: K|
        #![trigger once.dom().contains(key)]
        #![trigger twice.dom().contains(key)]
        once.dom().contains(key) == twice.dom().contains(key) && (once.dom().contains(key)
            ==> once[key] == twice[key]) by {
        lemma_after_puts(once, table, rows, key);
        lemma_after_puts(table, once, rows, key);
    }
    assert(twice =~= once);
}

/// The statements for outputs put rows into `txout`.
proof fn lemma_txouts_are_put(
    tables: Tables,
    wallet_name: Seq<char>,
    txouts: Map<OutPoint, TxOut<Seq<u8>>>,
    order: Seq<OutPoint>,
)
    ensures
        tables.apply_all(
            order.map_values(|o: OutPoint| txout_statement(wallet_name, o, txouts[o])),
        ) == Some(
            Tables {
                txout: after_puts(
                    tables.txout,
                    order.map_values(
                        |o: OutPoint| (txout_key(wallet_name, o), txout_record(txouts[o])),
                    ),
                ),
                ..tables
            },
        ),
    decreases order.len(),
{
    let f = |o: OutPoint| txout_statement(wallet_name, o, txouts[o]);
    let g = |o: OutPoint| (txout_key(wallet_name, o), txout_record(txouts[o]));
    if order.len() > 0 {
        let shorter = order.drop_last();
        lemma_txouts_are_put(tables, wallet_name, txouts, shorter);
        assert(order.map_values(f).drop_last() =~= shorter.map_values(f));
        assert(order.map_values(g).drop_last() =~= shorter.map_values(g));
    }
}

/// The statements for anchors put rows into `anchor_tx`.
proof fn lemma_anchors_are_put(tables: Tables, wallet_name: Seq<char>, order: Seq<AnchoredTx>)
    ensures
        tables.apply_all(order.map_values(|a: AnchoredTx| anchor_statement(wallet_name, a)))
            == Some(
            Tables {
                anchor_tx: after_puts(
                    tables.anchor_tx,
                    order.map_values(
                        |a: AnchoredTx| (anchor_key(wallet_name, a), anchor_text(a.0)),
                    ),
                ),
                ..tables
            },
        ),
    decreases order.len(),
{
    let f = |a: AnchoredTx| anchor_statement(wallet_name, a);
    let g = |a: AnchoredTx| (anchor_key(wallet_name, a), anchor_text(a.0));
    if order.len() > 0 {
        let shorter = order.drop_last();
        lemma_anchors_are_put(tables, wallet_name, shorter);
        assert(order.map_values(f).drop_last() =~= shorter.map_values(f));
        assert(order.map_values(g).drop_last() =~= shorter.map_values(g));
    }
}

/// Whether one of the transactions has the given key.
spec fn has_tx_key(
    wallet_name: Seq<char>,
    txs: Seq<Transaction<Seq<u8>>>,
    key: (Seq<char>, Seq<char>),
) -> bool {
    exists|i: int| 0 <= i < txs.len() && tx_key(wallet_name, (#[trigger] txs[i]).txid) == key
}

/// What the statements for transactions do to two databases: under the key of one of them both
/// then have the same encoding, and the time that was there; under another, what was there.
proof fn lemma_txs_are_put(
    a: Tables,
    b: Tables,
    wallet_name: Seq<char>,
    txs: Seq<Transaction<Seq<u8>>>,
)
    ensures
        ({
            let statements = tx_statements(wallet_name, txs);
            &&& a.apply_all(statements) matches Some(a2) && a2 == (Tables { tx: a2.tx, ..a })
            &&& b.apply_all(statements) matches Some(b2) && b2 == (Tables { tx: b2.tx, ..b })
            &&& forall|key: (Seq<char>, Seq<char>)| #[trigger]
                has_tx_key(wallet_name, txs, key) ==> {
                    let (x, y) = (
                        a.apply_all(statements)->0.tx,
                        b.apply_all(statements)->0.tx,
                    );
                    &&& x.contains_key(key) && y.contains_key(key)
                    &&& x[key].whole_tx == y[key].whole_tx
                    &&& y[key].last_seen == if b.tx.contains_key(key) {
                        b.tx[key].last_seen
                    } else {
                        None
                    }
                }
            &&& forall|key: (Seq<char>, Seq<char>)|
                !(#[trigger] has_tx_key(wallet_name, txs, key)) ==> {
                    let y = b.apply_all(statements)->0.tx;
                    &&& y.contains_key(key) == b.tx.contains_key(key)
                    &&& y.contains_key(key) ==> y[key] == b.tx[key]
                }
        }),
    decreases txs.len(),
{
    let statements = tx_statements(wallet_name, txs);
    if txs.len() > 0 {
        let shorter = txs.drop_last();
        let last = txs.last();
        lemma_txs_are_put(a, b, wallet_name, shorter);
        assert(statements.drop_last() =~= tx_statements(wallet_name, shorter));
        assert forall|key: (Seq<char>, Seq<char>)| #[trigger]
            has_tx_key(wallet_name, txs, key) <==> (key == tx_key(wallet_name, last.txid)
                || has_tx_key(wallet_name, shorter, key)) by {
            if has_tx_key(wallet_name, txs, key) {
                let i = choose|i: int|
                    0 <= i < txs.len() && tx_key(wallet_name, (#[trigger] txs[i]).txid) == key;
                if i < shorter.len() {
                    assert(tx_key(wallet_name, shorter[i].txid) == key);
                }
            }
            if has_tx_key(wallet_name, shorter, key) {
                let i = choose|i: int|
                    0 <= i < shorter.len() && tx_key(wallet_name, (#[trigger] shorter[i]).txid)
                        == key;
                assert(tx_key(wallet_name, txs[i].txid) == key);
            }
            if key == tx_key(wallet_name, last.txid) {
                assert(tx_key(wallet_name, txs[txs.len() - 1].txid) == key);
            }
        }
        let b1 = b.apply_all(tx_statements(wallet_name, shorter))->0;
        let (a2, b2) = (a.apply_all(statements)->0, b.apply_all(statements)->0);
        assert forall|key: (Seq<char>, Seq<char>)| #[trigger]
            has_tx_key(wallet_name, txs, key) implies a2.tx.contains_key(key)
            && b2.tx.contains_key(key) && a2.tx[key].whole_tx == b2.tx[key].whole_tx
            && b2.tx[key].last_seen == if b.tx.contains_key(key) {
            b.tx[key].last_seen
        } else {
            None
        } by {
            if has_tx_key(wallet_name, shorter, key) {
                assert(b1.tx.contains_key(key));
            } else {
                assert(key == tx_key(wallet_name, last.txid));
                assert(b1.tx.contains_key(key) == b.tx.contains_key(key));
            }
            assert(a2.tx.contains_key(key));
            assert(b2.tx.contains_key(key));
            assert(a2.tx[key].whole_tx == b2.tx[key].whole_tx);
            if key == tx_key(wallet_name, last.txid) {
                assert(b2.tx[key].last_seen == if b1.tx.contains_key(key) {
                    b1.tx[key].last_seen
                } else {
                    None
                });
            } else {
                assert(b2.tx[key] == b1.tx[key]);
            }
        }
        assert forall|key: (Seq<char>, Seq<char>)|
            !(#[trigger] has_tx_key(wallet_name, txs, key)) implies b2.tx.contains_key(key)
            == b.tx.contains_key(key) && (b2.tx.contains_key(key) ==> b2.tx[key] == b.tx[key]) by {
            assert(!has_tx_key(wallet_name, shorter, key));
        }
    }
}

/// A table after the times of rows are set that are there, one after the other.
spec fn after_sets(
    table: Map<(Seq<char>, Seq<char>), TxRecord>,
    times: Seq<((Seq<char>, Seq<char>), i64)>,
) -> Map<(Seq<char>, Seq<char>), TxRecord>
    decreases times.len(),
{
    if times.len() == 0 {
        table
    } else {
        let before = after_sets(table, times.drop_last());
        let (key, time) = times.last();
        if before.contains_key(key) {
            before.insert(key, TxRecord { last_seen: Some(time), ..before[key] })
        } else {
            before
        }
    }
}

/// What setting times does to two tables with the same keys.
proof fn lemma_after_sets(
    a: Map<(Seq<char>, Seq<char>), TxRecord>,
    b: Map<(Seq<char>, Seq<char>), TxRecord>,
    times: Seq<((Seq<char>, Seq<char>), i64)>,
    key: (Seq<char>, Seq<char>),
)
    requires
        a.dom() == b.dom(),
    ensures
        after_sets(a, times).dom() == a.dom(),
        after_sets(b, times).dom() == b.dom(),
        a.contains_key(key) ==> after_sets(a, times)[key].whole_tx == a[key].whole_tx,
        a.contains_key(key) && has_key(times, key) ==> after_sets(a, times)[key].last_seen
            == after_sets(b, times)[key].last_seen,
        a.contains_key(key) && !has_key(times, key) ==> after_sets(a, times)[key] == a[key],
    decreases times.len(),
{
    if times.len() > 0 {
        lemma_has_key(times, key);
        lemma_after_sets(a, b, times.drop_last(), key);
        assert(after_sets(a, times).dom() =~= a.dom());
        assert(after_sets(b, times).dom() =~= b.dom());
    }
}

/// The statements on when transactions were last seen set times in `tx`.
proof fn lemma_last_seen_is_set(
    tables: Tables,
    wallet_name: Seq<char>,
    last_seen: Map<Txid, u64>,
    order: Seq<Txid>,
)
    ensures
        tables.apply_all(
            order.map_values(|id: Txid| last_seen_statement(wallet_name, id, last_seen[id])),
        ) == Some(
            Tables {
                tx: after_sets(
                    tables.tx,
                    order.map_values(
                        |id: Txid| (tx_key(wallet_name, id), signed64(last_seen[id])),
                    ),
                ),
                ..tables
            },
        ),
    decreases order.len(),
{
    let f = |id: Txid| last_seen_statement(wallet_name, id, last_seen[id]);
    let g = |id: Txid| (tx_key(wallet_name, id), signed64(last_seen[id]));
    if order.len() > 0 {
        let shorter = order.drop_last();
        lemma_last_seen_is_set(tables, wallet_name, last_seen, shorter);
        assert(order.map_values(f).drop_last() =~= shorter.map_values(f));
        assert(order.map_values(g).drop_last() =~= shorter.map_values(g));
    }
}

/// Transactions and the times when they were last seen, written twice, are as written once.
proof fn lemma_txs_twice(
    tables: Tables,
    wallet_name: Seq<char>,
    txs: Seq<Transaction<Seq<u8>>>,
    last_seen: Map<Txid, u64>,
)
    ensures
        ({
            let statements = tx_statements(wallet_name, txs) + last_seen_statements(
                wallet_name,
                last_seen,
            );
            tables.apply_all(statements) matches Some(after) && after == (Tables {
                tx: after.tx,
                ..tables
            }) && (forall|later: Tables|
                later.tx == after.tx ==> #[trigger] later.apply_all(statements) == Some(later))
        }),
{
    let first = tx_statements(wallet_name, txs);
    let second = last_seen_statements(wallet_name, last_seen);
    let order = key_order(last_seen.dom());
    let times = order.map_values(|id: Txid| (tx_key(wallet_name, id), signed64(last_seen[id])));
    lemma_txs_are_put(tables, tables, wallet_name, txs);
    let between = tables.apply_all(first)->0;
    lemma_last_seen_is_set(between, wallet_name, last_seen, order);
    let after = between.apply_all(second)->0;
    lemma_apply_all_append(tables, first, second);
    assert forall|later: Tables| later.tx == after.tx implies #[trigger] later.apply_all(
        first + second,
    ) == Some(later) by {
        lemma_apply_all_append(later, first, second);
        lemma_txs_are_put(tables, later, wallet_name, txs);
        let again = later.apply_all(first)->0;
        assert(again.tx =~= later.tx) by {
            assert forall|key: (Seq<char>, Seq<char>)|
                #![trigger again.tx.dom().contains(key)]
                #![trigger later.tx.dom().contains(key)]
                again.tx.dom().contains(key) == later.tx.dom().contains(key) && (
                again.tx.dom().contains(key) ==> again.tx[key] == later.tx[key]) by {
                lemma_after_sets(between.tx, between.tx, times, key);
                if has_tx_key(wallet_name, txs, key) {
                    assert(between.tx.contains_key(key));
                    assert(later.tx.dom().contains(key));
                }
            }
        }
        assert(again == later);
        lemma_last_seen_is_set(later, wallet_name, last_seen, order);
        assert(after_sets(later.tx, times) =~= later.tx) by {
            lemma_after_sets(between.tx, between.tx, times, (wallet_name, wallet_name));
            assert(later.tx.dom() == between.tx.dom());
            assert forall|key: (Seq<char>, Seq<char>)| #[trigger]
                later.tx.dom().contains(key) implies after_sets(later.tx, times)[key]
                == later.tx[key] by {
                lemma_after_sets(between.tx, later.tx, times, key);
                lemma_after_sets(later.tx, between.tx, times, key);
            }
            lemma_after_sets(later.tx, between.tx, times, (wallet_name, wallet_name));
        }
    }
}

/// The graph, written twice, is as written once.
proof fn lemma_graph_twice(
    tables: Tables,
    wallet_name: Seq<char>,
    txs: Seq<Transaction<Seq<u8>>>,
    graph: TxGraphView,
)
    ensures
        ({
            let statements = tx_graph_statements(wallet_name, txs, graph);
            tables.apply_all(statements) matches Some(after) && after == (Tables {
                tx: after.tx,
                txout: after.txout,
                anchor_tx: after.anchor_tx,
                ..tables
            }) && after.apply_all(statements) == Some(after)
        }),
{
    let first = tx_statements(wallet_name, txs) + last_seen_statements(
        wallet_name,
        graph.last_seen,
    );
    let second = txout_statements(wallet_name, graph.txouts);
    let third = anchor_statements(wallet_name, graph.anchors);
    lemma_txs_twice(tables, wallet_name, txs, graph.last_seen);
    let after_txs = tables.apply_all(first)->0;
    let outputs = key_order(graph.txouts.dom());
    lemma_txouts_are_put(after_txs, wallet_name, graph.txouts, outputs);
    let after_txouts = after_txs.apply_all(second)->0;
    let anchors = key_order(graph.anchors);
    lemma_anchors_are_put(after_txouts, wallet_name, anchors);
    let after = after_txouts.apply_all(third)->0;
    lemma_apply_all_append(tables, first, second);
    lemma_apply_all_append(tables, first + second, third);

    assert(after.apply_all(first) == Some(after));
    lemma_txouts_are_put(after, wallet_name, graph.txouts, outputs);
    lemma_puts_twice(
        tables.txout,
        outputs.map_values(
            |o: OutPoint| (txout_key(wallet_name, o), txout_record(graph.txouts[o])),
        ),
    );
    lemma_anchors_are_put(after, wallet_name, anchors);
    lemma_puts_twice(
        tables.anchor_tx,
        anchors.map_values(|a: AnchoredTx| (anchor_key(wallet_name, a), anchor_text(a.0))),
    );
    lemma_apply_all_append(after, first, second);
    lemma_apply_all_append(after, first + second, third);
}

/// Whether a statement for one of the heights puts a row under the given key.
spec fn puts_block(
    wallet_name: Seq<char>,
    blocks: Map<u32, Option<BlockHash>>,
    order: Seq<u32>,
    key: (Seq<char>, Seq<char>),
) -> bool {
    exists|i: int|
        0 <= i < order.len() && blocks[#[trigger] order[i]] is Some && key == block_key(
            wallet_name,
            blocks[order[i]]->0,
        )
}

/// Whether a statement for one of the heights deletes the wallet's rows at the given height.
spec fn deletes_at(blocks: Map<u32, Option<BlockHash>>, order: Seq<u32>, height: i32) -> bool {
    exists|i: int|
        0 <= i < order.len() && blocks[#[trigger] order[i]] is None && signed32(order[i]) == height
}

/// What the statements for some heights do to two databases.
proof fn lemma_blocks_are_put(
    a: Tables,
    b: Tables,
    wallet_name: Seq<char>,
    blocks: Map<u32, Option<BlockHash>>,
    order: Seq<u32>,
)
    requires
        order.no_duplicates(),
    ensures
        ({
            let statements = order.map_values(
                |height: u32| block_statement(wallet_name, height, blocks[height]),
            );
            &&& a.apply_all(statements) matches Some(a2) && a2 == (Tables { block: a2.block, ..a })
            &&& b.apply_all(statements) matches Some(b2) && b2 == (Tables { block: b2.block, ..b })
            &&& forall|key: (Seq<char>, Seq<char>)| #[trigger]
                puts_block(wallet_name, blocks, order, key) ==> {
                    let (x, y) = (
                        a.apply_all(statements)->0.block,
                        b.apply_all(statements)->0.block,
                    );
                    &&& x.contains_key(key) && y.contains_key(key) && x[key] == y[key]
                    &&& exists|i: int|
                        0 <= i < order.len() && blocks[#[trigger] order[i]] is Some && x[key]
                            == signed32(order[i])
                }
            &&& forall|key: (Seq<char>, Seq<char>)|
                !(#[trigger] puts_block(wallet_name, blocks, order, key)) ==> {
                    let y = b.apply_all(statements)->0.block;
                    &&& y.contains_key(key) <==> b.block.contains_key(key) && !(key.0 == wallet_name
                        && deletes_at(blocks, order, b.block[key]))
                    &&& y.contains_key(key) ==> y[key] == b.block[key]
                }
        }),
    decreases order.len(),
{
    let f = |height: u32| block_statement(wallet_name, height, blocks[height]);
    let statements = order.map_values(f);
    if order.len() > 0 {
        let shorter = order.drop_last();
        let last = order.last();
        lemma_blocks_are_put(a, b, wallet_name, blocks, shorter);
        assert(statements.drop_last() =~= shorter.map_values(f));
        let (a1, b1) = (a.apply_all(shorter.map_values(f))->0, b.apply_all(shorter.map_values(f))->0);
        let (a2, b2) = (a.apply_all(statements)->0, b.apply_all(statements)->0);
        assert forall|key: (Seq<char>, Seq<char>)| #[trigger]
            puts_block(wallet_name, blocks, order, key) <==> ((blocks[last] is Some && key
                == block_key(wallet_name, blocks[last]->0)) || puts_block(
                wallet_name,
                blocks,
                shorter,
                key,
            )) by {
            if puts_block(wallet_name, blocks, order, key) {
                let i = choose|i: int|
                    0 <= i < order.len() && blocks[#[trigger] order[i]] is Some && key == block_key(
                        wallet_name,
                        blocks[order[i]]->0,
                    );
                if i < shorter.len() {
                    assert(blocks[shorter[i]] is Some);
                }
            }
            if puts_block(wallet_name, blocks, shorter, key) {
                let i = choose|i: int|
                    0 <= i < shorter.len() && blocks[#[trigger] shorter[i]] is Some && key
                        == block_key(wallet_name, blocks[shorter[i]]->0);
                assert(blocks[order[i]] is Some);
            }
            if blocks[last] is Some && key == block_key(wallet_name, blocks[last]->0) {
                assert(blocks[order[order.len() - 1]] is Some);
            }
        }
        assert forall|height: i32| #[trigger]
            deletes_at(blocks, order, height) <==> ((blocks[last] is None && signed32(last)
                == height) || deletes_at(blocks, shorter, height)) by {
            if deletes_at(blocks, order, height) {
                let i = choose|i: int|
                    0 <= i < order.len() && blocks[#[trigger] order[i]] is None && signed32(
                        order[i],
                    ) == height;
                if i < shorter.len() {
                    assert(blocks[shorter[i]] is None);
                }
            }
            if deletes_at(blocks, shorter, height) {
                let i = choose|i: int|
                    0 <= i < shorter.len() && blocks[#[trigger] shorter[i]] is None && signed32(
                        shorter[i],
                    ) == height;
                assert(blocks[order[i]] is None);
            }
            if blocks[last] is None && signed32(last) == height {
                assert(blocks[order[order.len() - 1]] is None);
            }
        }
        assert forall|key: (Seq<char>, Seq<char>)| #[trigger]
            puts_block(wallet_name, blocks, order, key) implies ({
            &&& a2.block.contains_key(key) && b2.block.contains_key(key) && a2.block[key]
                == b2.block[key]
            &&& exists|i: int|
                0 <= i < order.len() && blocks[#[trigger] order[i]] is Some && a2.block[key]
                    == signed32(order[i])
        }) by {
            if blocks[last] is Some && key == block_key(wallet_name, blocks[last]->0) {
                assert(blocks[order[order.len() - 1]] is Some);
            } else {
                let i = choose|i: int|
                    0 <= i < shorter.len() && blocks[#[trigger] shorter[i]] is Some && a1.block[key]
                        == signed32(shorter[i]);
                assert(order[i] == shorter[i]);
                assert(blocks[order[i]] is Some);
                assert(order[i] != order[order.len() - 1]);
                law_u32_round_trip(order[i], 0);
                law_u32_round_trip(last, 0);
            }
        }
    }
}

/// Changes to the chain, written twice, are as written once.
proof fn lemma_chain_twice(
    tables: Tables,
    wallet_name: Seq<char>,
    blocks: Map<u32, Option<BlockHash>>,
)
    requires
        blocks.dom().finite(),
    ensures
        ({
            let statements = local_chain_statements(wallet_name, blocks);
            tables.apply_all(statements) matches Some(after) && after == (Tables {
                block: after.block,
                ..tables
            }) && (forall|later: Tables|
                later.block == after.block ==> #[trigger] later.apply_all(statements) == Some(
                    later,
                ))
        }),
{
    lemma_keys_are_ordered();
    lemma_keys_are_told_apart();
    lemma_key_order_exists(blocks.dom());
    let order = key_order(blocks.dom());
    let statements = local_chain_statements(wallet_name, blocks);
    lemma_blocks_are_put(tables, tables, wallet_name, blocks, order);
    let after = tables.apply_all(statements)->0;
    assert forall|later: Tables| later.block == after.block implies #[trigger] later.apply_all(
        statements,
    ) == Some(later) by {
        lemma_blocks_are_put(tables, later, wallet_name, blocks, order);
        let again = later.apply_all(statements)->0;
        assert(again.block =~= later.block) by {
            assert forall|key: (Seq<char>, Seq<char>)|
                #![trigger again.block.dom().contains(key)]
                #![trigger later.block.dom().contains(key)]
                again.block.dom().contains(key) == later.block.dom().contains(key) && (
                again.block.dom().contains(key) ==> again.block[key] == later.block[key]) by {
                if puts_block(wallet_name, blocks, order, key) {
                    assert(again.block.contains_key(key) && after.block.contains_key(key));
                    assert(again.block[key] == after.block[key]);
                } else {
                    assert(after.block.contains_key(key) ==> after.block[key]
                        == tables.block[key]);
                    assert(again.block.contains_key(key) == later.block.contains_key(key));
                    assert(again.block.contains_key(key) ==> again.block[key]
                        == later.block[key]);
                }
            }
        }
        assert(again == later);
    }
}

/// A change set without descriptors and network can be written, whatever the tables hold, and
/// written twice in a row it leaves the tables as written once.
pub proof fn law_write_twice(
    tables: Tables,
    wallet_name: Seq<char>,
    txs: Seq<Transaction<Seq<u8>>>,
    added: ChangeSetView,
)
    requires
        added.descriptor is None,
        added.change_descriptor is None,
        added.network is None,
        added.blocks.dom().finite(),
    ensures
        tables.apply_all(write_statements(wallet_name, txs, added)) matches Some(after)
            && after.apply_all(write_statements(wallet_name, txs, added)) == Some(after),
{
    let first = local_chain_statements(wallet_name, added.blocks);
    let second = tx_graph_statements(wallet_name, txs, added.tx_graph);
    assert(write_statements(wallet_name, txs, added) =~= first + second);
    lemma_chain_twice(tables, wallet_name, added.blocks);
    let between = tables.apply_all(first)->0;
    lemma_graph_twice(between, wallet_name, txs, added.tx_graph);
    let after = between.apply_all(second)->0;
    lemma_apply_all_append(tables, first, second);
    assert(after.apply_all(first) == Some(after));
    lemma_apply_all_append(after, first, second);
}

} // verus!
