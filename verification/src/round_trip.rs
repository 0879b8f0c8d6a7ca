//! What is read back of what was written.

use vstd::prelude::*;

use crate::anchor::AnchoredTx;
use crate::changeset::{ChangeSetView, TxGraphView};
use crate::descriptor::Descriptor;
use crate::hash::{hash_bytes, BlockHash, DescriptorId, Txid};
use crate::held::{
    anchor_key, anchors_with, block_key, blocks_fit, blocks_with, has_id, holds_anchors,
    holds_blocks, holds_txouts, holds_txs, ids, lemma_anchors_read,
    lemma_anchors_written, lemma_blocks_read, lemma_blocks_written, lemma_last_seen_written,
    lemma_txouts_read, lemma_txouts_written, lemma_txs_read, lemma_txs_written,
    one_anchor_per_place, one_height_per_block, one_tx_per_id, reads_back, tx_key, txout_key,
    txs_with,
};
use crate::local_chain::{block_rows_parse, blocks_of_rows, local_chain_statements};
use crate::network::{law_network_name_round_trip, network_name, Network};
use crate::number::{law_u32_round_trip, signed32};
use crate::order::{
    key_order, lemma_key_order_exists, lemma_keys_are_ordered, lemma_keys_are_told_apart,
};
use crate::statement::KeychainKind;
use crate::store::{
    changeset_of_row, keychain_statements, network_statements, row_is_readable, wallet_of_rows, write_statements,
};
use crate::tables::{
    lemma_apply_all_append, lemma_apply_all_leaves_others, lemma_apply_all_of_wallet,
    lemma_same_tables, lists, statement_wallet, KeychainRecord, Listing, Tables,
};
use crate::transaction::{OutPoint, Transaction};
use crate::tx_graph::{
    anchor_statements, last_seen_statements, tx_graph_of_rows, tx_graph_statements, tx_statements,
    txout_statements, with_anchor_rows, with_tx_rows, with_txout_rows,
};

verus! {

/// Whether the tables hold the graph, and nothing else.
pub open spec fn holds_graph(tables: Tables, wallet_name: Seq<char>, graph: TxGraphView) -> bool {
    &&& holds_txs(tables.tx, wallet_name, graph.txs, graph.last_seen)
    &&& holds_txouts(tables.txout, wallet_name, graph.txouts)
    &&& holds_anchors(tables.anchor_tx, wallet_name, graph.anchors)
}

/// The ids of a change set's descriptors.
pub open spec fn descriptor_ids(changeset: ChangeSetView) -> Set<DescriptorId> {
    Set::new(
        |id: DescriptorId|
            (changeset.descriptor matches Some(d) && d.id == id) || (
            changeset.change_descriptor matches Some(d) && d.id == id),
    )
}

/// What `keychain` holds of a descriptor.
pub open spec fn keychain_record(
    descriptor: Descriptor<Seq<char>>,
    last_revealed: Map<DescriptorId, u32>,
) -> KeychainRecord {
    KeychainRecord {
        descriptor: descriptor.text,
        descriptor_id: hash_bytes(descriptor.id),
        last_revealed: if last_revealed.contains_key(descriptor.id) {
            Some(signed32(last_revealed[descriptor.id]))
        } else {
            None
        },
    }
}

/// Whether `keychain` holds a descriptor for the wallet's keychain, or none where there is none.
pub open spec fn holds_keychain(
    tables: Tables,
    wallet_name: Seq<char>,
    keychain: KeychainKind,
    descriptor: Option<Descriptor<Seq<char>>>,
    last_revealed: Map<DescriptorId, u32>,
) -> bool {
    let key = (wallet_name, keychain);
    match descriptor {
        Some(d) => d.valid() && tables.keychain.contains_key(key) && tables.keychain[key]
            == keychain_record(d, last_revealed),
        None => !tables.keychain.contains_key(key),
    }
}

/// Whether `network` holds the wallet's network, or none where there is none.
pub open spec fn holds_network(
    tables: Tables,
    wallet_name: Seq<char>,
    network: Option<Network>,
) -> bool {
    match network {
        Some(n) => tables.network.contains_key(wallet_name) && tables.network[wallet_name]
            == network_name(n),
        None => !tables.network.contains_key(wallet_name),
    }
}

/// Whether the tables hold what the change set says of the wallet. Transactions, outputs, anchors
/// and blocks of other wallets they hold none.
pub open spec fn holds(tables: Tables, wallet_name: Seq<char>, changeset: ChangeSetView) -> bool {
    &&& holds_keychain(
        tables,
        wallet_name,
        KeychainKind::External,
        changeset.descriptor,
        changeset.last_revealed,
    )
    &&& holds_keychain(
        tables,
        wallet_name,
        KeychainKind::Internal,
        changeset.change_descriptor,
        changeset.last_revealed,
    )
    &&& changeset.last_revealed.dom().subset_of(descriptor_ids(changeset))
    &&& holds_network(tables, wallet_name, changeset.network)
    &&& holds_blocks(tables.block, wallet_name, changeset.blocks)
    &&& holds_graph(tables, wallet_name, changeset.tx_graph)
}

/// The graph of `before` with the changes of `added`.
pub open spec fn graph_with(before: TxGraphView, added: TxGraphView) -> TxGraphView {
    let txs = txs_with(before.txs, added.txs);
    TxGraphView {
        txs,
        txouts: before.txouts.union_prefer_right(added.txouts),
        anchors: anchors_with(before.anchors, added.anchors),
        last_seen: before.last_seen.union_prefer_right(added.last_seen.restrict(ids(txs))),
    }
}

/// What is stored of a wallet that `before` was stored of, after the changes of `added`. Of the
/// last revealed indices those count that are of a descriptor in `added`, of the times when
/// transactions were last seen those of transactions that are stored.
pub open spec fn changeset_with(before: ChangeSetView, added: ChangeSetView) -> ChangeSetView {
    ChangeSetView {
        descriptor: if added.descriptor is Some {
            added.descriptor
        } else {
            before.descriptor
        },
        change_descriptor: if added.change_descriptor is Some {
            added.change_descriptor
        } else {
            before.change_descriptor
        },
        network: if added.network is Some {
            added.network
        } else {
            before.network
        },
        blocks: blocks_with(before.blocks, added.blocks),
        tx_graph: graph_with(before.tx_graph, added.tx_graph),
        last_revealed: before.last_revealed.union_prefer_right(
            added.last_revealed.restrict(descriptor_ids(added)),
        ),
    }
}

/// Whether the parts of a graph are what they should be, and no two of them contend for one row.
pub open spec fn graph_is_sound(graph: TxGraphView) -> bool {
    &&& forall|tx: Transaction<Seq<u8>>| #[trigger] graph.txs.contains(tx) ==> tx.valid()
    &&& one_tx_per_id(graph.txs)
    &&& forall|a: AnchoredTx| #[trigger] graph.anchors.contains(a) ==> reads_back(a)
    &&& one_anchor_per_place(graph.anchors)
    &&& graph.last_seen.dom().finite()
    &&& graph.txouts.dom().finite()
    &&& graph.anchors.finite()
}

/// Whether the parts of a change set are what they should be, and no two of them contend for one
/// row.
pub open spec fn is_sound(changeset: ChangeSetView) -> bool {
    &&& changeset.descriptor matches Some(d) ==> d.valid()
    &&& changeset.change_descriptor matches Some(d) ==> d.valid()
    &&& one_height_per_block(changeset.blocks)
    &&& changeset.blocks.dom().finite()
    &&& graph_is_sound(changeset.tx_graph)
}

/// Whether a descriptor of `added` is none of `before`, or one with the same last revealed index.
pub open spec fn same_index_if_known(
    before: ChangeSetView,
    added: ChangeSetView,
    id: DescriptorId,
) -> bool {
    descriptor_ids(before).contains(id) ==> {
        &&& before.last_revealed.contains_key(id) == added.last_revealed.contains_key(id)
        &&& before.last_revealed.contains_key(id) ==> before.last_revealed[id]
            == added.last_revealed[id]
    }
}

/// Whether a change set can be written over what is stored: it brings no descriptor and no
/// network where there is one, no other index for a descriptor of the other keychain, and no
/// block at the height of another one that stays there.
pub open spec fn fits(before: ChangeSetView, added: ChangeSetView) -> bool {
    &&& added.descriptor matches Some(d) ==> before.descriptor is None && same_index_if_known(
        before,
        added,
        d.id,
    )
    &&& added.change_descriptor matches Some(d) ==> before.change_descriptor is None
        && same_index_if_known(before, added, d.id)
    &&& added.network is Some ==> before.network is None
    &&& blocks_fit(before.blocks, added.blocks)
}

/// What `keychain` holds after the statements for a keychain.
proof fn lemma_keychain_written(
    tables: Tables,
    wallet_name: Seq<char>,
    keychain: KeychainKind,
    descriptor: Option<Descriptor<Seq<char>>>,
    last_revealed: Map<DescriptorId, u32>,
)
    requires
        descriptor is Some ==> !tables.keychain.contains_key((wallet_name, keychain)),
    ensures
        tables.apply_all(keychain_statements(wallet_name, descriptor, last_revealed, keychain))
            == Some(
            Tables {
                keychain: match descriptor {
                    Some(d) => tables.keychain.insert(
                        (wallet_name, keychain),
                        keychain_record(d, last_revealed),
                    ),
                    None => tables.keychain,
                },
                ..tables
            },
        ),
{
    let statements = keychain_statements(wallet_name, descriptor, last_revealed, keychain);
    reveal_with_fuel(Tables::apply_all, 3);
    if let Some(d) = descriptor {
        let key = (wallet_name, keychain);
        let first = KeychainRecord { last_revealed: None, ..keychain_record(d, last_revealed) };
        if last_revealed.contains_key(d.id) {
            assert(statements.drop_last().drop_last() =~= Seq::empty());
            assert(statements.drop_last().last() == statements[0]);
            assert(tables.keychain.insert(key, first).insert(
                key,
                keychain_record(d, last_revealed),
            ) =~= tables.keychain.insert(key, keychain_record(d, last_revealed)));
        } else {
            assert(statements.drop_last() =~= Seq::empty());
        }
    }
}

/// What the tables hold of the graph after the statements for changes to it.
proof fn lemma_graph_written(
    tables: Tables,
    wallet_name: Seq<char>,
    before: TxGraphView,
    txs: Seq<Transaction<Seq<u8>>>,
    added: TxGraphView,
)
    requires
        holds_graph(tables, wallet_name, before),
        graph_is_sound(added),
        lists(txs, added.txs),
    ensures
        tables.apply_all(tx_graph_statements(wallet_name, txs, added)) matches Some(after) && after
            == (Tables { tx: after.tx, txout: after.txout, anchor_tx: after.anchor_tx, ..tables })
            && holds_graph(after, wallet_name, graph_with(before, added)),
{
    lemma_keys_are_ordered();
    lemma_keys_are_told_apart();

    assert forall|i: int| 0 <= i < txs.len() implies (#[trigger] txs[i]).valid() by {
        assert(txs.to_set().contains(txs[i]));
    }
    lemma_txs_written(tables, wallet_name, before.txs, before.last_seen, txs);
    let first = tx_statements(wallet_name, txs);
    let after_txs = tables.apply_all(first)->0;

    lemma_key_order_exists(added.last_seen.dom());
    let order = key_order(added.last_seen.dom());
    assert forall|i: int| 0 <= i < order.len() implies added.last_seen.contains_key(
        #[trigger] order[i],
    ) by {
        assert(order.to_set().contains(order[i]));
    }
    let stored = txs_with(before.txs, added.txs);
    lemma_last_seen_written(
        after_txs,
        wallet_name,
        stored,
        before.last_seen,
        added.last_seen,
        order,
    );
    let second = last_seen_statements(wallet_name, added.last_seen);
    let after_last_seen = after_txs.apply_all(second)->0;
    assert(added.last_seen.restrict(order.to_set()) =~= added.last_seen);

    lemma_key_order_exists(added.txouts.dom());
    let order = key_order(added.txouts.dom());
    assert forall|i: int| 0 <= i < order.len() implies added.txouts.contains_key(
        #[trigger] order[i],
    ) by {
        assert(order.to_set().contains(order[i]));
    }
    lemma_txouts_written(after_last_seen, wallet_name, before.txouts, added.txouts, order);
    let third = txout_statements(wallet_name, added.txouts);
    let after_txouts = after_last_seen.apply_all(third)->0;
    assert(added.txouts.restrict(order.to_set()) =~= added.txouts);

    lemma_key_order_exists(added.anchors);
    let order = key_order(added.anchors);
    assert forall|i: int| 0 <= i < order.len() implies reads_back(#[trigger] order[i]) by {
        assert(order.to_set().contains(order[i]));
    }
    lemma_anchors_written(after_txouts, wallet_name, before.anchors, order);
    let fourth = anchor_statements(wallet_name, added.anchors);

    lemma_apply_all_append(tables, first, second);
    lemma_apply_all_append(tables, first + second, third);
    lemma_apply_all_append(tables, first + second + third, fourth);
}

/// What the tables hold of a wallet after a write, where they hold nothing of another.
proof fn lemma_written(
    tables: Tables,
    wallet_name: Seq<char>,
    before: ChangeSetView,
    txs: Seq<Transaction<Seq<u8>>>,
    added: ChangeSetView,
)
    requires
        holds(tables, wallet_name, before),
        is_sound(added),
        lists(txs, added.tx_graph.txs),
        fits(before, added),
    ensures
        tables.apply_all(write_statements(wallet_name, txs, added)) matches Some(after) && holds(
            after,
            wallet_name,
            changeset_with(before, added),
        ),
{
    let first = keychain_statements(
        wallet_name,
        added.descriptor,
        added.last_revealed,
        KeychainKind::External,
    );
    lemma_keychain_written(
        tables,
        wallet_name,
        KeychainKind::External,
        added.descriptor,
        added.last_revealed,
    );
    let after_external = tables.apply_all(first)->0;

    let second = keychain_statements(
        wallet_name,
        added.change_descriptor,
        added.last_revealed,
        KeychainKind::Internal,
    );
    lemma_keychain_written(
        after_external,
        wallet_name,
        KeychainKind::Internal,
        added.change_descriptor,
        added.last_revealed,
    );
    let after_internal = after_external.apply_all(second)->0;

    let third = network_statements(wallet_name, added.network);
    let after_network = Tables {
        network: match added.network {
            Some(n) => after_internal.network.insert(wallet_name, network_name(n)),
            None => after_internal.network,
        },
        ..after_internal
    };
    assert(after_internal.apply_all(third) == Some(after_network)) by {
        reveal_with_fuel(Tables::apply_all, 2);
        if added.network is Some {
            assert(third.drop_last() =~= Seq::empty());
        }
    }

    let fourth = local_chain_statements(wallet_name, added.blocks);
    lemma_blocks_written(after_network, wallet_name, before.blocks, added.blocks);
    let after_blocks = after_network.apply_all(fourth)->0;

    let fifth = tx_graph_statements(wallet_name, txs, added.tx_graph);
    lemma_graph_written(after_blocks, wallet_name, before.tx_graph, txs, added.tx_graph);
    let after = after_blocks.apply_all(fifth)->0;

    lemma_apply_all_append(tables, first, second);
    lemma_apply_all_append(tables, first + second, third);
    lemma_apply_all_append(tables, first + second + third, fourth);
    lemma_apply_all_append(tables, first + second + third + fourth, fifth);

    let stored = changeset_with(before, added);
    if let Some(d) = before.descriptor {
        assert(descriptor_ids(before).contains(d.id));
    }
    if let Some(d) = before.change_descriptor {
        assert(descriptor_ids(before).contains(d.id));
    }
    if let Some(d) = added.descriptor {
        assert(descriptor_ids(added).contains(d.id));
    }
    if let Some(d) = added.change_descriptor {
        assert(descriptor_ids(added).contains(d.id));
    }
    assert(stored.last_revealed.dom().subset_of(descriptor_ids(stored)));
    assert(holds_keychain(
        after,
        wallet_name,
        KeychainKind::External,
        stored.descriptor,
        stored.last_revealed,
    ));
    assert(holds_keychain(
        after,
        wallet_name,
        KeychainKind::Internal,
        stored.change_descriptor,
        stored.last_revealed,
    ));
    assert(holds_network(after, wallet_name, stored.network));
}

/// Every statement of a write is for the wallet that is written.
proof fn lemma_write_is_for_wallet(
    wallet_name: Seq<char>,
    txs: Seq<Transaction<Seq<u8>>>,
    added: ChangeSetView,
)
    ensures
        ({
            let statements = write_statements(wallet_name, txs, added);
            forall|i: int|
                0 <= i < statements.len() ==> statement_wallet(#[trigger] statements[i])
                    == wallet_name
        }),
{
    let statements = write_statements(wallet_name, txs, added);
    assert forall|i: int| 0 <= i < statements.len() implies statement_wallet(
        #[trigger] statements[i],
    ) == wallet_name by {}
}

/// A change set that fits over what the tables hold of a wallet is written: no statement is
/// refused, and afterwards the tables hold what was stored of the wallet before, with the changes.
/// It does not matter what they hold of other wallets.
pub proof fn law_write(
    tables: Tables,
    wallet_name: Seq<char>,
    before: ChangeSetView,
    txs: Seq<Transaction<Seq<u8>>>,
    added: ChangeSetView,
)
    requires
        holds(tables.of_wallet(wallet_name), wallet_name, before),
        is_sound(added),
        lists(txs, added.tx_graph.txs),
        fits(before, added),
    ensures
        tables.apply_all(write_statements(wallet_name, txs, added)) matches Some(after) && holds(
            after.of_wallet(wallet_name),
            wallet_name,
            changeset_with(before, added),
        ),
{
    lemma_written(tables.of_wallet(wallet_name), wallet_name, before, txs, added);
    lemma_write_is_for_wallet(wallet_name, txs, added);
    lemma_apply_all_of_wallet(tables, write_statements(wallet_name, txs, added), wallet_name);
}

/// What is read of the rows that hold a graph, in whatever order they come, is that graph.
pub(crate) proof fn lemma_graph_read(
    tables: Tables,
    wallet_name: Seq<char>,
    graph: TxGraphView,
    listing: Listing,
)
    requires
        holds_graph(tables, wallet_name, graph),
        listing.of(tables),
    ensures
        tx_graph_of_rows(
            tables.tx_rows(listing.tx),
            tables.txout_rows(listing.txout),
            tables.anchor_rows(listing.anchor_tx),
        ) == Some(graph),
{
    let keys = listing.tx;
    assert forall|i: int| 0 <= i < keys.len() implies tables.tx.contains_key(
        #[trigger] keys[i],
    ) by {
        assert(keys.to_set().contains(keys[i]));
    }
    let empty = TxGraphView::empty();
    lemma_txs_read(tables, wallet_name, graph.txs, graph.last_seen, keys, empty);
    let after_txs = with_tx_rows(empty, tables.tx_rows(keys));
    assert(after_txs.txs =~= graph.txs) by {
        assert forall|tx: Transaction<Seq<u8>>| graph.txs.contains(tx) implies keys.contains(
            tx_key(wallet_name, tx.txid),
        ) by {
            assert(keys.to_set().contains(tx_key(wallet_name, tx.txid)));
        }
    }
    assert(after_txs.last_seen =~= graph.last_seen) by {
        assert forall|txid: Txid| graph.last_seen.contains_key(txid) implies keys.contains(
            tx_key(wallet_name, txid),
        ) by {
            assert(has_id(graph.txs, txid));
            let tx = choose|tx: Transaction<Seq<u8>>| #[trigger]
                graph.txs.contains(tx) && tx.txid == txid;
            assert(keys.to_set().contains(tx_key(wallet_name, tx.txid)));
        }
    }

    let keys = listing.txout;
    assert forall|i: int| 0 <= i < keys.len() implies tables.txout.contains_key(
        #[trigger] keys[i],
    ) by {
        assert(keys.to_set().contains(keys[i]));
    }
    lemma_txouts_read(tables, wallet_name, graph.txouts, keys, after_txs);
    let after_txouts = with_txout_rows(after_txs, tables.txout_rows(keys));
    assert(after_txouts.txouts =~= graph.txouts) by {
        assert forall|outpoint: OutPoint| graph.txouts.contains_key(
            outpoint,
        ) implies keys.contains(txout_key(wallet_name, outpoint)) by {
            assert(keys.to_set().contains(txout_key(wallet_name, outpoint)));
        }
    }

    let keys = listing.anchor_tx;
    assert forall|i: int| 0 <= i < keys.len() implies tables.anchor_tx.contains_key(
        #[trigger] keys[i],
    ) by {
        assert(keys.to_set().contains(keys[i]));
    }
    lemma_anchors_read(tables, wallet_name, graph.anchors, keys, after_txouts);
    let after_anchors = with_anchor_rows(after_txouts, tables.anchor_rows(keys));
    assert(after_anchors.anchors =~= graph.anchors) by {
        assert forall|a: AnchoredTx| graph.anchors.contains(a) implies keys.contains(
            anchor_key(wallet_name, a),
        ) by {
            assert(keys.to_set().contains(anchor_key(wallet_name, a)));
        }
    }
    assert(after_anchors == graph);
}

/// What is read of the rows that hold a chain, in whatever order they come, is that chain.
pub(crate) proof fn lemma_chain_read(
    tables: Tables,
    wallet_name: Seq<char>,
    blocks: Map<u32, Option<BlockHash>>,
    keys: Seq<(Seq<char>, Seq<char>)>,
)
    requires
        holds_blocks(tables.block, wallet_name, blocks),
        lists(keys, tables.block.dom()),
    ensures
        block_rows_parse(tables.block_rows(keys)),
        blocks_of_rows(tables.block_rows(keys)) == blocks,
{
    assert forall|i: int| 0 <= i < keys.len() implies tables.block.contains_key(
        #[trigger] keys[i],
    ) by {
        assert(keys.to_set().contains(keys[i]));
    }
    lemma_blocks_read(tables, wallet_name, blocks, keys);
    assert(blocks_of_rows(tables.block_rows(keys)) =~= blocks) by {
        assert forall|height: u32| blocks.contains_key(height) implies keys.contains(
            block_key(wallet_name, blocks[height]->0),
        ) by {
            assert(keys.to_set().contains(block_key(wallet_name, blocks[height]->0)));
        }
    }
}

/// What is read of a wallet, in whatever order the database lists its rows, is what the tables
/// hold of it. A wallet without a network is read as an empty one.
pub proof fn law_read(
    tables: Tables,
    wallet_name: Seq<char>,
    stored: ChangeSetView,
    listing: Listing,
)
    requires
        holds(tables, wallet_name, stored),
        listing.of(tables),
    ensures
        tables.wallet_row(wallet_name) matches Some(row) ==> row_is_readable(row),
        wallet_of_rows(
            tables.wallet_row(wallet_name),
            tables.tx_rows(listing.tx),
            tables.txout_rows(listing.txout),
            tables.anchor_rows(listing.anchor_tx),
            tables.block_rows(listing.block),
        ) == Some(
            if stored.network is Some {
                stored
            } else {
                ChangeSetView::empty()
            },
        ),
{
    if let Some(network) = stored.network {
        law_network_name_round_trip(network);
        lemma_graph_read(tables, wallet_name, stored.tx_graph, listing);

        lemma_chain_read(tables, wallet_name, stored.blocks, listing.block);

        let row = tables.wallet_row(wallet_name)->0;
        let read = changeset_of_row(row);
        assert(read.last_revealed =~= stored.last_revealed) by {
            if let Some(d) = stored.descriptor {
                if stored.last_revealed.contains_key(d.id) {
                    law_u32_round_trip(stored.last_revealed[d.id], 0);
                }
            }
            if let Some(d) = stored.change_descriptor {
                if stored.last_revealed.contains_key(d.id) {
                    law_u32_round_trip(stored.last_revealed[d.id], 0);
                }
            }
            assert forall|id: DescriptorId| stored.last_revealed.contains_key(
                id,
            ) implies descriptor_ids(stored).contains(id) by {}
        }
        assert(read.descriptor == stored.descriptor);
        assert(read.change_descriptor == stored.change_descriptor);
        assert(read.network == stored.network);
    }
}

/// Whether all that a change set says is kept when it is the first of a wallet: last revealed
/// indices are of its descriptors, transactions that were last seen are among its transactions,
/// no block is removed, and the network is there, unless there is nothing at all.
pub open spec fn is_complete(changeset: ChangeSetView) -> bool {
    &&& changeset.last_revealed.dom().subset_of(descriptor_ids(changeset))
    &&& changeset.tx_graph.last_seen.dom().subset_of(ids(changeset.tx_graph.txs))
    &&& forall|height: u32| #[trigger]
        changeset.blocks.contains_key(height) ==> changeset.blocks[height] is Some
    &&& changeset.network is Some || changeset == ChangeSetView::empty()
}

/// The first change set of a wallet that is written to an empty database is read back as it was,
/// in whatever order the database lists its rows. This rests on what is assumed of the schema: a
/// column that nothing has set is null.
pub proof fn law_write_then_read(
    wallet_name: Seq<char>,
    txs: Seq<Transaction<Seq<u8>>>,
    changeset: ChangeSetView,
    listing: Listing,
)
    requires
        is_sound(changeset),
        is_complete(changeset),
        lists(txs, changeset.tx_graph.txs),
    ensures
        Tables::empty().apply_all(write_statements(wallet_name, txs, changeset)) matches Some(
            tables,
        ) && (listing.of(tables) ==> wallet_of_rows(
            tables.wallet_row(wallet_name),
            tables.tx_rows(listing.tx),
            tables.txout_rows(listing.txout),
            tables.anchor_rows(listing.anchor_tx),
            tables.block_rows(listing.block),
        ) == Some(changeset)),
{
    let nothing = ChangeSetView::empty();
    assert(holds(Tables::empty(), wallet_name, nothing));
    lemma_written(Tables::empty(), wallet_name, nothing, txs, changeset);
    let stored = changeset_with(nothing, changeset);
    assert(stored.blocks =~= changeset.blocks);
    assert(stored.last_revealed =~= changeset.last_revealed);
    let graph = stored.tx_graph;
    assert(graph.txs =~= changeset.tx_graph.txs);
    assert(graph.txouts =~= changeset.tx_graph.txouts);
    assert(graph.anchors =~= changeset.tx_graph.anchors);
    assert(graph.last_seen =~= changeset.tx_graph.last_seen);
    assert(stored == changeset);
    let tables = Tables::empty().apply_all(write_statements(wallet_name, txs, changeset))->0;
    if listing.of(tables) {
        law_read(tables, wallet_name, changeset, listing);
    }
}

/// Tables that hold the same graph and the same blocks have the same rows for them.
proof fn lemma_same_rows(
    a: Tables,
    b: Tables,
    wallet_name: Seq<char>,
    blocks: Map<u32, Option<BlockHash>>,
    graph: TxGraphView,
)
    requires
        holds_blocks(a.block, wallet_name, blocks),
        holds_blocks(b.block, wallet_name, blocks),
        holds_graph(a, wallet_name, graph),
        holds_graph(b, wallet_name, graph),
    ensures
        a.block == b.block,
        a.tx == b.tx,
        a.txout == b.txout,
        a.anchor_tx == b.anchor_tx,
{
    assert(a.block =~= b.block);
    assert(a.tx =~= b.tx);
    assert(a.txout =~= b.txout);
    assert(a.anchor_tx =~= b.anchor_tx);
}

/// What is stored already is written again, where the tables hold nothing of another wallet.
proof fn lemma_written_again(
    tables: Tables,
    wallet_name: Seq<char>,
    stored: ChangeSetView,
    txs: Seq<Transaction<Seq<u8>>>,
)
    requires
        holds(tables, wallet_name, stored),
        is_sound(stored),
        lists(txs, stored.tx_graph.txs),
    ensures
        tables.apply_all(
            local_chain_statements(wallet_name, stored.blocks) + tx_graph_statements(
                wallet_name,
                txs,
                stored.tx_graph,
            ),
        ) == Some(tables),
{
    let first = local_chain_statements(wallet_name, stored.blocks);
    let second = tx_graph_statements(wallet_name, txs, stored.tx_graph);
    lemma_blocks_written(tables, wallet_name, stored.blocks, stored.blocks);
    let between = tables.apply_all(first)->0;
    lemma_graph_written(between, wallet_name, stored.tx_graph, txs, stored.tx_graph);
    let after = between.apply_all(second)->0;
    lemma_apply_all_append(tables, first, second);
    assert(blocks_with(stored.blocks, stored.blocks) =~= stored.blocks);
    let graph = graph_with(stored.tx_graph, stored.tx_graph);
    assert(graph.txs =~= stored.tx_graph.txs);
    assert(graph.txouts =~= stored.tx_graph.txouts);
    assert(graph.anchors =~= stored.tx_graph.anchors);
    assert(graph.last_seen =~= stored.tx_graph.last_seen);
    assert(graph == stored.tx_graph);
    lemma_same_rows(tables, after, wallet_name, stored.blocks, stored.tx_graph);
}

/// Blocks, transactions, outputs and anchors that are stored already can be written again, and
/// nothing changes, in the rows of the wallet or of another.
pub proof fn law_write_again(
    tables: Tables,
    wallet_name: Seq<char>,
    stored: ChangeSetView,
    txs: Seq<Transaction<Seq<u8>>>,
)
    requires
        holds(tables.of_wallet(wallet_name), wallet_name, stored),
        is_sound(stored),
        lists(txs, stored.tx_graph.txs),
    ensures
        tables.apply_all(
            local_chain_statements(wallet_name, stored.blocks) + tx_graph_statements(
                wallet_name,
                txs,
                stored.tx_graph,
            ),
        ) == Some(tables),
{
    let statements = local_chain_statements(wallet_name, stored.blocks) + tx_graph_statements(
        wallet_name,
        txs,
        stored.tx_graph,
    );
    assert forall|i: int| 0 <= i < statements.len() implies statement_wallet(
        #[trigger] statements[i],
    ) == wallet_name by {}
    lemma_written_again(tables.of_wallet(wallet_name), wallet_name, stored, txs);
    lemma_apply_all_of_wallet(tables, statements, wallet_name);
    let after = tables.apply_all(statements)->0;
    assert forall|other: Seq<char>| #[trigger] after.of_wallet(other) == tables.of_wallet(other) by {
        if other != wallet_name {
            lemma_apply_all_leaves_others(tables, statements, wallet_name, other);
        }
    }
    lemma_same_tables(after, tables);
}

/// What is written for one wallet leaves the rows of every other wallet as they are.
pub proof fn law_write_leaves_others(
    tables: Tables,
    wallet_name: Seq<char>,
    other: Seq<char>,
    txs: Seq<Transaction<Seq<u8>>>,
    added: ChangeSetView,
)
    requires
        wallet_name != other,
    ensures
        tables.apply_all(write_statements(wallet_name, txs, added)) matches Some(after)
            ==> after.of_wallet(other) == tables.of_wallet(other),
{
    lemma_write_is_for_wallet(wallet_name, txs, added);
    lemma_apply_all_leaves_others(
        tables,
        write_statements(wallet_name, txs, added),
        wallet_name,
        other,
    );
}

} // verus!
