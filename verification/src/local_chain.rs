//! Storing and reading the chain of blocks.

use std::collections::BTreeMap;

use vstd::prelude::*;
use vstd::std_specs::iter::IteratorSpec;

use crate::changeset::LocalChainChangeSet;
use crate::error::BdkSqlxError;
use crate::hash::{block_hash_text, hash_of_text, hash_text, parse_block_hash, BlockHash};
use crate::number::{signed32, to_signed32, to_unsigned32, unsigned32};
use crate::order::{key_order, lemma_keys_are_ordered, lemma_map_walk};
use crate::statement::{statement_views, Statement};

verus! {

/// A row of the table `block`.
#[derive(Debug, PartialEq, Eq)]
pub struct BlockRow<T = String> {
    /// The text of the block's hash.
    pub hash: T,
    /// The block's height.
    pub height: i32,
}

impl View for BlockRow {
    type V = BlockRow<Seq<char>>;

    open spec fn view(&self) -> BlockRow<Seq<char>> {
        BlockRow { hash: self.hash@, height: self.height }
    }
}

/// The views of a list of rows.
pub open spec fn block_row_views(rows: Seq<BlockRow>) -> Seq<BlockRow<Seq<char>>> {
    rows.map_values(|row: BlockRow| row@)
}

/// Whether the hash of every row is one.
pub open spec fn block_rows_parse(rows: Seq<BlockRow<Seq<char>>>) -> bool {
    forall|i: int| 0 <= i < rows.len() ==> hash_of_text(#[trigger] rows[i].hash) is Some
}

/// The blocks that the rows hold, by height. Of two rows at one height the later one counts.
pub open spec fn blocks_of_rows(rows: Seq<BlockRow<Seq<char>>>) -> Map<u32, Option<BlockHash>>
    decreases rows.len(),
{
    if rows.len() == 0 {
        Map::empty()
    } else {
        let row = rows.last();
        blocks_of_rows(rows.drop_last()).insert(unsigned32(row.height), hash_of_text(row.hash))
    }
}

/// Selects blocks: the change set that the rows of the table `block` stand for.
pub fn local_chain_changeset_from_postgres(rows: &Vec<BlockRow>) -> (r: Result<
    LocalChainChangeSet,
    BdkSqlxError,
>)
    ensures
        r matches Ok(changeset) ==> block_rows_parse(block_row_views(rows@))
            && changeset.blocks@ == blocks_of_rows(block_row_views(rows@)),
        r matches Err(e) ==> e is HexToArray && !block_rows_parse(block_row_views(rows@)),
{
    let ghost views = block_row_views(rows@);
    let mut blocks: BTreeMap<u32, Option<BlockHash>> = BTreeMap::new();
    assert(views.take(0) =~= Seq::empty());
    for i in 0..rows.len()
        invariant
            views == block_row_views(rows@),
            blocks@ == blocks_of_rows(views.take(i as int)),
            block_rows_parse(views.take(i as int)),
    {
        let row = &rows[i];
        assert(views[i as int] == row@);
        match parse_block_hash(&row.hash) {
            Ok(hash) => {
                proof {
                    lemma_keys_are_ordered();
                }
                blocks.insert(to_unsigned32(row.height), Some(hash));
            },
            Err(e) => {
                assert(hash_of_text(views[i as int].hash) is None);
                return Err(e);
            },
        }
        assert(views.take(i + 1).drop_last() =~= views.take(i as int));
        assert forall|j: int| 0 <= j < i + 1 implies hash_of_text(
            #[trigger] views.take(i + 1)[j].hash,
        ) is Some by {
            if j < i {
                assert(views.take(i + 1)[j] == views.take(i as int)[j]);
            }
        }
    }
    assert(views.take(rows.len() as int) =~= views);
    Ok(LocalChainChangeSet { blocks })
}

/// The statement that stores what a change set says of one height: the block that was added
/// there, or that it was removed.
pub open spec fn block_statement(
    wallet_name: Seq<char>,
    height: u32,
    hash: Option<BlockHash>,
) -> Statement<Seq<char>, Seq<u8>> {
    match hash {
        Some(hash) => Statement::UpsertBlock {
            wallet_name,
            hash: hash_text(hash),
            height: signed32(height),
        },
        None => Statement::DeleteBlock { wallet_name, height: signed32(height) },
    }
}

/// The statements that store changes to the chain of blocks, from the lowest height up.
pub open spec fn local_chain_statements(
    wallet_name: Seq<char>,
    blocks: Map<u32, Option<BlockHash>>,
) -> Seq<Statement<Seq<char>, Seq<u8>>> {
    key_order(blocks.dom()).map_values(
        |height: u32| block_statement(wallet_name, height, blocks[height]),
    )
}

/// Inserts blocks: the statements that store the change set, in the order to execute them in.
pub fn local_chain_changeset_persist_to_postgres(
    wallet_name: &str,
    changeset: &LocalChainChangeSet,
) -> (r: Vec<Statement>)
    ensures
        statement_views(r@) == local_chain_statements(wallet_name@, changeset.blocks@),
{
    let ghost blocks = changeset.blocks@;
    proof {
        lemma_keys_are_ordered();
    }
    let ghost entries = changeset.blocks.iter().remaining();
    let mut statements: Vec<Statement> = Vec::new();
    for entry in it: changeset.blocks.iter()
        invariant
            it.seq() == entries,
            statements@.len() == it.index(),
            forall|j: int|
                0 <= j < it.index() ==> (#[trigger] statements@[j])@ == block_statement(
                    wallet_name@,
                    *it.seq()[j].0,
                    *it.seq()[j].1,
                ),
    {
        let (height, hash) = entry;
        match hash {
            Some(hash) => {
                statements.push(
                    Statement::UpsertBlock {
                        wallet_name: wallet_name.to_string(),
                        hash: block_hash_text(*hash),
                        height: to_signed32(*height),
                    },
                );
            },
            None => {
                statements.push(
                    Statement::DeleteBlock {
                        wallet_name: wallet_name.to_string(),
                        height: to_signed32(*height),
                    },
                );
            },
        }
    }
    proof {
        lemma_map_walk(entries, blocks);
        assert(statement_views(statements@) =~= local_chain_statements(wallet_name@, blocks));
    }
    statements
}

} // verus!
