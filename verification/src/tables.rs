//! The tables of the database, as mathematical values: what the statements do to them, and what
//! the queries give.
//!
//! The keys of `tx`, `txout`, `anchor_tx` and `block` are those that the statements name for
//! conflicts. Two things are assumed of the schema, which no statement shows: `keychain` has one row
//! per wallet and keychain, and `network` one per wallet, so that a second is refused; and the
//! columns `last_revealed` and `last_seen` have no default, so that they are null until a statement
//! sets them. With another default, a descriptor that was stored without a last revealed index would
//! be read with that one, and a transaction that was never seen with that time.

use vstd::prelude::*;

use crate::local_chain::BlockRow;
use crate::statement::{KeychainKind, Statement};
use crate::store::WalletRow;
use crate::tx_graph::{AnchorRow, TxOutRow, TxRow};

verus! {

/// What the table `keychain` holds of a wallet's keychain. That `last_revealed` is absent until it is
/// set is assumed of the schema.
pub struct KeychainRecord {
    pub descriptor: Seq<char>,
    pub descriptor_id: Seq<u8>,
    pub last_revealed: Option<i32>,
}

/// What the table `tx` holds of a wallet's transaction. That `last_seen` is absent until it is set is
/// assumed of the schema.
pub struct TxRecord {
    pub whole_tx: Option<Seq<u8>>,
    pub last_seen: Option<i64>,
}

/// What the table `txout` holds of a wallet's output.
pub struct TxOutRecord {
    pub value: i64,
    pub script: Seq<u8>,
}

/// The tables, each by its key.
#[verifier::ext_equal]
pub struct Tables {
    /// By wallet and keychain.
    pub keychain: Map<(Seq<char>, KeychainKind), KeychainRecord>,
    /// The network's name, by wallet.
    pub network: Map<Seq<char>, Seq<char>>,
    /// By wallet and transaction id.
    pub tx: Map<(Seq<char>, Seq<char>), TxRecord>,
    /// By wallet, transaction id and index.
    pub txout: Map<(Seq<char>, Seq<char>, i32), TxOutRecord>,
    /// The anchor's JSON text, by wallet, block hash and transaction id.
    pub anchor_tx: Map<(Seq<char>, Seq<char>, Seq<char>), Seq<char>>,
    /// The block's height, by wallet and block hash.
    pub block: Map<(Seq<char>, Seq<char>), i32>,
}

impl Tables {
    /// The tables of a database that holds nothing.
    pub open spec fn empty() -> Tables {
        Tables {
            keychain: Map::empty(),
            network: Map::empty(),
            tx: Map::empty(),
            txout: Map::empty(),
            anchor_tx: Map::empty(),
            block: Map::empty(),
        }
    }

    /// The tables after a statement, or `None` where it is refused: an `INSERT` that says nothing
    /// of conflicts is, where there is a row with its key. That `keychain` and `network` have such
    /// keys is assumed of the schema. An `UPDATE` without a row to change changes nothing.
    pub open spec fn apply(self, statement: Statement<Seq<char>, Seq<u8>>) -> Option<Tables> {
        match statement {
            Statement::InsertKeychain { wallet_name, keychainkind, descriptor, descriptor_id } => {
                let key = (wallet_name, keychainkind);
                let record = KeychainRecord { descriptor, descriptor_id, last_revealed: None };
                if self.keychain.contains_key(key) {
                    None
                } else {
                    Some(Tables { keychain: self.keychain.insert(key, record), ..self })
                }
            },
            Statement::UpdateLastRevealed { last_revealed, wallet_name, keychainkind } => {
                let key = (wallet_name, keychainkind);
                let record = KeychainRecord {
                    last_revealed: Some(last_revealed),
                    ..self.keychain[key]
                };
                if self.keychain.contains_key(key) {
                    Some(Tables { keychain: self.keychain.insert(key, record), ..self })
                } else {
                    Some(self)
                }
            },
            Statement::InsertNetwork { wallet_name, name } => if self.network.contains_key(
                wallet_name,
            ) {
                None
            } else {
                Some(Tables { network: self.network.insert(wallet_name, name), ..self })
            },
            Statement::UpsertTx { wallet_name, txid, whole_tx } => {
                let key = (wallet_name, txid);
                let last_seen = if self.tx.contains_key(key) {
                    self.tx[key].last_seen
                } else {
                    None
                };
                let record = TxRecord { whole_tx: Some(whole_tx), last_seen };
                Some(Tables { tx: self.tx.insert(key, record), ..self })
            },
            Statement::UpdateLastSeen { last_seen, wallet_name, txid } => {
                let key = (wallet_name, txid);
                let record = TxRecord { last_seen: Some(last_seen), ..self.tx[key] };
                if self.tx.contains_key(key) {
                    Some(Tables { tx: self.tx.insert(key, record), ..self })
                } else {
                    Some(self)
                }
            },
            Statement::UpsertTxOut { wallet_name, txid, vout, value, script } => {
                let key = (wallet_name, txid, vout);
                let record = TxOutRecord { value, script };
                Some(Tables { txout: self.txout.insert(key, record), ..self })
            },
            Statement::UpsertAnchor { wallet_name, block_hash, anchor, txid } => {
                let key = (wallet_name, block_hash, txid);
                Some(Tables { anchor_tx: self.anchor_tx.insert(key, anchor), ..self })
            },
            Statement::UpsertBlock { wallet_name, hash, height } => {
                let key = (wallet_name, hash);
                Some(Tables { block: self.block.insert(key, height), ..self })
            },
            Statement::DeleteBlock { wallet_name, height } => {
                let kept = |key: (Seq<char>, Seq<char>)|
                    self.block.contains_key(key) && !(key.0 == wallet_name && self.block[key]
                        == height);
                Some(Tables { block: Map::new(kept, |key| self.block[key]), ..self })
            },
        }
    }

    /// The tables after statements, one after the other, or `None` where one is refused.
    pub open spec fn apply_all(
        self,
        statements: Seq<Statement<Seq<char>, Seq<u8>>>,
    ) -> Option<Tables>
        decreases statements.len(),
    {
        if statements.len() == 0 {
            Some(self)
        } else {
            match self.apply_all(statements.drop_last()) {
                Some(tables) => tables.apply(statements.last()),
                None => None,
            }
        }
    }

    /// What the query for a wallet's row gives.
    pub open spec fn wallet_row(self, wallet_name: Seq<char>) -> Option<WalletRow<Seq<char>>> {
        let internal = (wallet_name, KeychainKind::Internal);
        let external = (wallet_name, KeychainKind::External);
        if self.network.contains_key(wallet_name) {
            Some(
                WalletRow {
                    network: self.network[wallet_name],
                    internal_descriptor: if self.keychain.contains_key(internal) {
                        Some(self.keychain[internal].descriptor)
                    } else {
                        None
                    },
                    internal_last_revealed: if self.keychain.contains_key(internal) {
                        self.keychain[internal].last_revealed
                    } else {
                        None
                    },
                    external_descriptor: if self.keychain.contains_key(external) {
                        Some(self.keychain[external].descriptor)
                    } else {
                        None
                    },
                    external_last_revealed: if self.keychain.contains_key(external) {
                        self.keychain[external].last_revealed
                    } else {
                        None
                    },
                },
            )
        } else {
            None
        }
    }

    /// What the query for transactions gives, where it lists the rows with the given keys.
    pub open spec fn tx_rows(self, keys: Seq<(Seq<char>, Seq<char>)>) -> Seq<
        TxRow<Seq<char>, Seq<u8>>,
    > {
        keys.map_values(
            |key: (Seq<char>, Seq<char>)|
                TxRow {
                    txid: key.1,
                    whole_tx: self.tx[key].whole_tx,
                    last_seen: self.tx[key].last_seen,
                },
        )
    }

    /// What the query for outputs gives, where it lists the rows with the given keys.
    pub open spec fn txout_rows(self, keys: Seq<(Seq<char>, Seq<char>, i32)>) -> Seq<
        TxOutRow<Seq<char>, Seq<u8>>,
    > {
        keys.map_values(
            |key: (Seq<char>, Seq<char>, i32)|
                TxOutRow {
                    txid: key.1,
                    vout: key.2,
                    value: self.txout[key].value,
                    script: self.txout[key].script,
                },
        )
    }

    /// What the query for anchors gives, where it lists the rows with the given keys.
    pub open spec fn anchor_rows(self, keys: Seq<(Seq<char>, Seq<char>, Seq<char>)>) -> Seq<
        AnchorRow<Seq<char>>,
    > {
        keys.map_values(
            |key: (Seq<char>, Seq<char>, Seq<char>)|
                AnchorRow { anchor: self.anchor_tx[key], txid: key.2 },
        )
    }

    /// What the query for blocks gives, where it lists the rows with the given keys.
    pub open spec fn block_rows(self, keys: Seq<(Seq<char>, Seq<char>)>) -> Seq<
        BlockRow<Seq<char>>,
    > {
        keys.map_values(
            |key: (Seq<char>, Seq<char>)| BlockRow { hash: key.1, height: self.block[key] },
        )
    }
}

/// The rows of a wallet in a table whose keys name their wallet by `owner`.
pub open spec fn rows_of<K, V>(
    table: Map<K, V>,
    owner: spec_fn(K) -> Seq<char>,
    wallet_name: Seq<char>,
) -> Map<K, V> {
    Map::new(
        |key: K| table.contains_key(key) && owner(key) == wallet_name,
        |key: K| table[key],
    )
}

impl Tables {
    /// The rows of a wallet.
    pub open spec fn of_wallet(self, wallet_name: Seq<char>) -> Tables {
        Tables {
            keychain: rows_of(
                self.keychain,
                |key: (Seq<char>, KeychainKind)| key.0,
                wallet_name,
            ),
            network: rows_of(self.network, |key: Seq<char>| key, wallet_name),
            tx: rows_of(self.tx, |key: (Seq<char>, Seq<char>)| key.0, wallet_name),
            txout: rows_of(self.txout, |key: (Seq<char>, Seq<char>, i32)| key.0, wallet_name),
            anchor_tx: rows_of(
                self.anchor_tx,
                |key: (Seq<char>, Seq<char>, Seq<char>)| key.0,
                wallet_name,
            ),
            block: rows_of(self.block, |key: (Seq<char>, Seq<char>)| key.0, wallet_name),
        }
    }
}

/// The wallet that a statement is for.
pub open spec fn statement_wallet(statement: Statement<Seq<char>, Seq<u8>>) -> Seq<char> {
    match statement {
        Statement::InsertKeychain { wallet_name, .. } => wallet_name,
        Statement::UpdateLastRevealed { wallet_name, .. } => wallet_name,
        Statement::InsertNetwork { wallet_name, .. } => wallet_name,
        Statement::UpsertTx { wallet_name, .. } => wallet_name,
        Statement::UpdateLastSeen { wallet_name, .. } => wallet_name,
        Statement::UpsertTxOut { wallet_name, .. } => wallet_name,
        Statement::UpsertAnchor { wallet_name, .. } => wallet_name,
        Statement::UpsertBlock { wallet_name, .. } => wallet_name,
        Statement::DeleteBlock { wallet_name, .. } => wallet_name,
    }
}

/// The order in which the database lists the rows of the tables, which is its own choice.
pub struct Listing {
    pub tx: Seq<(Seq<char>, Seq<char>)>,
    pub txout: Seq<(Seq<char>, Seq<char>, i32)>,
    pub anchor_tx: Seq<(Seq<char>, Seq<char>, Seq<char>)>,
    pub block: Seq<(Seq<char>, Seq<char>)>,
}

/// Whether the sequence lists the elements of the set, each once.
pub open spec fn lists<K>(keys: Seq<K>, set: Set<K>) -> bool {
    keys.no_duplicates() && keys.to_set() == set
}

impl Listing {
    /// Whether every row of the tables is listed, once.
    pub open spec fn of(self, tables: Tables) -> bool {
        &&& lists(self.tx, tables.tx.dom())
        &&& lists(self.txout, tables.txout.dom())
        &&& lists(self.anchor_tx, tables.anchor_tx.dom())
        &&& lists(self.block, tables.block.dom())
    }
}

/// Statements executed in two goes do what they do in one.
pub(crate) proof fn lemma_apply_all_append(
    tables: Tables,
    first: Seq<Statement<Seq<char>, Seq<u8>>>,
    second: Seq<Statement<Seq<char>, Seq<u8>>>,
)
    ensures
        tables.apply_all(first + second) == match tables.apply_all(first) {
            Some(between) => between.apply_all(second),
            None => None,
        },
    decreases second.len(),
{
    if second.len() == 0 {
        assert(first + second =~= first);
    } else {
        assert((first + second).drop_last() =~= first + second.drop_last());
        lemma_apply_all_append(tables, first, second.drop_last());
    }
}

/// A statement for one wallet leaves the rows of every other.
proof fn lemma_apply_leaves_others(
    tables: Tables,
    statement: Statement<Seq<char>, Seq<u8>>,
    other: Seq<char>,
)
    requires
        statement_wallet(statement) != other,
    ensures
        tables.apply(statement) matches Some(after) ==> after.of_wallet(other) == tables.of_wallet(
            other,
        ),
{
    if let Some(after) = tables.apply(statement) {
        assert(after.of_wallet(other) =~= tables.of_wallet(other));
    }
}

/// Statements for one wallet leave the rows of every other.
pub(crate) proof fn lemma_apply_all_leaves_others(
    tables: Tables,
    statements: Seq<Statement<Seq<char>, Seq<u8>>>,
    wallet_name: Seq<char>,
    other: Seq<char>,
)
    requires
        forall|i: int|
            0 <= i < statements.len() ==> statement_wallet(#[trigger] statements[i]) == wallet_name,
        wallet_name != other,
    ensures
        tables.apply_all(statements) matches Some(after) ==> after.of_wallet(other)
            == tables.of_wallet(other),
    decreases statements.len(),
{
    if statements.len() > 0 {
        let shorter = statements.drop_last();
        assert forall|i: int| 0 <= i < shorter.len() implies statement_wallet(
            #[trigger] shorter[i],
        ) == wallet_name by {
            assert(statements[i] == shorter[i]);
        }
        lemma_apply_all_leaves_others(tables, shorter, wallet_name, other);
        if let Some(between) = tables.apply_all(shorter) {
            assert(statement_wallet(statements[statements.len() - 1]) == wallet_name);
            lemma_apply_leaves_others(between, statements.last(), other);
        }
    }
}

/// What a statement for a wallet does to the wallet's rows depends on those rows alone.
#[verifier::spinoff_prover]
proof fn lemma_apply_of_wallet(
    tables: Tables,
    statement: Statement<Seq<char>, Seq<u8>>,
    wallet_name: Seq<char>,
)
    requires
        statement_wallet(statement) == wallet_name,
    ensures
        tables.of_wallet(wallet_name).apply(statement) == match tables.apply(statement) {
            Some(after) => Some(after.of_wallet(wallet_name)),
            None => None,
        },
{
    let own = tables.of_wallet(wallet_name);
    if let Some(after) = tables.apply(statement) {
        let own_after = own.apply(statement)->0;
        let after_own = after.of_wallet(wallet_name);
        assert(own_after.keychain =~= after_own.keychain);
        assert(own_after.network =~= after_own.network);
        assert(own_after.tx =~= after_own.tx);
        assert(own_after.txout =~= after_own.txout);
        assert(own_after.anchor_tx =~= after_own.anchor_tx);
        assert(own_after.block =~= after_own.block);
    }
}

/// What statements for a wallet do to the wallet's rows depends on those rows alone.
pub(crate) proof fn lemma_apply_all_of_wallet(
    tables: Tables,
    statements: Seq<Statement<Seq<char>, Seq<u8>>>,
    wallet_name: Seq<char>,
)
    requires
        forall|i: int|
            0 <= i < statements.len() ==> statement_wallet(#[trigger] statements[i]) == wallet_name,
    ensures
        tables.of_wallet(wallet_name).apply_all(statements) == match tables.apply_all(statements) {
            Some(after) => Some(after.of_wallet(wallet_name)),
            None => None,
        },
    decreases statements.len(),
{
    if statements.len() > 0 {
        let shorter = statements.drop_last();
        assert forall|i: int| 0 <= i < shorter.len() implies statement_wallet(
            #[trigger] shorter[i],
        ) == wallet_name by {
            assert(statements[i] == shorter[i]);
        }
        lemma_apply_all_of_wallet(tables, shorter, wallet_name);
        if let Some(between) = tables.apply_all(shorter) {
            assert(statement_wallet(statements[statements.len() - 1]) == wallet_name);
            lemma_apply_of_wallet(between, statements.last(), wallet_name);
        }
    }
}

/// A table with the same rows for every wallet as another is the same.
proof fn lemma_same_table<K, V>(a: Map<K, V>, b: Map<K, V>, owner: spec_fn(K) -> Seq<char>)
    requires
        forall|wallet_name: Seq<char>| #[trigger]
            rows_of(a, owner, wallet_name) == rows_of(b, owner, wallet_name),
    ensures
        a == b,
{
    assert forall|key: K|
        #![trigger a.dom().contains(key)]
        #![trigger b.dom().contains(key)]
        a.dom().contains(key) == b.dom().contains(key) && (a.dom().contains(key) ==> a[key]
            == b[key]) by {
        let (x, y) = (rows_of(a, owner, owner(key)), rows_of(b, owner, owner(key)));
        assert(x.contains_key(key) == y.contains_key(key));
        assert(x.contains_key(key) ==> x[key] == y[key]);
    }
    assert(a =~= b);
}

/// Tables with the same rows for every wallet are the same.
pub(crate) proof fn lemma_same_tables(a: Tables, b: Tables)
    requires
        forall|wallet_name: Seq<char>| #[trigger]
            a.of_wallet(wallet_name) == b.of_wallet(wallet_name),
    ensures
        a == b,
{
    let keychain = |key: (Seq<char>, KeychainKind)| key.0;
    let network = |key: Seq<char>| key;
    let pair = |key: (Seq<char>, Seq<char>)| key.0;
    let txout = |key: (Seq<char>, Seq<char>, i32)| key.0;
    let anchor_tx = |key: (Seq<char>, Seq<char>, Seq<char>)| key.0;
    assert forall|w: Seq<char>|
        rows_of(a.keychain, keychain, w) == rows_of(b.keychain, keychain, w) && rows_of(
            a.network,
            network,
            w,
        ) == rows_of(b.network, network, w) && rows_of(a.tx, pair, w) == rows_of(b.tx, pair, w)
            && rows_of(a.txout, txout, w) == rows_of(b.txout, txout, w) && rows_of(
            a.anchor_tx,
            anchor_tx,
            w,
        ) == rows_of(b.anchor_tx, anchor_tx, w) && rows_of(a.block, pair, w) == rows_of(
            b.block,
            pair,
            w,
        ) by {
        assert(a.of_wallet(w) == b.of_wallet(w));
    }
    lemma_same_table(a.keychain, b.keychain, keychain);
    lemma_same_table(a.network, b.network, network);
    lemma_same_table(a.tx, b.tx, pair);
    lemma_same_table(a.txout, b.txout, txout);
    lemma_same_table(a.anchor_tx, b.anchor_tx, anchor_tx);
    lemma_same_table(a.block, b.block, pair);
}

} // verus!
