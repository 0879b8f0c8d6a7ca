//! The statements that the store executes: their SQL, and the values that they bind.

use vstd::prelude::*;

verus! {

/// Inserts a keychain's descriptor.
pub const INSERT_KEYCHAIN: &'static str =
    "INSERT INTO keychain (wallet_name, keychainkind, descriptor, descriptor_id) VALUES ($1, $2, $3, $4)";

/// Updates the last index that a keychain has revealed.
pub const UPDATE_LAST_REVEALED: &'static str =
    "UPDATE keychain SET last_revealed = $1 WHERE wallet_name = $2 AND keychainkind = $3";

/// Inserts a wallet's network.
pub const INSERT_NETWORK: &'static str = "INSERT INTO network (wallet_name, name) VALUES ($1, $2)";

/// Inserts a transaction, or replaces the bytes of the one that is there.
pub const UPSERT_TX: &'static str = "INSERT INTO tx (wallet_name, txid, whole_tx) VALUES ($1, $2, $3)
             ON CONFLICT (wallet_name, txid) DO UPDATE SET whole_tx = $3";

/// Updates the time when a transaction was last seen.
pub const UPDATE_LAST_SEEN: &'static str =
    "UPDATE tx SET last_seen = $1 WHERE wallet_name = $2 AND txid = $3";

/// Inserts an output, or replaces the value and script of the one that is there.
pub const UPSERT_TXOUT: &'static str = "INSERT INTO txout (wallet_name, txid, vout, value, script) VALUES ($1, $2, $3, $4, $5)
             ON CONFLICT (wallet_name, txid, vout) DO UPDATE SET value = $4, script = $5";

/// Inserts an anchor, or replaces the one of the same block and transaction.
pub const UPSERT_ANCHOR: &'static str = "INSERT INTO anchor_tx (wallet_name, block_hash, anchor, txid) VALUES ($1, $2, $3, $4)
             ON CONFLICT (wallet_name, block_hash, txid) DO UPDATE SET anchor = $3";

/// Inserts a block, or replaces the height of the one that is there.
pub const UPSERT_BLOCK: &'static str = "INSERT INTO block (wallet_name, hash, height) VALUES ($1, $2, $3)
                     ON CONFLICT (wallet_name, hash) DO UPDATE SET height = $3";

/// Deletes the blocks at a height.
pub const DELETE_BLOCK: &'static str = "DELETE FROM block WHERE wallet_name = $1 AND height = $2";

/// Selects a wallet's network, and the descriptor and last revealed index of its keychains.
pub const SELECT_WALLET: &'static str = "SELECT n.name as network,
            k_int.descriptor as internal_descriptor, k_int.last_revealed as internal_last_revealed,
            k_ext.descriptor as external_descriptor, k_ext.last_revealed as external_last_revealed
            FROM network n
            LEFT JOIN keychain k_int ON n.wallet_name = k_int.wallet_name AND k_int.keychainkind = 'Internal'
            LEFT JOIN keychain k_ext ON n.wallet_name = k_ext.wallet_name AND k_ext.keychainkind = 'External'
            WHERE n.wallet_name = $1";

/// Selects the transactions.
pub const SELECT_TXS: &'static str = "SELECT txid, whole_tx, last_seen FROM tx";

/// Selects the outputs.
pub const SELECT_TXOUTS: &'static str = "SELECT txid, vout, value, script FROM txout";

/// Selects the anchors.
pub const SELECT_ANCHORS: &'static str = "SELECT anchor, txid FROM anchor_tx";

/// Selects the blocks.
pub const SELECT_BLOCKS: &'static str = "SELECT hash, height FROM block";

/// Selects all that is known of the keychains.
pub const SELECT_KEYCHAINS: &'static str = "SELECT * FROM keychain";

/// The keychain that a descriptor is for.
#[derive(Clone, Copy, Debug, PartialEq, Eq, Structural)]
pub enum KeychainKind {
    /// The one for addresses that are given to others.
    External,
    /// The one for change.
    Internal,
}

/// How a keychain is named in the database.
pub open spec fn keychain_name(keychain: KeychainKind) -> Seq<char> {
    match keychain {
        KeychainKind::External => "External"@,
        KeychainKind::Internal => "Internal"@,
    }
}

impl KeychainKind {
    /// How the keychain is named in the database.
    pub fn name(self) -> (r: &'static str)
        ensures
            r@ == keychain_name(self),
            self is External ==> r@ == "External"@,
            self is Internal ==> r@ == "Internal"@,
    {
        match self {
            KeychainKind::External => "External",
            KeychainKind::Internal => "Internal",
        }
    }
}

/// A statement that changes the database, with the values that it binds.
#[derive(Debug, PartialEq, Eq)]
pub enum Statement<T = String, B = Vec<u8>> {
    /// Inserts a row into `keychain`.
    InsertKeychain {
        /// The wallet's name.
        wallet_name: T,
        /// The keychain.
        keychainkind: KeychainKind,
        /// The descriptor's text.
        descriptor: T,
        /// The bytes of the descriptor's id.
        descriptor_id: B,
    },
    /// Sets `last_revealed` in `keychain`.
    UpdateLastRevealed {
        /// The last revealed index.
        last_revealed: i32,
        /// The wallet's name.
        wallet_name: T,
        /// The keychain.
        keychainkind: KeychainKind,
    },
    /// Inserts a row into `network`.
    InsertNetwork {
        /// The wallet's name.
        wallet_name: T,
        /// The network's name.
        name: T,
    },
    /// Inserts a row into `tx`, or replaces its `whole_tx`.
    UpsertTx {
        /// The wallet's name.
        wallet_name: T,
        /// The text of the transaction's id.
        txid: T,
        /// The transaction's encoding.
        whole_tx: B,
    },
    /// Sets `last_seen` in `tx`.
    UpdateLastSeen {
        /// When the transaction was last seen.
        last_seen: i64,
        /// The wallet's name.
        wallet_name: T,
        /// The text of the transaction's id.
        txid: T,
    },
    /// Inserts a row into `txout`, or replaces its `value` and `script`.
    UpsertTxOut {
        /// The wallet's name.
        wallet_name: T,
        /// The text of the id of the output's transaction.
        txid: T,
        /// The output's index.
        vout: i32,
        /// The output's value.
        value: i64,
        /// The output's script.
        script: B,
    },
    /// Inserts a row into `anchor_tx`, or replaces its `anchor`.
    UpsertAnchor {
        /// The wallet's name.
        wallet_name: T,
        /// The text of the block's hash.
        block_hash: T,
        /// The anchor's JSON text.
        anchor: T,
        /// The text of the transaction's id.
        txid: T,
    },
    /// Inserts a row into `block`, or replaces its `height`.
    UpsertBlock {
        /// The wallet's name.
        wallet_name: T,
        /// The text of the block's hash.
        hash: T,
        /// The block's height.
        height: i32,
    },
    /// Deletes rows of `block`.
    DeleteBlock {
        /// The wallet's name.
        wallet_name: T,
        /// The blocks' height.
        height: i32,
    },
}

impl View for Statement {
    type V = Statement<Seq<char>, Seq<u8>>;

    open spec fn view(&self) -> Statement<Seq<char>, Seq<u8>> {
        match *self {
            Statement::InsertKeychain { wallet_name, keychainkind, descriptor, descriptor_id } =>
                Statement::InsertKeychain {
                wallet_name: wallet_name@,
                keychainkind,
                descriptor: descriptor@,
                descriptor_id: descriptor_id@,
            },
            Statement::UpdateLastRevealed { last_revealed, wallet_name, keychainkind } =>
                Statement::UpdateLastRevealed {
                last_revealed,
                wallet_name: wallet_name@,
                keychainkind,
            },
            Statement::InsertNetwork { wallet_name, name } => Statement::InsertNetwork {
                wallet_name: wallet_name@,
                name: name@,
            },
            Statement::UpsertTx { wallet_name, txid, whole_tx } => Statement::UpsertTx {
                wallet_name: wallet_name@,
                txid: txid@,
                whole_tx: whole_tx@,
            },
            Statement::UpdateLastSeen { last_seen, wallet_name, txid } =>
                Statement::UpdateLastSeen { last_seen, wallet_name: wallet_name@, txid: txid@ },
            Statement::UpsertTxOut { wallet_name, txid, vout, value, script } =>
                Statement::UpsertTxOut {
                wallet_name: wallet_name@,
                txid: txid@,
                vout,
                value,
                script: script@,
            },
            Statement::UpsertAnchor { wallet_name, block_hash, anchor, txid } =>
                Statement::UpsertAnchor {
                wallet_name: wallet_name@,
                block_hash: block_hash@,
                anchor: anchor@,
                txid: txid@,
            },
            Statement::UpsertBlock { wallet_name, hash, height } => Statement::UpsertBlock {
                wallet_name: wallet_name@,
                hash: hash@,
                height,
            },
            Statement::DeleteBlock { wallet_name, height } => Statement::DeleteBlock {
                wallet_name: wallet_name@,
                height,
            },
        }
    }
}

/// The views of a list of statements.
pub open spec fn statement_views(statements: Seq<Statement>) -> Seq<
    Statement<Seq<char>, Seq<u8>>,
> {
    statements.map_values(|s: Statement| s@)
}

/// A value that a statement binds, by its type in the database.
#[derive(Debug, PartialEq, Eq)]
pub enum Bind<T = String, B = Vec<u8>> {
    /// A text.
    Text(T),
    /// A 32-bit integer.
    Int(i32),
    /// A 64-bit integer.
    BigInt(i64),
    /// Bytes.
    Bytes(B),
    /// A JSON value, as text.
    Json(T),
}

impl View for Bind {
    type V = Bind<Seq<char>, Seq<u8>>;

    open spec fn view(&self) -> Bind<Seq<char>, Seq<u8>> {
        match *self {
            Bind::Text(t) => Bind::Text(t@),
            Bind::Int(i) => Bind::Int(i),
            Bind::BigInt(i) => Bind::BigInt(i),
            Bind::Bytes(b) => Bind::Bytes(b@),
            Bind::Json(t) => Bind::Json(t@),
        }
    }
}

/// The SQL of a statement.
pub open spec fn statement_sql<T, B>(statement: Statement<T, B>) -> Seq<char> {
    match statement {
        Statement::InsertKeychain { .. } => INSERT_KEYCHAIN@,
        Statement::UpdateLastRevealed { .. } => UPDATE_LAST_REVEALED@,
        Statement::InsertNetwork { .. } => INSERT_NETWORK@,
        Statement::UpsertTx { .. } => UPSERT_TX@,
        Statement::UpdateLastSeen { .. } => UPDATE_LAST_SEEN@,
        Statement::UpsertTxOut { .. } => UPSERT_TXOUT@,
        Statement::UpsertAnchor { .. } => UPSERT_ANCHOR@,
        Statement::UpsertBlock { .. } => UPSERT_BLOCK@,
        Statement::DeleteBlock { .. } => DELETE_BLOCK@,
    }
}

/// The values that a statement binds, in the order of its parameters.
pub open spec fn statement_binds(statement: Statement<Seq<char>, Seq<u8>>) -> Seq<
    Bind<Seq<char>, Seq<u8>>,
> {
    match statement {
        Statement::InsertKeychain { wallet_name, keychainkind, descriptor, descriptor_id } => seq![
            Bind::Text(wallet_name),
            Bind::Text(keychain_name(keychainkind)),
            Bind::Text(descriptor),
            Bind::Bytes(descriptor_id),
        ],
        Statement::UpdateLastRevealed { last_revealed, wallet_name, keychainkind } => seq![
            Bind::Int(last_revealed),
            Bind::Text(wallet_name),
            Bind::Text(keychain_name(keychainkind)),
        ],
        Statement::InsertNetwork { wallet_name, name } => seq![
            Bind::Text(wallet_name),
            Bind::Text(name),
        ],
        Statement::UpsertTx { wallet_name, txid, whole_tx } => seq![
            Bind::Text(wallet_name),
            Bind::Text(txid),
            Bind::Bytes(whole_tx),
        ],
        Statement::UpdateLastSeen { last_seen, wallet_name, txid } => seq![
            Bind::BigInt(last_seen),
            Bind::Text(wallet_name),
            Bind::Text(txid),
        ],
        Statement::UpsertTxOut { wallet_name, txid, vout, value, script } => seq![
            Bind::Text(wallet_name),
            Bind::Text(txid),
            Bind::Int(vout),
            Bind::BigInt(value),
            Bind::Bytes(script),
        ],
        Statement::UpsertAnchor { wallet_name, block_hash, anchor, txid } => seq![
            Bind::Text(wallet_name),
            Bind::Text(block_hash),
            Bind::Json(anchor),
            Bind::Text(txid),
        ],
        Statement::UpsertBlock { wallet_name, hash, height } => seq![
            Bind::Text(wallet_name),
            Bind::Text(hash),
            Bind::Int(height),
        ],
        Statement::DeleteBlock { wallet_name, height } => seq![
            Bind::Text(wallet_name),
            Bind::Int(height),
        ],
    }
}

impl Statement {
    /// The statement's SQL.
    pub fn sql(&self) -> (r: &'static str)
        ensures
            r@ == statement_sql(*self),
            r@ == statement_sql(self@),
            *self is InsertKeychain ==> r@ == INSERT_KEYCHAIN@,
            *self is UpdateLastRevealed ==> r@ == UPDATE_LAST_REVEALED@,
            *self is InsertNetwork ==> r@ == INSERT_NETWORK@,
            *self is UpsertTx ==> r@ == UPSERT_TX@,
            *self is UpdateLastSeen ==> r@ == UPDATE_LAST_SEEN@,
            *self is UpsertTxOut ==> r@ == UPSERT_TXOUT@,
            *self is UpsertAnchor ==> r@ == UPSERT_ANCHOR@,
            *self is UpsertBlock ==> r@ == UPSERT_BLOCK@,
            *self is DeleteBlock ==> r@ == DELETE_BLOCK@,
    {
        match self {
            Statement::InsertKeychain { .. } => INSERT_KEYCHAIN,
            Statement::UpdateLastRevealed { .. } => UPDATE_LAST_REVEALED,
            Statement::InsertNetwork { .. } => INSERT_NETWORK,
            Statement::UpsertTx { .. } => UPSERT_TX,
            Statement::UpdateLastSeen { .. } => UPDATE_LAST_SEEN,
            Statement::UpsertTxOut { .. } => UPSERT_TXOUT,
            Statement::UpsertAnchor { .. } => UPSERT_ANCHOR,
            Statement::UpsertBlock { .. } => UPSERT_BLOCK,
            Statement::DeleteBlock { .. } => DELETE_BLOCK,
        }
    }

    /// The values that the statement binds, in the order of its parameters.
    pub fn binds(self) -> (r: Vec<Bind>)
        ensures
            r@.map_values(|b: Bind| b@) == statement_binds(self@),
    {
        let r = match self {
            Statement::InsertKeychain { wallet_name, keychainkind, descriptor, descriptor_id } =>
                vec![
                Bind::Text(wallet_name),
                Bind::Text(keychainkind.name().to_string()),
                Bind::Text(descriptor),
                Bind::Bytes(descriptor_id),
            ],
            Statement::UpdateLastRevealed { last_revealed, wallet_name, keychainkind } => vec![
                Bind::Int(last_revealed),
                Bind::Text(wallet_name),
                Bind::Text(keychainkind.name().to_string()),
            ],
            Statement::InsertNetwork { wallet_name, name } => vec![
                Bind::Text(wallet_name),
                Bind::Text(name),
            ],
            Statement::UpsertTx { wallet_name, txid, whole_tx } => vec![
                Bind::Text(wallet_name),
                Bind::Text(txid),
                Bind::Bytes(whole_tx),
            ],
            Statement::UpdateLastSeen { last_seen, wallet_name, txid } => vec![
                Bind::BigInt(last_seen),
                Bind::Text(wallet_name),
                Bind::Text(txid),
            ],
            Statement::UpsertTxOut { wallet_name, txid, vout, value, script } => vec![
                Bind::Text(wallet_name),
                Bind::Text(txid),
                Bind::Int(vout),
                Bind::BigInt(value),
                Bind::Bytes(script),
            ],
            Statement::UpsertAnchor { wallet_name, block_hash, anchor, txid } => vec![
                Bind::Text(wallet_name),
                Bind::Text(block_hash),
                Bind::Json(anchor),
                Bind::Text(txid),
            ],
            Statement::UpsertBlock { wallet_name, hash, height } => vec![
                Bind::Text(wallet_name),
                Bind::Text(hash),
                Bind::Int(height),
            ],
            Statement::DeleteBlock { wallet_name, height } => vec![
                Bind::Text(wallet_name),
                Bind::Int(height),
            ],
        };
        assert(r@.map_values(|b: Bind| b@) =~= statement_binds(self@));
        r
    }
}

} // verus!
