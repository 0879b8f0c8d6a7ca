use std::collections::{BTreeMap, BTreeSet};

use bdk_sqlx::anchor::anchor_to_json;
use bdk_sqlx::changeset::{ChangeSet, LocalChainChangeSet, TxGraphChangeSet};
use bdk_sqlx::descriptor::Descriptor;
use bdk_sqlx::error::BdkSqlxError;
use bdk_sqlx::hash::{block_hash_text, hash_to_bytes, txid_text};
use bdk_sqlx::local_chain::{
    local_chain_changeset_from_postgres, local_chain_changeset_persist_to_postgres, BlockRow,
};
use bdk_sqlx::network::Network;
use bdk_sqlx::schema::{drop_all, easy_backup};
use bdk_sqlx::statement::{Bind, KeychainKind, Statement};
use bdk_sqlx::store::{
    insert_descriptor, insert_network, update_last_revealed, Store, WalletAction, WalletRead,
    WalletReply, WalletRow,
};
use bdk_sqlx::transaction::{Transaction, TxOut};
use bdk_sqlx::tx_graph::{
    tx_graph_changeset_from_postgres, tx_graph_changeset_persist_to_postgres, AnchorRow,
    TxGraphRead, TxGraphReply, TxOutRow, TxRow,
};
use bdk_wallet::bitcoin;
use bdk_wallet::bitcoin::consensus;

const XPUB: &str = "xpub661MyMwAqRbcFtXgS5sYJABqqG9YLmC4Q1Rdap9gSE8NqtwybGhePY2gZ29ESFjqJoCu1Rupje8YtGqsefD265TMg7usUDFdp6W1EGMcet8";
const WALLET: &str = "savings";

/// The tables of a database, one map or list each, with the rows in the order of their insertion.
#[derive(Default, Debug, PartialEq)]
struct Database {
    keychain: BTreeMap<(String, String), (String, Vec<u8>, Option<i32>)>,
    network: BTreeMap<String, String>,
    tx: Vec<((String, String), Option<Vec<u8>>, Option<i64>)>,
    txout: Vec<((String, String, i32), i64, Vec<u8>)>,
    anchor_tx: Vec<((String, String, String), String)>,
    block: Vec<((String, String), i32)>,
}

impl Database {
    fn execute(&mut self, statement: Statement) {
        match statement {
            Statement::InsertKeychain { wallet_name, keychainkind, descriptor, descriptor_id } => {
                let key = (wallet_name, keychainkind.name().to_string());
                assert!(!self.keychain.contains_key(&key));
                self.keychain.insert(key, (descriptor, descriptor_id, None));
            }
            Statement::UpdateLastRevealed { last_revealed, wallet_name, keychainkind } => {
                let key = (wallet_name, keychainkind.name().to_string());
                if let Some(row) = self.keychain.get_mut(&key) {
                    row.2 = Some(last_revealed);
                }
            }
            Statement::InsertNetwork { wallet_name, name } => {
                assert!(self.network.insert(wallet_name, name).is_none());
            }
            Statement::UpsertTx { wallet_name, txid, whole_tx } => {
                let key = (wallet_name, txid);
                match self.tx.iter_mut().find(|row| row.0 == key) {
                    Some(row) => row.1 = Some(whole_tx),
                    None => self.tx.push((key, Some(whole_tx), None)),
                }
            }
            Statement::UpdateLastSeen { last_seen, wallet_name, txid } => {
                let key = (wallet_name, txid);
                if let Some(row) = self.tx.iter_mut().find(|row| row.0 == key) {
                    row.2 = Some(last_seen);
                }
            }
            Statement::UpsertTxOut { wallet_name, txid, vout, value, script } => {
                let key = (wallet_name, txid, vout);
                match self.txout.iter_mut().find(|row| row.0 == key) {
                    Some(row) => (row.1, row.2) = (value, script),
                    None => self.txout.push((key, value, script)),
                }
            }
            Statement::UpsertAnchor { wallet_name, block_hash, anchor, txid } => {
                let key = (wallet_name, block_hash, txid);
                match self.anchor_tx.iter_mut().find(|row| row.0 == key) {
                    Some(row) => row.1 = anchor,
                    None => self.anchor_tx.push((key, anchor)),
                }
            }
            Statement::UpsertBlock { wallet_name, hash, height } => {
                let key = (wallet_name, hash);
                match self.block.iter_mut().find(|row| row.0 == key) {
                    Some(row) => row.1 = height,
                    None => self.block.push((key, height)),
                }
            }
            Statement::DeleteBlock { wallet_name, height } => {
                self.block.retain(|row| !(row.0 .0 == wallet_name && row.1 == height));
            }
        }
    }

    fn write(&mut self, store: &Store, changeset: &ChangeSet) {
        for statement in store.write(changeset).unwrap().unwrap() {
            self.execute(statement);
        }
    }

    fn wallet_row(&self, wallet: &str) -> Option<WalletRow> {
        let network = self.network.get(wallet)?.clone();
        let keychain = |name: &str| self.keychain.get(&(wallet.to_string(), name.to_string()));
        let internal = keychain("Internal");
        let external = keychain("External");
        Some(WalletRow {
            network,
            internal_descriptor: internal.map(|row| row.0.clone()),
            internal_last_revealed: internal.and_then(|row| row.2),
            external_descriptor: external.map(|row| row.0.clone()),
            external_last_revealed: external.and_then(|row| row.2),
        })
    }

    fn tx_rows(&self) -> Vec<TxRow> {
        let row = |row: &((String, String), Option<Vec<u8>>, Option<i64>)| TxRow {
            txid: row.0 .1.clone(),
            whole_tx: row.1.clone(),
            last_seen: row.2,
        };
        self.tx.iter().map(row).collect()
    }

    fn txout_rows(&self) -> Vec<TxOutRow> {
        let row = |row: &((String, String, i32), i64, Vec<u8>)| TxOutRow {
            txid: row.0 .1.clone(),
            vout: row.0 .2,
            value: row.1,
            script: row.2.clone(),
        };
        self.txout.iter().map(row).collect()
    }

    fn anchor_rows(&self) -> Vec<AnchorRow> {
        let row = |row: &((String, String, String), String)| AnchorRow {
            anchor: row.1.clone(),
            txid: row.0 .2.clone(),
        };
        self.anchor_tx.iter().map(row).collect()
    }

    fn block_rows(&self) -> Vec<BlockRow> {
        let row = |row: &((String, String), i32)| BlockRow { hash: row.0 .1.clone(), height: row.1 };
        self.block.iter().map(row).collect()
    }

    /// Reads a wallet, action by action, and lists the queries that were made.
    fn read(&self, store: &Store) -> (ChangeSet, Vec<&'static str>) {
        let mut queries = vec![];
        let mut state = store.initialize();
        loop {
            let reply = match store.next_action(&state) {
                WalletAction::Migrate => WalletReply::Migrated,
                WalletAction::Query { sql, bind } => {
                    queries.push(sql);
                    match bind {
                        Some(name) => WalletReply::Wallet(self.wallet_row(&name)),
                        None if sql.ends_with("FROM tx") => {
                            WalletReply::TxGraph(TxGraphReply::Txs(self.tx_rows()))
                        }
                        None if sql.ends_with("FROM txout") => {
                            WalletReply::TxGraph(TxGraphReply::TxOuts(self.txout_rows()))
                        }
                        None if sql.ends_with("FROM anchor_tx") => {
                            WalletReply::TxGraph(TxGraphReply::Anchors(self.anchor_rows()))
                        }
                        None => WalletReply::Blocks(self.block_rows()),
                    }
                }
                WalletAction::Finish => break,
            };
            state = Store::migrate_and_read(state, reply).unwrap().unwrap();
        }
        match state {
            WalletRead::Done(changeset) => (changeset, queries),
            state => panic!("{state:?}"),
        }
    }
}

fn store() -> Store {
    Store::new(Some(WALLET.to_string()), false).unwrap()
}

fn descriptor(path: &str) -> Descriptor {
    Descriptor::parse(&format!("wpkh({XPUB}/{path})")).unwrap()
}

fn transaction(sats: u64) -> Transaction {
    let tx = bitcoin::Transaction {
        version: bitcoin::transaction::Version::TWO,
        lock_time: bitcoin::absolute::LockTime::ZERO,
        input: vec![bitcoin::TxIn::default()],
        output: vec![bitcoin::TxOut {
            value: bitcoin::Amount::from_sat(sats),
            script_pubkey: bitcoin::ScriptBuf::new(),
        }],
    };
    Transaction::from_encoding(consensus::serialize(&tx)).unwrap()
}

fn graph() -> TxGraphChangeSet {
    let (a, b) = (transaction(1000), transaction(2000));
    let (id_a, id_b) = (a.txid, b.txid);
    TxGraphChangeSet {
        txs: vec![a, b],
        txouts: BTreeMap::from([
            ((id_a, u32::MAX), TxOut { value: u64::MAX, script_pubkey: vec![] }),
            (((7, 7), 0), TxOut { value: 5, script_pubkey: vec![0x51, 0x52] }),
        ]),
        anchors: BTreeSet::from([(((3, (0, 3)), 100), id_a), (((4, (0, 4)), 200), id_b)]),
        last_seen: BTreeMap::from([(id_a, 1_700_000_000), (id_b, u64::MAX)]),
    }
}

fn sorted(mut graph: TxGraphChangeSet) -> TxGraphChangeSet {
    graph.txs.sort_by_key(|tx| tx.txid);
    graph
}

fn first() -> ChangeSet {
    let mut changeset = ChangeSet::empty();
    let (external, internal) = (descriptor("0/*"), descriptor("1/*"));
    changeset.indexer.last_revealed.insert(external.id, 5);
    changeset.indexer.last_revealed.insert(internal.id, 0x8000_0001);
    changeset.descriptor = Some(external);
    changeset.change_descriptor = Some(internal);
    changeset.network = Some(Network::Regtest);
    changeset.local_chain.blocks = BTreeMap::from([
        (0, Some((1, 0))),
        (4, Some((0, 4))),
        (u32::MAX, Some((2, 2))),
    ]);
    changeset.tx_graph = sorted(graph());
    changeset
}

#[test]
fn new_store() {
    let store = Store::new(None, false).unwrap();
    assert_eq!(store.wallet_name, "bdk_pg_wallet");
    assert!(!store.migration);
    let store = Store::new(Some("a".to_string()), true).unwrap();
    assert_eq!(store.wallet_name, "a");
    assert!(store.migration);
}

#[test]
fn new_store_with_url() {
    let store = Store::new_with_url(None).unwrap();
    assert_eq!(store, Store { wallet_name: "bdk_pg_wallet".to_string(), migration: true });
    let store = Store::new_with_url(Some("".to_string())).unwrap();
    assert_eq!(store, Store { wallet_name: "".to_string(), migration: true });
}

#[test]
fn nothing_to_write() {
    assert!(store().write(&ChangeSet::empty()).unwrap().is_none());
}

#[test]
fn each_part_is_something_to_write() {
    let parts: Vec<fn(&mut ChangeSet)> = vec![
        |c| c.descriptor = Some(descriptor("0/*")),
        |c| c.change_descriptor = Some(descriptor("0/*")),
        |c| c.network = Some(Network::Bitcoin),
        |c| c.local_chain.blocks = BTreeMap::from([(1, None)]),
        |c| c.tx_graph.txs = vec![transaction(1)],
        |c| c.tx_graph.txouts = graph().txouts,
        |c| c.tx_graph.anchors = graph().anchors,
        |c| c.tx_graph.last_seen = graph().last_seen,
        |c| c.indexer.last_revealed = BTreeMap::from([((0, 0), 0)]),
    ];
    assert!(ChangeSet::empty().is_empty());
    for (i, part) in parts.into_iter().enumerate() {
        let mut changeset = ChangeSet::empty();
        part(&mut changeset);
        assert!(!changeset.is_empty());
        assert_eq!(changeset.tx_graph.is_empty(), !(4..8).contains(&i));
        assert!(store().write(&changeset).unwrap().is_some());
    }
}

#[test]
fn write_lists_statements_in_order() {
    let changeset = first();
    let statements = store().write(&changeset).unwrap().unwrap();
    let external = descriptor("0/*");
    let internal = descriptor("1/*");
    let mut expected = vec![
        insert_descriptor(WALLET, &external, KeychainKind::External),
        update_last_revealed(WALLET, 5, KeychainKind::External),
        insert_descriptor(WALLET, &internal, KeychainKind::Internal),
        update_last_revealed(WALLET, 0x8000_0001, KeychainKind::Internal),
        insert_network(WALLET, Network::Regtest),
    ];
    expected.extend(local_chain_changeset_persist_to_postgres(WALLET, &changeset.local_chain));
    expected.extend(tx_graph_changeset_persist_to_postgres(WALLET, &changeset.tx_graph).unwrap());
    assert_eq!(statements, expected);
    assert_eq!(statements.len(), 5 + 3 + 8);
}

#[test]
fn last_revealed_without_its_descriptor_is_not_written() {
    let mut changeset = ChangeSet::empty();
    changeset.indexer.last_revealed.insert(descriptor("0/*").id, 5);
    assert_eq!(store().write(&changeset).unwrap().unwrap(), vec![]);
    changeset.change_descriptor = Some(descriptor("1/*"));
    assert_eq!(
        store().write(&changeset).unwrap().unwrap(),
        vec![insert_descriptor(WALLET, &descriptor("1/*"), KeychainKind::Internal)]
    );
}

#[test]
fn keychain_statements_bind() {
    let d = descriptor("0/*");
    let insert = insert_descriptor(WALLET, &d, KeychainKind::External);
    assert_eq!(
        insert.sql(),
        "INSERT INTO keychain (wallet_name, keychainkind, descriptor, descriptor_id) VALUES ($1, $2, $3, $4)"
    );
    assert_eq!(
        insert.binds(),
        vec![
            Bind::Text(WALLET.to_string()),
            Bind::Text("External".to_string()),
            Bind::Text(d.text.clone()),
            Bind::Bytes(hash_to_bytes(d.id).to_vec()),
        ]
    );
    let update = update_last_revealed(WALLET, u32::MAX, KeychainKind::Internal);
    assert_eq!(
        update.sql(),
        "UPDATE keychain SET last_revealed = $1 WHERE wallet_name = $2 AND keychainkind = $3"
    );
    assert_eq!(
        update.binds(),
        vec![
            Bind::Int(-1),
            Bind::Text(WALLET.to_string()),
            Bind::Text("Internal".to_string()),
        ]
    );
    let network = insert_network(WALLET, Network::Testnet4);
    assert_eq!(network.sql(), "INSERT INTO network (wallet_name, name) VALUES ($1, $2)");
    assert_eq!(
        network.binds(),
        vec![Bind::Text(WALLET.to_string()), Bind::Text("testnet4".to_string())]
    );
}

#[test]
fn graph_statements_bind() {
    let graph = graph();
    let text = |text: &str| Bind::Text(text.to_string());
    let (a, b) = (transaction(1000), transaction(2000));
    let statements = tx_graph_changeset_persist_to_postgres(WALLET, &graph).unwrap();
    let mut seen = [a.txid, b.txid];
    seen.sort();
    let expected = vec![
        vec![text(WALLET), text(&txid_text(a.txid)), Bind::Bytes(a.bytes.clone())],
        vec![text(WALLET), text(&txid_text(b.txid)), Bind::Bytes(b.bytes.clone())],
        vec![
            Bind::BigInt(graph.last_seen[&seen[0]] as i64),
            text(WALLET),
            text(&txid_text(seen[0])),
        ],
        vec![
            Bind::BigInt(graph.last_seen[&seen[1]] as i64),
            text(WALLET),
            text(&txid_text(seen[1])),
        ],
        vec![
            text(WALLET),
            text(&txid_text((7, 7))),
            Bind::Int(0),
            Bind::BigInt(5),
            Bind::Bytes(vec![0x51, 0x52]),
        ],
        vec![
            text(WALLET),
            text(&txid_text(a.txid)),
            Bind::Int(-1),
            Bind::BigInt(-1),
            Bind::Bytes(vec![]),
        ],
        vec![
            text(WALLET),
            text(&block_hash_text((0, 3))),
            Bind::Json(anchor_to_json(((3, (0, 3)), 100)).unwrap()),
            text(&txid_text(a.txid)),
        ],
        vec![
            text(WALLET),
            text(&block_hash_text((0, 4))),
            Bind::Json(anchor_to_json(((4, (0, 4)), 200)).unwrap()),
            text(&txid_text(b.txid)),
        ],
    ];
    let sql = [
        "INSERT INTO tx (wallet_name, txid, whole_tx) VALUES ($1, $2, $3)",
        "INSERT INTO tx (wallet_name, txid, whole_tx) VALUES ($1, $2, $3)",
        "UPDATE tx SET last_seen = $1 WHERE wallet_name = $2 AND txid = $3",
        "UPDATE tx SET last_seen = $1 WHERE wallet_name = $2 AND txid = $3",
        "INSERT INTO txout (wallet_name, txid, vout, value, script) VALUES ($1, $2, $3, $4, $5)",
        "INSERT INTO txout (wallet_name, txid, vout, value, script) VALUES ($1, $2, $3, $4, $5)",
        "INSERT INTO anchor_tx (wallet_name, block_hash, anchor, txid) VALUES ($1, $2, $3, $4)",
        "INSERT INTO anchor_tx (wallet_name, block_hash, anchor, txid) VALUES ($1, $2, $3, $4)",
    ];
    assert_eq!(statements.len(), expected.len());
    for ((statement, binds), sql) in statements.into_iter().zip(expected).zip(sql) {
        assert_eq!(statement.sql().lines().next(), Some(sql));
        assert_eq!(statement.binds(), binds);
    }
}

#[test]
fn chain_statements_go_up() {
    let changeset = LocalChainChangeSet {
        blocks: BTreeMap::from([(9, None), (2, Some((0, 2))), (0x8000_0000, Some((5, 5)))]),
    };
    let statements = local_chain_changeset_persist_to_postgres(WALLET, &changeset);
    assert_eq!(
        statements,
        vec![
            Statement::UpsertBlock {
                wallet_name: WALLET.to_string(),
                hash: block_hash_text((0, 2)),
                height: 2,
            },
            Statement::DeleteBlock { wallet_name: WALLET.to_string(), height: 9 },
            Statement::UpsertBlock {
                wallet_name: WALLET.to_string(),
                hash: block_hash_text((5, 5)),
                height: i32::MIN,
            },
        ]
    );
    let sql: Vec<&str> = statements.iter().map(|s| s.sql().lines().next().unwrap()).collect();
    assert_eq!(
        sql,
        [
            "INSERT INTO block (wallet_name, hash, height) VALUES ($1, $2, $3)",
            "DELETE FROM block WHERE wallet_name = $1 AND height = $2",
            "INSERT INTO block (wallet_name, hash, height) VALUES ($1, $2, $3)",
        ]
    );
    for (statement, count) in statements.into_iter().zip([3, 2, 3]) {
        assert_eq!(statement.binds().len(), count);
    }
}

#[test]
fn blocks_of_rows_at_one_height() {
    let row = |hash, height| BlockRow { hash: block_hash_text(hash), height };
    let rows = vec![row((1, 1), -1), row((2, 2), 3), row((3, 3), -1)];
    let changeset = local_chain_changeset_from_postgres(&rows).unwrap();
    assert_eq!(
        changeset.blocks,
        BTreeMap::from([(3, Some((2, 2))), (u32::MAX, Some((3, 3)))])
    );
    assert!(local_chain_changeset_from_postgres(&vec![]).unwrap().blocks.is_empty());
}

#[test]
fn block_row_without_a_hash_is_refused() {
    let rows = vec![
        BlockRow { hash: block_hash_text((1, 1)), height: 1 },
        BlockRow { hash: "genesis".to_string(), height: 0 },
    ];
    assert!(matches!(
        local_chain_changeset_from_postgres(&rows),
        Err(BdkSqlxError::HexToArray(_))
    ));
}

#[test]
fn graph_of_rows() {
    let (a, b) = (transaction(1000), transaction(2000));
    let row = |txid, whole_tx, last_seen| TxRow { txid: txid_text(txid), whole_tx, last_seen };
    let txs = vec![
        row(a.txid, Some(a.bytes.clone()), Some(1)),
        row((9, 9), None, Some(-1)),
        row((8, 8), Some(vec![1, 2, 3]), None),
        row(b.txid, Some(b.bytes.clone()), None),
        row((7, 7), Some(a.bytes.clone()), None),
        row(a.txid, None, Some(2)),
    ];
    let txouts = vec![
        TxOutRow { txid: txid_text((1, 1)), vout: 0, value: 1, script: vec![1] },
        TxOutRow { txid: txid_text((1, 1)), vout: -1, value: -1, script: vec![2] },
        TxOutRow { txid: txid_text((1, 1)), vout: 0, value: 3, script: vec![3] },
    ];
    let anchor = ((3, (0, 3)), 100);
    let anchors = vec![
        AnchorRow { anchor: anchor_to_json(anchor).unwrap(), txid: txid_text(a.txid) },
        AnchorRow { anchor: "{}".to_string(), txid: txid_text(b.txid) },
    ];
    let graph = tx_graph_changeset_from_postgres(&txs, &txouts, &anchors).unwrap();
    let id_a = a.txid;
    assert_eq!(
        graph,
        TxGraphChangeSet {
            txs: vec![a, b],
            txouts: BTreeMap::from([
                (((1, 1), 0), TxOut { value: 3, script_pubkey: vec![3] }),
                (((1, 1), u32::MAX), TxOut { value: u64::MAX, script_pubkey: vec![2] }),
            ]),
            anchors: BTreeSet::from([(anchor, id_a)]),
            last_seen: BTreeMap::from([(id_a, 2), ((9, 9), u64::MAX)]),
        }
    );
}

#[test]
fn row_without_a_transaction_id_is_refused() {
    let bad = || "txid".to_string();
    let txs = vec![TxRow { txid: bad(), whole_tx: None, last_seen: None }];
    let txouts = vec![TxOutRow { txid: bad(), vout: 0, value: 0, script: vec![] }];
    let anchors = vec![AnchorRow { anchor: "{}".to_string(), txid: bad() }];
    let (no_txs, no_txouts, no_anchors) = (vec![], vec![], vec![]);
    for r in [
        tx_graph_changeset_from_postgres(&txs, &no_txouts, &no_anchors),
        tx_graph_changeset_from_postgres(&no_txs, &txouts, &no_anchors),
        tx_graph_changeset_from_postgres(&no_txs, &no_txouts, &anchors),
    ] {
        assert!(matches!(r, Err(BdkSqlxError::HexToArray(_))));
    }
    let empty = tx_graph_changeset_from_postgres(&no_txs, &no_txouts, &no_anchors).unwrap();
    assert!(empty.is_empty());
}

#[test]
fn graph_is_read_step_by_step() {
    let mut database = Database::default();
    for statement in tx_graph_changeset_persist_to_postgres(WALLET, &graph()).unwrap() {
        database.execute(statement);
    }
    let state = TxGraphRead::Txs;
    assert_eq!(state.query(), Some("SELECT txid, whole_tx, last_seen FROM tx"));
    let state = state.step(TxGraphReply::Txs(database.tx_rows())).unwrap();
    assert_eq!(state.query(), Some("SELECT txid, vout, value, script FROM txout"));
    let state = state.step(TxGraphReply::TxOuts(database.txout_rows())).unwrap();
    assert_eq!(state.query(), Some("SELECT anchor, txid FROM anchor_tx"));
    let state = state.step(TxGraphReply::Anchors(database.anchor_rows())).unwrap();
    assert_eq!(state.query(), None);
    let at_once = tx_graph_changeset_from_postgres(
        &database.tx_rows(),
        &database.txout_rows(),
        &database.anchor_rows(),
    );
    assert_eq!(state, TxGraphRead::Done(at_once.unwrap()));
    assert_eq!(state, TxGraphRead::Done(graph()));
}

#[test]
fn step_with_a_bad_row_fails() {
    let rows = vec![TxRow { txid: String::new(), whole_tx: None, last_seen: None }];
    assert!(matches!(
        TxGraphRead::Txs.step(TxGraphReply::Txs(rows)),
        Err(BdkSqlxError::HexToArray(_))
    ));
}

#[test]
fn changeset_of_a_row() {
    let (external, internal) = (descriptor("0/*"), descriptor("1/*"));
    let row = WalletRow {
        network: "signet".to_string(),
        internal_descriptor: Some(internal.text.clone()),
        internal_last_revealed: None,
        external_descriptor: Some(external.text.clone()),
        external_last_revealed: Some(-1),
    };
    assert!(Store::can_read_row(&row));
    let changeset = Store::changeset_from_row(&row).unwrap();
    assert_eq!(changeset.network, Some(Network::Signet));
    assert_eq!(
        changeset.indexer.last_revealed,
        BTreeMap::from([(external.id, u32::MAX)])
    );
    assert_eq!(changeset.descriptor, Some(external));
    assert_eq!(changeset.change_descriptor, Some(internal));
    assert!(changeset.tx_graph.is_empty());
    assert!(changeset.local_chain.blocks.is_empty());
}

#[test]
fn last_revealed_of_one_descriptor_in_both_columns() {
    let d = descriptor("0/*");
    let row = WalletRow {
        network: "bitcoin".to_string(),
        internal_descriptor: Some(d.text.clone()),
        internal_last_revealed: Some(2),
        external_descriptor: Some(d.text.clone()),
        external_last_revealed: Some(1),
    };
    let changeset = Store::changeset_from_row(&row).unwrap();
    assert_eq!(changeset.indexer.last_revealed, BTreeMap::from([(d.id, 2)]));
}

#[test]
fn row_without_descriptors() {
    let row = WalletRow {
        network: "bitcoin".to_string(),
        internal_descriptor: None,
        internal_last_revealed: Some(2),
        external_descriptor: None,
        external_last_revealed: Some(1),
    };
    let changeset = Store::changeset_from_row(&row).unwrap();
    let mut expected = ChangeSet::empty();
    expected.network = Some(Network::Bitcoin);
    assert_eq!(changeset, expected);
}

#[test]
fn rows_that_cannot_be_read() {
    let hardened = format!("wpkh({XPUB}/0/*')");
    let row = |network: &str, external: Option<&str>, internal: Option<&str>| WalletRow {
        network: network.to_string(),
        internal_descriptor: internal.map(|text| text.to_string()),
        internal_last_revealed: None,
        external_descriptor: external.map(|text| text.to_string()),
        external_last_revealed: None,
    };
    for row in [
        row("moon", None, None),
        row("bitcoin", Some(&hardened), None),
        row("bitcoin", None, Some(&hardened)),
        row("bitcoin", Some(&hardened), Some("wpkh()")),
    ] {
        assert!(!Store::can_read_row(&row));
        let reply = WalletReply::Wallet(Some(row));
        assert!(matches!(Store::migrate_and_read(WalletRead::Wallet, reply), Ok(None)));
    }
    for row in [
        row("bitcoin", Some("wpkh()"), Some(&hardened)),
        row("bitcoin", Some("wpkh()"), None),
        row("bitcoin", None, Some("wpkh()")),
    ] {
        assert!(Store::can_read_row(&row));
        assert!(matches!(
            Store::changeset_from_row(&row),
            Err(BdkSqlxError::Miniscript(_))
        ));
        let reply = WalletReply::Wallet(Some(row));
        assert!(matches!(
            Store::migrate_and_read(WalletRead::Wallet, reply),
            Err(BdkSqlxError::Miniscript(_))
        ));
    }
}

#[test]
fn bad_block_row_fails_the_read() {
    let rows = vec![BlockRow { hash: "00".to_string(), height: 0 }];
    assert!(matches!(
        Store::migrate_and_read(
            WalletRead::LocalChain(ChangeSet::empty()),
            WalletReply::Blocks(rows)
        ),
        Err(BdkSqlxError::HexToArray(_))
    ));
}

#[test]
fn reading_starts_with_a_migration_if_wanted() {
    let store = Store::new_with_url(None).unwrap();
    assert_eq!(store.initialize(), WalletRead::Migrate);
    assert_eq!(store.next_action(&WalletRead::Migrate), WalletAction::Migrate);
    let state = Store::migrate_and_read(WalletRead::Migrate, WalletReply::Migrated).unwrap();
    assert_eq!(state, Some(WalletRead::Wallet));
    let store = Store::new(None, false).unwrap();
    assert_eq!(store.initialize(), WalletRead::Wallet);
}

#[test]
fn only_the_query_for_the_wallet_binds_its_name() {
    let store = store();
    let bind_of = |state: &WalletRead| match store.next_action(state) {
        WalletAction::Query { bind, .. } => bind,
        action => panic!("{action:?}"),
    };
    assert_eq!(bind_of(&WalletRead::Wallet), Some(WALLET.to_string()));
    assert_eq!(bind_of(&WalletRead::TxGraph(ChangeSet::empty(), TxGraphRead::Txs)), None);
    assert_eq!(bind_of(&WalletRead::LocalChain(ChangeSet::empty())), None);
}

#[test]
fn wallet_that_is_not_there_is_empty() {
    let mut database = Database::default();
    database.write(&store(), &first());
    let other = Store::new_with_url(Some("other".to_string())).unwrap();
    let (changeset, queries) = database.read(&other);
    assert!(changeset.is_empty());
    assert_eq!(queries.len(), 1);
    assert!(queries[0].starts_with("SELECT n.name as network,"));
    assert!(queries[0].ends_with("WHERE n.wallet_name = $1"));
}

#[test]
fn first_changeset_is_read_back() {
    let mut database = Database::default();
    database.write(&store(), &first());
    let (mut changeset, queries) = database.read(&store());
    changeset.tx_graph = sorted(changeset.tx_graph);
    assert_eq!(changeset, first());
    assert_eq!(
        queries[1..],
        [
            "SELECT txid, whole_tx, last_seen FROM tx",
            "SELECT txid, vout, value, script FROM txout",
            "SELECT anchor, txid FROM anchor_tx",
            "SELECT hash, height FROM block",
        ]
    );
}

#[test]
fn order_of_rows_does_not_matter() {
    let mut database = Database::default();
    database.write(&store(), &first());
    database.tx.reverse();
    database.txout.reverse();
    database.anchor_tx.reverse();
    database.block.reverse();
    let (mut changeset, _) = database.read(&store());
    changeset.tx_graph = sorted(changeset.tx_graph);
    assert_eq!(changeset, first());
}

#[test]
fn later_changes_are_read_back_with_the_first() {
    let mut database = Database::default();
    database.write(&store(), &first());

    let c = transaction(3000);
    let a_id = transaction(1000).txid;
    let mut later = ChangeSet::empty();
    later.indexer.last_revealed.insert(descriptor("0/*").id, 50);
    later.local_chain.blocks = BTreeMap::from([(4, None), (5, Some((0, 5)))]);
    later.tx_graph.last_seen = BTreeMap::from([(a_id, 7), (c.txid, 8), ((6, 6), 9)]);
    later.tx_graph.txouts =
        BTreeMap::from([(((7, 7), 0), TxOut { value: 6, script_pubkey: vec![] })]);
    later.tx_graph.anchors = BTreeSet::from([(((3, (0, 3)), 101), a_id), (((5, (0, 5)), 1), a_id)]);
    later.tx_graph.txs = vec![transaction(3000)];
    database.write(&store(), &later);

    let mut expected = first();
    expected.local_chain.blocks.remove(&4);
    expected.local_chain.blocks.insert(5, Some((0, 5)));
    expected.tx_graph.last_seen.insert(a_id, 7);
    expected.tx_graph.last_seen.insert(c.txid, 8);
    expected.tx_graph.txouts.insert(((7, 7), 0), TxOut { value: 6, script_pubkey: vec![] });
    expected.tx_graph.anchors.remove(&(((3, (0, 3)), 100), a_id));
    expected.tx_graph.anchors.insert((((3, (0, 3)), 101), a_id));
    expected.tx_graph.anchors.insert((((5, (0, 5)), 1), a_id));
    expected.tx_graph.txs.push(c);
    expected.tx_graph = sorted(expected.tx_graph);

    let (mut changeset, _) = database.read(&store());
    changeset.tx_graph = sorted(changeset.tx_graph);
    assert_eq!(changeset, expected);
}

#[test]
fn writing_again_changes_nothing() {
    let mut database = Database::default();
    database.write(&store(), &first());
    let mut same = Database::default();
    same.write(&store(), &first());
    let mut again = first();
    again.descriptor = None;
    again.change_descriptor = None;
    again.network = None;
    same.write(&store(), &again);
    assert_eq!(same, database);
}

#[test]
fn writing_one_wallet_leaves_the_rows_of_another() {
    let mut database = Database::default();
    database.write(&store(), &first());
    let mut changes = first();
    changes.local_chain.blocks.insert(4, None);
    database.write(&Store::new_with_url(Some("other".to_string())).unwrap(), &changes);
    assert_eq!(database.block.len(), 5);

    database.keychain.retain(|key, _| key.0 == WALLET);
    database.network.retain(|name, _| name == WALLET);
    database.tx.retain(|row| row.0 .0 == WALLET);
    database.txout.retain(|row| row.0 .0 == WALLET);
    database.anchor_tx.retain(|row| row.0 .0 == WALLET);
    database.block.retain(|row| row.0 .0 == WALLET);
    let mut alone = Database::default();
    alone.write(&store(), &first());
    assert_eq!(database, alone);
}

#[test]
fn wallets_are_read_together() {
    let other = Store::new(Some("other".to_string()), false).unwrap();
    let a_id = transaction(1000).txid;
    let mut foreign = ChangeSet::empty();
    foreign.network = Some(Network::Bitcoin);
    foreign.descriptor = Some(descriptor("7/*"));
    foreign.local_chain.blocks = BTreeMap::from([(4, Some((9, 9))), (8, Some((8, 8)))]);
    foreign.tx_graph.txs = vec![transaction(1000), transaction(3000)];
    foreign.tx_graph.last_seen = BTreeMap::from([(a_id, 11), (transaction(3000).txid, 12)]);
    foreign.tx_graph.txouts =
        BTreeMap::from([(((7, 7), 0), TxOut { value: 1, script_pubkey: vec![] })]);
    foreign.tx_graph.anchors = BTreeSet::from([(((4, (9, 9)), 1), a_id)]);

    let mut union = first();
    union.local_chain.blocks.insert(8, Some((8, 8)));
    union.tx_graph.txs.push(transaction(3000));
    union.tx_graph = sorted(union.tx_graph);
    union.tx_graph.last_seen.insert(transaction(3000).txid, 12);
    union.tx_graph.anchors.insert((((4, (9, 9)), 1), a_id));

    let mut database = Database::default();
    database.write(&other, &foreign);
    database.write(&store(), &first());
    let (mut own_last, _) = database.read(&store());
    own_last.tx_graph = sorted(own_last.tx_graph);
    assert_eq!(own_last, union);

    let mut database = Database::default();
    database.write(&store(), &first());
    database.write(&other, &foreign);
    let (mut own_first, _) = database.read(&store());
    own_first.tx_graph = sorted(own_first.tx_graph);
    union.local_chain.blocks.insert(4, Some((9, 9)));
    union.tx_graph.last_seen.insert(a_id, 11);
    union.tx_graph.txouts.insert(((7, 7), 0), TxOut { value: 1, script_pubkey: vec![] });
    assert_eq!(own_first, union);
}

#[test]
fn writing_twice_is_writing_once() {
    let mut changes = ChangeSet::empty();
    changes.local_chain.blocks =
        BTreeMap::from([(0, None), (1, Some((1, 1))), (2, None), (3, Some((1, 1)))]);
    changes.tx_graph = graph();
    changes.tx_graph.anchors.insert((((3, (0, 3)), 101), transaction(1000).txid));
    let mut once = Database::default();
    once.write(&store(), &first());
    once.write(&store(), &changes);
    let mut twice = Database::default();
    twice.write(&store(), &first());
    twice.write(&store(), &changes);
    twice.write(&store(), &changes);
    assert_eq!(twice, once);
}

#[test]
fn dropping_leaves_no_listed_table() {
    let mut tables = BTreeSet::from(["network", "tx", "psbts", "invoices"]);
    for _ in 0..2 {
        for statement in drop_all() {
            let table = statement.strip_prefix("DROP TABLE IF EXISTS ").unwrap();
            tables.remove(table);
        }
        assert_eq!(tables, BTreeSet::from(["invoices"]));
    }
}

#[test]
fn tables_are_dropped_in_order() {
    let statements = drop_all();
    assert_eq!(statements.len(), 15);
    assert_eq!(statements[0], "DROP TABLE IF EXISTS _sqlx_migrations");
    assert_eq!(
        statements[9..],
        [
            "DROP TABLE IF EXISTS anchor_tx",
            "DROP TABLE IF EXISTS txout",
            "DROP TABLE IF EXISTS tx",
            "DROP TABLE IF EXISTS block",
            "DROP TABLE IF EXISTS keychain",
            "DROP TABLE IF EXISTS network",
        ]
    );
}

#[test]
fn backup_selects_all_keychains() {
    assert_eq!(easy_backup(), "SELECT * FROM keychain");
}
