//! What the texts of the statements and queries mean: a text is that of a command on tables with
//! named columns, and running the command with the values that are bound is what the statement does
//! to the tables.

use vstd::prelude::*;

use crate::statement::{
    keychain_name, statement_binds, statement_sql, Bind, KeychainKind, Statement, DELETE_BLOCK,
    INSERT_KEYCHAIN, INSERT_NETWORK, UPDATE_LAST_REVEALED, UPDATE_LAST_SEEN, UPSERT_ANCHOR,
    UPSERT_BLOCK, UPSERT_TX, UPSERT_TXOUT,
};
use crate::tables::{KeychainRecord, Tables, TxOutRecord, TxRecord};

verus! {

/// The tables of the database.
pub enum Table {
    Keychain,
    Network,
    Tx,
    TxOut,
    AnchorTx,
    Block,
}

/// The columns of the tables.
pub enum Column {
    WalletName,
    Keychainkind,
    Descriptor,
    DescriptorId,
    LastRevealed,
    Name,
    Txid,
    WholeTx,
    LastSeen,
    Vout,
    Value,
    Script,
    BlockHash,
    Anchor,
    BlockId,
    Height,
}

/// The name of a table.
pub open spec fn table_name(table: Table) -> Seq<char> {
    match table {
        Table::Keychain => "keychain"@,
        Table::Network => "network"@,
        Table::Tx => "tx"@,
        Table::TxOut => "txout"@,
        Table::AnchorTx => "anchor_tx"@,
        Table::Block => "block"@,
    }
}

/// The name of a column.
pub open spec fn column_name(column: Column) -> Seq<char> {
    match column {
        Column::WalletName => "wallet_name"@,
        Column::Keychainkind => "keychainkind"@,
        Column::Descriptor => "descriptor"@,
        Column::DescriptorId => "descriptor_id"@,
        Column::LastRevealed => "last_revealed"@,
        Column::Name => "name"@,
        Column::Txid => "txid"@,
        Column::WholeTx => "whole_tx"@,
        Column::LastSeen => "last_seen"@,
        Column::Vout => "vout"@,
        Column::Value => "value"@,
        Column::Script => "script"@,
        Column::BlockHash => "block_hash"@,
        Column::Anchor => "anchor"@,
        Column::BlockId => "hash"@,
        Column::Height => "height"@,
    }
}

/// The columns by which a row of a table is told from the others.
pub open spec fn table_key(table: Table) -> Seq<Column> {
    match table {
        Table::Keychain => seq![Column::WalletName, Column::Keychainkind],
        Table::Network => seq![Column::WalletName],
        Table::Tx => seq![Column::WalletName, Column::Txid],
        Table::TxOut => seq![Column::WalletName, Column::Txid, Column::Vout],
        Table::AnchorTx => seq![Column::WalletName, Column::BlockHash, Column::Txid],
        Table::Block => seq![Column::WalletName, Column::BlockId],
    }
}

/// What stands in a column of a row.
pub type Cell = Bind<Seq<char>, Seq<u8>>;

/// A row, by its columns. A column that is not there is null.
pub type Row = Map<Column, Cell>;

/// A column and the number of the parameter that it is set to or compared with.
pub type Pairing = (Column, int);

/// What a conflict does: on a row with the same values in the columns `keys`, that row is changed.
pub struct OnConflict {
    /// What stands between the two lines of the text.
    pub gap: Seq<char>,
    pub keys: Seq<Column>,
    pub sets: Seq<Pairing>,
}

/// A command that changes a table.
pub enum Command {
    /// Insert a row, with the parameters in the order of the columns.
    Insert { table: Table, columns: Seq<Column>, on_conflict: Option<OnConflict> },
    /// Set columns in the rows that fit.
    Update { table: Table, sets: Seq<Pairing>, filter: Seq<Pairing> },
    /// Delete the rows that fit.
    Delete { table: Table, filter: Seq<Pairing> },
}

impl Command {
    /// The table that the command changes.
    pub open spec fn table(self) -> Table {
        match self {
            Command::Insert { table, .. } => table,
            Command::Update { table, .. } => table,
            Command::Delete { table, .. } => table,
        }
    }
}

/// How a parameter is written.
pub open spec fn parameter(number: int) -> Seq<char> {
    "$"@.push(('0' as int + number) as char)
}

/// The first parameters, as a list.
pub open spec fn parameters_text(count: int) -> Seq<char>
    decreases count,
{
    if count <= 1 {
        parameter(1)
    } else {
        parameters_text(count - 1) + ", "@ + parameter(count)
    }
}

/// The first columns, as a list.
pub open spec fn columns_text(columns: Seq<Column>, count: int) -> Seq<char>
    decreases count,
{
    if count <= 1 {
        column_name(columns[0])
    } else {
        columns_text(columns, count - 1) + ", "@ + column_name(columns[count - 1])
    }
}

/// The first pairings, with something between them.
pub open spec fn pairings_text(pairings: Seq<Pairing>, count: int, between: Seq<char>) -> Seq<char>
    decreases count,
{
    let (column, number) = pairings[count - 1];
    let last = column_name(column) + " = "@ + parameter(number);
    if count <= 1 {
        last
    } else {
        pairings_text(pairings, count - 1, between) + between + last
    }
}

/// The text of a command.
pub open spec fn command_text(command: Command) -> Seq<char> {
    match command {
        Command::Insert { table, columns, on_conflict } => {
            let insert = "INSERT INTO "@ + table_name(table) + " ("@ + columns_text(
                columns,
                columns.len() as int,
            ) + ") VALUES ("@ + parameters_text(columns.len() as int) + ")"@;
            match on_conflict {
                Some(c) => insert + c.gap + "ON CONFLICT ("@ + columns_text(
                    c.keys,
                    c.keys.len() as int,
                ) + ") DO UPDATE SET "@ + pairings_text(c.sets, c.sets.len() as int, ", "@),
                None => insert,
            }
        },
        Command::Update { table, sets, filter } => "UPDATE "@ + table_name(table) + " SET "@
            + pairings_text(sets, sets.len() as int, ", "@) + " WHERE "@ + pairings_text(
            filter,
            filter.len() as int,
            " AND "@,
        ),
        Command::Delete { table, filter } => "DELETE FROM "@ + table_name(table) + " WHERE "@
            + pairings_text(filter, filter.len() as int, " AND "@),
    }
}

/// The row with the first values in the first columns.
pub open spec fn new_row(columns: Seq<Column>, values: Seq<Cell>, count: int) -> Row
    decreases count,
{
    if count <= 0 {
        Map::empty()
    } else {
        new_row(columns, values, count - 1).insert(columns[count - 1], values[count - 1])
    }
}

/// The row with columns set to the values of their parameters, by the first pairings.
pub open spec fn with_sets(row: Row, sets: Seq<Pairing>, values: Seq<Cell>, count: int) -> Row
    decreases count,
{
    if count <= 0 {
        row
    } else {
        let (column, number) = sets[count - 1];
        with_sets(row, sets, values, count - 1).insert(column, values[number - 1])
    }
}

/// Whether the row has in columns the values of their parameters, by the first pairings.
pub open spec fn fits_filter(row: Row, filter: Seq<Pairing>, values: Seq<Cell>, count: int) -> bool
    decreases count,
{
    if count <= 0 {
        true
    } else {
        let (column, number) = filter[count - 1];
        fits_filter(row, filter, values, count - 1) && row.contains_key(column) && row[column]
            == values[number - 1]
    }
}

/// Whether two rows have the same values in the first columns.
pub open spec fn same_values(a: Row, b: Row, columns: Seq<Column>, count: int) -> bool
    decreases count,
{
    if count <= 0 {
        true
    } else {
        let column = columns[count - 1];
        same_values(a, b, columns, count - 1) && a.contains_key(column) && b.contains_key(column)
            && a[column] == b[column]
    }
}

/// What a conflict with the row `new` does to a row.
pub open spec fn on_conflict_change(c: OnConflict, new: Row, values: Seq<Cell>) -> spec_fn(
    Row,
) -> Row {
    |row: Row|
        if same_values(row, new, c.keys, c.keys.len() as int) {
            with_sets(row, c.sets, values, c.sets.len() as int)
        } else {
            row
        }
}

/// What an update does to a row.
pub open spec fn update_change(
    sets: Seq<Pairing>,
    filter: Seq<Pairing>,
    values: Seq<Cell>,
) -> spec_fn(Row) -> Row {
    |row: Row|
        if fits_filter(row, filter, values, filter.len() as int) {
            with_sets(row, sets, values, sets.len() as int)
        } else {
            row
        }
}

/// Whether a deletion keeps a row.
pub open spec fn delete_keeps(filter: Seq<Pairing>, values: Seq<Cell>) -> spec_fn(Row) -> bool {
    |row: Row| !fits_filter(row, filter, values, filter.len() as int)
}

/// The rows of its table after a command with the given values, or `None` where it is refused. An
/// insertion is, where a row has the same key and nothing is said of conflicts.
pub open spec fn run(command: Command, values: Seq<Cell>, rows: Set<Row>) -> Option<Set<Row>> {
    match command {
        Command::Insert { table, columns, on_conflict } => {
            let new = new_row(columns, values, columns.len() as int);
            let keys = match on_conflict {
                Some(c) => c.keys,
                None => table_key(table),
            };
            if !(exists|row: Row| #[trigger]
                rows.contains(row) && same_values(row, new, keys, keys.len() as int)) {
                Some(rows.insert(new))
            } else {
                match on_conflict {
                    Some(c) => Some(rows.map(on_conflict_change(c, new, values))),
                    None => None,
                }
            }
        },
        Command::Update { table, sets, filter } => Some(
            rows.map(update_change(sets, filter, values)),
        ),
        Command::Delete { table, filter } => Some(rows.filter(delete_keeps(filter, values))),
    }
}

/// A row with a value in a column, or null there.
pub open spec fn with_cell(row: Row, column: Column, cell: Option<Cell>) -> Row {
    match cell {
        Some(cell) => row.insert(column, cell),
        None => row,
    }
}

/// The row of `keychain` with the given key.
pub open spec fn keychain_row(key: (Seq<char>, KeychainKind), record: KeychainRecord) -> Row {
    let row: Row = map![
        Column::WalletName => Bind::Text(key.0),
        Column::Keychainkind => Bind::Text(keychain_name(key.1)),
        Column::Descriptor => Bind::Text(record.descriptor),
        Column::DescriptorId => Bind::Bytes(record.descriptor_id),
    ];
    with_cell(
        row,
        Column::LastRevealed,
        match record.last_revealed {
            Some(index) => Some(Bind::Int(index)),
            None => None,
        },
    )
}

/// The row of `network` with the given key.
pub open spec fn network_row(key: Seq<char>, name: Seq<char>) -> Row {
    map![Column::WalletName => Bind::Text(key), Column::Name => Bind::Text(name)]
}

/// The row of `tx` with the given key.
pub open spec fn tx_row(key: (Seq<char>, Seq<char>), record: TxRecord) -> Row {
    let row: Row = map![
        Column::WalletName => Bind::Text(key.0),
        Column::Txid => Bind::Text(key.1),
    ];
    with_cell(
        with_cell(
            row,
            Column::WholeTx,
            match record.whole_tx {
                Some(bytes) => Some(Bind::Bytes(bytes)),
                None => None,
            },
        ),
        Column::LastSeen,
        match record.last_seen {
            Some(time) => Some(Bind::BigInt(time)),
            None => None,
        },
    )
}

/// The row of `txout` with the given key.
pub open spec fn txout_row(key: (Seq<char>, Seq<char>, i32), record: TxOutRecord) -> Row {
    map![
        Column::WalletName => Bind::Text(key.0),
        Column::Txid => Bind::Text(key.1),
        Column::Vout => Bind::Int(key.2),
        Column::Value => Bind::BigInt(record.value),
        Column::Script => Bind::Bytes(record.script),
    ]
}

/// The row of `anchor_tx` with the given key.
pub open spec fn anchor_row(key: (Seq<char>, Seq<char>, Seq<char>), anchor: Seq<char>) -> Row {
    map![
        Column::WalletName => Bind::Text(key.0),
        Column::BlockHash => Bind::Text(key.1),
        Column::Anchor => Bind::Json(anchor),
        Column::Txid => Bind::Text(key.2),
    ]
}

/// The row of `block` with the given key.
pub open spec fn block_row(key: (Seq<char>, Seq<char>), height: i32) -> Row {
    map![
        Column::WalletName => Bind::Text(key.0),
        Column::BlockId => Bind::Text(key.1),
        Column::Height => Bind::Int(height),
    ]
}

/// The rows for the entries of a map.
pub open spec fn rows_for<K, V>(entries: Map<K, V>, row: spec_fn(K, V) -> Row) -> Set<Row> {
    Set::new(|r: Row| exists|key: K| #[trigger] entries.contains_key(key) && r == row(key, entries[key]))
}

/// The rows of a table.
pub open spec fn table_rows(tables: Tables, table: Table) -> Set<Row> {
    match table {
        Table::Keychain => rows_for(
            tables.keychain,
            |key: (Seq<char>, KeychainKind), record: KeychainRecord| keychain_row(key, record),
        ),
        Table::Network => rows_for(
            tables.network,
            |key: Seq<char>, name: Seq<char>| network_row(key, name),
        ),
        Table::Tx => rows_for(
            tables.tx,
            |key: (Seq<char>, Seq<char>), record: TxRecord| tx_row(key, record),
        ),
        Table::TxOut => rows_for(
            tables.txout,
            |key: (Seq<char>, Seq<char>, i32), record: TxOutRecord| txout_row(key, record),
        ),
        Table::AnchorTx => rows_for(
            tables.anchor_tx,
            |key: (Seq<char>, Seq<char>, Seq<char>), anchor: Seq<char>| anchor_row(key, anchor),
        ),
        Table::Block => rows_for(
            tables.block,
            |key: (Seq<char>, Seq<char>), height: i32| block_row(key, height),
        ),
    }
}

/// The command that a statement is.
pub open spec fn statement_command(statement: Statement<Seq<char>, Seq<u8>>) -> Command {
    match statement {
        Statement::InsertKeychain { .. } => Command::Insert {
            table: Table::Keychain,
            columns: seq![
                Column::WalletName,
                Column::Keychainkind,
                Column::Descriptor,
                Column::DescriptorId,
            ],
            on_conflict: None,
        },
        Statement::UpdateLastRevealed { .. } => Command::Update {
            table: Table::Keychain,
            sets: seq![(Column::LastRevealed, 1int)],
            filter: seq![(Column::WalletName, 2int), (Column::Keychainkind, 3int)],
        },
        Statement::InsertNetwork { .. } => Command::Insert {
            table: Table::Network,
            columns: seq![Column::WalletName, Column::Name],
            on_conflict: None,
        },
        Statement::UpsertTx { .. } => Command::Insert {
            table: Table::Tx,
            columns: seq![Column::WalletName, Column::Txid, Column::WholeTx],
            on_conflict: Some(
                OnConflict {
                    gap: "\n             "@,
                    keys: seq![Column::WalletName, Column::Txid],
                    sets: seq![(Column::WholeTx, 3int)],
                },
            ),
        },
        Statement::UpdateLastSeen { .. } => Command::Update {
            table: Table::Tx,
            sets: seq![(Column::LastSeen, 1int)],
            filter: seq![(Column::WalletName, 2int), (Column::Txid, 3int)],
        },
        Statement::UpsertTxOut { .. } => Command::Insert {
            table: Table::TxOut,
            columns: seq![
                Column::WalletName,
                Column::Txid,
                Column::Vout,
                Column::Value,
                Column::Script,
            ],
            on_conflict: Some(
                OnConflict {
                    gap: "\n             "@,
                    keys: seq![Column::WalletName, Column::Txid, Column::Vout],
                    sets: seq![(Column::Value, 4int), (Column::Script, 5int)],
                },
            ),
        },
        Statement::UpsertAnchor { .. } => Command::Insert {
            table: Table::AnchorTx,
            columns: seq![Column::WalletName, Column::BlockHash, Column::Anchor, Column::Txid],
            on_conflict: Some(
                OnConflict {
                    gap: "\n             "@,
                    keys: seq![Column::WalletName, Column::BlockHash, Column::Txid],
                    sets: seq![(Column::Anchor, 3int)],
                },
            ),
        },
        Statement::UpsertBlock { .. } => Command::Insert {
            table: Table::Block,
            columns: seq![Column::WalletName, Column::BlockId, Column::Height],
            on_conflict: Some(
                OnConflict {
                    gap: "\n                     "@,
                    keys: seq![Column::WalletName, Column::BlockId],
                    sets: seq![(Column::Height, 3int)],
                },
            ),
        },
        Statement::DeleteBlock { .. } => Command::Delete {
            table: Table::Block,
            filter: seq![(Column::WalletName, 1int), (Column::Height, 2int)],
        },
    }
}

/// An entry more, under a key that is not there, is a row more.
proof fn lemma_entry_inserted<K, V>(
    entries: Map<K, V>,
    row: spec_fn(K, V) -> Row,
    key: K,
    value: V,
)
    requires
        !entries.contains_key(key),
    ensures
        rows_for(entries.insert(key, value), row) == rows_for(entries, row).insert(
            row(key, value),
        ),
{
    let longer = entries.insert(key, value);
    assert forall|r: Row|
        rows_for(longer, row).contains(r) <==> rows_for(entries, row).insert(
            row(key, value),
        ).contains(r) by {
        if rows_for(longer, row).contains(r) {
            let k = choose|k: K| #[trigger] longer.contains_key(k) && r == row(k, longer[k]);
            if k != key {
                assert(entries.contains_key(k));
            }
        }
        if rows_for(entries, row).contains(r) {
            let k = choose|k: K| #[trigger] entries.contains_key(k) && r == row(k, entries[k]);
            assert(longer.contains_key(k));
        }
        if r == row(key, value) {
            assert(longer.contains_key(key));
        }
    }
    assert(rows_for(longer, row) =~= rows_for(entries, row).insert(row(key, value)));
}

/// Another value under a key is another row in the place of its row.
proof fn lemma_entry_changed<K, V>(
    entries: Map<K, V>,
    row: spec_fn(K, V) -> Row,
    key: K,
    value: V,
    change: spec_fn(Row) -> Row,
)
    requires
        entries.contains_key(key),
        forall|k: K| #[trigger]
            entries.contains_key(k) ==> change(row(k, entries[k])) == if k == key {
                row(key, value)
            } else {
                row(k, entries[k])
            },
    ensures
        rows_for(entries.insert(key, value), row) == rows_for(entries, row).map(change),
{
    let changed = entries.insert(key, value);
    let rows = rows_for(entries, row);
    assert forall|r: Row| rows_for(changed, row).contains(r) <==> rows.map(change).contains(r) by {
        if rows_for(changed, row).contains(r) {
            let k = choose|k: K| #[trigger] changed.contains_key(k) && r == row(k, changed[k]);
            assert(entries.contains_key(k));
            assert(rows.contains(row(k, entries[k])));
        }
        if rows.map(change).contains(r) {
            let q = choose|q: Row| rows.contains(q) && r == change(q);
            let k = choose|k: K| #[trigger] entries.contains_key(k) && q == row(k, entries[k]);
            assert(changed.contains_key(k));
        }
    }
    assert(rows_for(changed, row) =~= rows.map(change));
}

/// A change that changes no row leaves the rows.
proof fn lemma_nothing_changed<K, V>(
    entries: Map<K, V>,
    row: spec_fn(K, V) -> Row,
    change: spec_fn(Row) -> Row,
)
    requires
        forall|k: K| #[trigger]
            entries.contains_key(k) ==> change(row(k, entries[k])) == row(k, entries[k]),
    ensures
        rows_for(entries, row) == rows_for(entries, row).map(change),
{
    let rows = rows_for(entries, row);
    assert forall|r: Row| rows.contains(r) <==> rows.map(change).contains(r) by {
        if rows.contains(r) {
            let k = choose|k: K| #[trigger] entries.contains_key(k) && r == row(k, entries[k]);
            assert(change(r) == r);
        }
        if rows.map(change).contains(r) {
            let q = choose|q: Row| rows.contains(q) && r == change(q);
            let k = choose|k: K| #[trigger] entries.contains_key(k) && q == row(k, entries[k]);
            assert(change(q) == q);
        }
    }
    assert(rows =~= rows.map(change));
}

/// Fewer entries are fewer rows.
proof fn lemma_entries_kept<K, V>(
    entries: Map<K, V>,
    kept: Map<K, V>,
    row: spec_fn(K, V) -> Row,
    keep: spec_fn(Row) -> bool,
)
    requires
        forall|k: K| #[trigger] kept.contains_key(k) ==> entries.contains_key(k) && kept[k]
            == entries[k],
        forall|k: K| #[trigger]
            entries.contains_key(k) ==> keep(row(k, entries[k])) == kept.contains_key(k),
    ensures
        rows_for(kept, row) == rows_for(entries, row).filter(keep),
{
    let rows = rows_for(entries, row);
    assert forall|r: Row| rows_for(kept, row).contains(r) <==> rows.filter(keep).contains(r) by {
        if rows_for(kept, row).contains(r) {
            let k = choose|k: K| #[trigger] kept.contains_key(k) && r == row(k, kept[k]);
            assert(entries.contains_key(k));
        }
        if rows.filter(keep).contains(r) {
            let k = choose|k: K| #[trigger] entries.contains_key(k) && r == row(k, entries[k]);
            assert(kept.contains_key(k));
        }
    }
    assert(rows_for(kept, row) =~= rows.filter(keep));
}

/// Keychains have different names.
proof fn lemma_keychain_names_differ()
    ensures
        keychain_name(KeychainKind::External) != keychain_name(KeychainKind::Internal),
{
    reveal_strlit("External");
    reveal_strlit("Internal");
    assert("External"@[0] == 'E');
    assert("Internal"@[0] == 'I');
}

/// Whether running the statement's command with the values that it binds does what the statement
/// does.
pub open spec fn runs_as(tables: Tables, statement: Statement<Seq<char>, Seq<u8>>) -> bool {
    let command = statement_command(statement);
    let run = run(command, statement_binds(statement), table_rows(tables, command.table()));
    match tables.apply(statement) {
        Some(after) => run == Some(table_rows(after, command.table())) && forall|table: Table|
            table != command.table() ==> #[trigger] table_rows(after, table) == table_rows(
                tables,
                table,
            ),
        None => run is None,
    }
}

/// Inserting a keychain runs as it should.
proof fn lemma_insert_keychain_runs(
    tables: Tables,
    wallet_name: Seq<char>,
    keychainkind: KeychainKind,
    descriptor: Seq<char>,
    descriptor_id: Seq<u8>,
)
    ensures
        runs_as(
            tables,
            Statement::InsertKeychain { wallet_name, keychainkind, descriptor, descriptor_id },
        ),
{
    let s: Statement<Seq<char>, Seq<u8>> = Statement::InsertKeychain {
        wallet_name,
        keychainkind,
        descriptor,
        descriptor_id,
    };
    lemma_keychain_names_differ();
    reveal_with_fuel(new_row, 6);
    reveal_with_fuel(same_values, 6);
    let f = |key: (Seq<char>, KeychainKind), record: KeychainRecord| keychain_row(key, record);
    let key = (wallet_name, keychainkind);
    let record = KeychainRecord { descriptor, descriptor_id, last_revealed: None };
    let command = statement_command(s);
    let values = statement_binds(s);
    let row = new_row(command->columns, values, 4);
    assert(row =~= keychain_row(key, record));
    let rows = table_rows(tables, Table::Keychain);
    let keys = table_key(Table::Keychain);
    if tables.keychain.contains_key(key) {
        let other = keychain_row(key, tables.keychain[key]);
        assert(rows.contains(other));
        assert(same_values(other, row, keys, 2));
    } else {
        assert forall|other: Row| #[trigger] rows.contains(other) implies !same_values(
            other,
            row,
            keys,
            2,
        ) by {
            let k = choose|k: (Seq<char>, KeychainKind)| #[trigger]
                tables.keychain.contains_key(k) && other == f(k, tables.keychain[k]);
            assert(k != key);
        }
        lemma_entry_inserted(tables.keychain, f, key, record);
    }
}

/// Inserting a transaction, or replacing its bytes, runs as it should.
proof fn lemma_upsert_tx_runs(
    tables: Tables,
    wallet_name: Seq<char>,
    txid: Seq<char>,
    whole_tx: Seq<u8>,
)
    ensures
        runs_as(tables, Statement::UpsertTx { wallet_name, txid, whole_tx }),
{
    let s: Statement<Seq<char>, Seq<u8>> = Statement::UpsertTx { wallet_name, txid, whole_tx };
    reveal_with_fuel(new_row, 6);
    reveal_with_fuel(same_values, 6);
    reveal_with_fuel(with_sets, 6);
    let f = |key: (Seq<char>, Seq<char>), value: TxRecord| tx_row(key, value);
    let entries = tables.tx;
    let key = (wallet_name, txid);
    let command = statement_command(s);
    let values = statement_binds(s);
    let new = new_row(command->columns, values, 3);
    let c = command->on_conflict->0;
    let rows = table_rows(tables, Table::Tx);
    assert forall|k: (Seq<char>, Seq<char>)| #[trigger] entries.contains_key(k) implies (k == key
        <==> same_values(tx_row(k, entries[k]), new, c.keys, 2)) by {}
    if entries.contains_key(key) {
        let old = tx_row(key, entries[key]);
        assert(rows.contains(old));
        assert(same_values(old, new, c.keys, 2));
        let value = TxRecord { whole_tx: Some(whole_tx), ..entries[key] };
        let change = on_conflict_change(c, new, values);
        assert(with_sets(old, c.sets, values, 1) =~= tx_row(key, value));
        assert forall|k: (Seq<char>, Seq<char>)| #[trigger] entries.contains_key(k) implies change(
            f(k, entries[k]),
        ) == if k == key {
            f(key, value)
        } else {
            f(k, entries[k])
        } by {}
        lemma_entry_changed(entries, f, key, value, change);
    } else {
        let value = TxRecord { whole_tx: Some(whole_tx), last_seen: None };
        assert(new =~= tx_row(key, value));
        assert forall|row: Row| #[trigger] rows.contains(row) implies !same_values(
            row,
            new,
            c.keys,
            2,
        ) by {
            let k = choose|k: (Seq<char>, Seq<char>)| #[trigger]
                entries.contains_key(k) && row == f(k, entries[k]);
        }
        lemma_entry_inserted(entries, f, key, value);
    }
}

/// Inserting an output, or replacing its value and script, runs as it should.
proof fn lemma_upsert_txout_runs(
    tables: Tables,
    wallet_name: Seq<char>,
    txid: Seq<char>,
    vout: i32,
    value: i64,
    script: Seq<u8>,
)
    ensures
        runs_as(tables, Statement::UpsertTxOut { wallet_name, txid, vout, value, script }),
{
    let s: Statement<Seq<char>, Seq<u8>> = Statement::UpsertTxOut { wallet_name, txid, vout, value, script };
    reveal_with_fuel(new_row, 6);
    reveal_with_fuel(same_values, 6);
    reveal_with_fuel(with_sets, 6);
    let f = |key: (Seq<char>, Seq<char>, i32), value: TxOutRecord| txout_row(key, value);
    let entries = tables.txout;
    let key = (wallet_name, txid, vout);
    let command = statement_command(s);
    let values = statement_binds(s);
    let new = new_row(command->columns, values, 5);
    let c = command->on_conflict->0;
    let rows = table_rows(tables, Table::TxOut);
    assert forall|k: (Seq<char>, Seq<char>, i32)| #[trigger] entries.contains_key(k) implies (k == key
        <==> same_values(txout_row(k, entries[k]), new, c.keys, 3)) by {}
    if entries.contains_key(key) {
        let old = txout_row(key, entries[key]);
        assert(rows.contains(old));
        assert(same_values(old, new, c.keys, 3));
        let record = TxOutRecord { value, script };
        let change = on_conflict_change(c, new, values);
        assert(with_sets(old, c.sets, values, 2) =~= txout_row(key, record));
        assert forall|k: (Seq<char>, Seq<char>, i32)| #[trigger] entries.contains_key(k) implies change(
            f(k, entries[k]),
        ) == if k == key {
            f(key, record)
        } else {
            f(k, entries[k])
        } by {}
        lemma_entry_changed(entries, f, key, record, change);
    } else {
        let record = TxOutRecord { value, script };
        assert(new =~= txout_row(key, record));
        assert forall|row: Row| #[trigger] rows.contains(row) implies !same_values(
            row,
            new,
            c.keys,
            3,
        ) by {
            let k = choose|k: (Seq<char>, Seq<char>, i32)| #[trigger]
                entries.contains_key(k) && row == f(k, entries[k]);
        }
        lemma_entry_inserted(entries, f, key, record);
    }
}

/// Inserting an anchor, or replacing it, runs as it should.
proof fn lemma_upsert_anchor_runs(
    tables: Tables,
    wallet_name: Seq<char>,
    block_hash: Seq<char>,
    anchor: Seq<char>,
    txid: Seq<char>,
)
    ensures
        runs_as(tables, Statement::UpsertAnchor { wallet_name, block_hash, anchor, txid }),
{
    let s: Statement<Seq<char>, Seq<u8>> = Statement::UpsertAnchor { wallet_name, block_hash, anchor, txid };
    reveal_with_fuel(new_row, 6);
    reveal_with_fuel(same_values, 6);
    reveal_with_fuel(with_sets, 6);
    let f = |key: (Seq<char>, Seq<char>, Seq<char>), value: Seq<char>| anchor_row(key, value);
    let entries = tables.anchor_tx;
    let key = (wallet_name, block_hash, txid);
    let command = statement_command(s);
    let values = statement_binds(s);
    let new = new_row(command->columns, values, 4);
    let c = command->on_conflict->0;
    let rows = table_rows(tables, Table::AnchorTx);
    assert forall|k: (Seq<char>, Seq<char>, Seq<char>)| #[trigger] entries.contains_key(k) implies (k == key
        <==> same_values(anchor_row(k, entries[k]), new, c.keys, 3)) by {}
    if entries.contains_key(key) {
        let old = anchor_row(key, entries[key]);
        assert(rows.contains(old));
        assert(same_values(old, new, c.keys, 3));
        let value = anchor;
        let change = on_conflict_change(c, new, values);
        assert(with_sets(old, c.sets, values, 1) =~= anchor_row(key, value));
        assert forall|k: (Seq<char>, Seq<char>, Seq<char>)| #[trigger] entries.contains_key(k) implies change(
            f(k, entries[k]),
        ) == if k == key {
            f(key, value)
        } else {
            f(k, entries[k])
        } by {}
        lemma_entry_changed(entries, f, key, value, change);
    } else {
        let value = anchor;
        assert(new =~= anchor_row(key, value));
        assert forall|row: Row| #[trigger] rows.contains(row) implies !same_values(
            row,
            new,
            c.keys,
            3,
        ) by {
            let k = choose|k: (Seq<char>, Seq<char>, Seq<char>)| #[trigger]
                entries.contains_key(k) && row == f(k, entries[k]);
        }
        lemma_entry_inserted(entries, f, key, value);
    }
}

/// Inserting a block, or replacing its height, runs as it should.
proof fn lemma_upsert_block_runs(
    tables: Tables,
    wallet_name: Seq<char>,
    hash: Seq<char>,
    height: i32,
)
    ensures
        runs_as(tables, Statement::UpsertBlock { wallet_name, hash, height }),
{
    let s: Statement<Seq<char>, Seq<u8>> = Statement::UpsertBlock { wallet_name, hash, height };
    reveal_with_fuel(new_row, 6);
    reveal_with_fuel(same_values, 6);
    reveal_with_fuel(with_sets, 6);
    let f = |key: (Seq<char>, Seq<char>), value: i32| block_row(key, value);
    let entries = tables.block;
    let key = (wallet_name, hash);
    let command = statement_command(s);
    let values = statement_binds(s);
    let new = new_row(command->columns, values, 3);
    let c = command->on_conflict->0;
    let rows = table_rows(tables, Table::Block);
    assert forall|k: (Seq<char>, Seq<char>)| #[trigger] entries.contains_key(k) implies (k == key
        <==> same_values(block_row(k, entries[k]), new, c.keys, 2)) by {}
    if entries.contains_key(key) {
        let old = block_row(key, entries[key]);
        assert(rows.contains(old));
        assert(same_values(old, new, c.keys, 2));
        let value = height;
        let change = on_conflict_change(c, new, values);
        assert(with_sets(old, c.sets, values, 1) =~= block_row(key, value));
        assert forall|k: (Seq<char>, Seq<char>)| #[trigger] entries.contains_key(k) implies change(
            f(k, entries[k]),
        ) == if k == key {
            f(key, value)
        } else {
            f(k, entries[k])
        } by {}
        lemma_entry_changed(entries, f, key, value, change);
    } else {
        let value = height;
        assert(new =~= block_row(key, value));
        assert forall|row: Row| #[trigger] rows.contains(row) implies !same_values(
            row,
            new,
            c.keys,
            2,
        ) by {
            let k = choose|k: (Seq<char>, Seq<char>)| #[trigger]
                entries.contains_key(k) && row == f(k, entries[k]);
        }
        lemma_entry_inserted(entries, f, key, value);
    }
}

/// Inserting a network runs as it should.
proof fn lemma_insert_network_runs(tables: Tables, wallet_name: Seq<char>, name: Seq<char>)
    ensures
        runs_as(tables, Statement::InsertNetwork { wallet_name, name }),
{
    let s: Statement<Seq<char>, Seq<u8>> = Statement::InsertNetwork { wallet_name, name };
    reveal_with_fuel(new_row, 6);
    reveal_with_fuel(same_values, 6);
    let f = |key: Seq<char>, name: Seq<char>| network_row(key, name);
    let command = statement_command(s);
    let new = new_row(command->columns, statement_binds(s), 2);
    assert(new =~= network_row(wallet_name, name));
    let rows = table_rows(tables, Table::Network);
    let keys = table_key(Table::Network);
    if tables.network.contains_key(wallet_name) {
        let row = network_row(wallet_name, tables.network[wallet_name]);
        assert(rows.contains(row));
        assert(same_values(row, new, keys, 1));
    } else {
        assert forall|row: Row| #[trigger] rows.contains(row) implies !same_values(
            row,
            new,
            keys,
            1,
        ) by {
            let k = choose|k: Seq<char>| #[trigger]
                tables.network.contains_key(k) && row == f(k, tables.network[k]);
            assert(k != wallet_name);
        }
        lemma_entry_inserted(tables.network, f, wallet_name, name);
    }
}

/// Setting the last revealed index runs as it should.
proof fn lemma_update_last_revealed_runs(
    tables: Tables,
    last_revealed: i32,
    wallet_name: Seq<char>,
    keychainkind: KeychainKind,
)
    ensures
        runs_as(
            tables,
            Statement::UpdateLastRevealed { last_revealed, wallet_name, keychainkind },
        ),
{
    let s: Statement<Seq<char>, Seq<u8>> = Statement::UpdateLastRevealed {
        last_revealed,
        wallet_name,
        keychainkind,
    };
    lemma_keychain_names_differ();
    reveal_with_fuel(fits_filter, 6);
    reveal_with_fuel(with_sets, 6);
    let f = |key: (Seq<char>, KeychainKind), record: KeychainRecord| keychain_row(key, record);
    let entries = tables.keychain;
    let key = (wallet_name, keychainkind);
    let command = statement_command(s);
    let values = statement_binds(s);
    let (sets, filter) = (command->sets, command->Update_filter);
    let change = update_change(sets, filter, values);
    assert forall|k: (Seq<char>, KeychainKind)| #[trigger] entries.contains_key(k) implies (k == key
        <==> fits_filter(keychain_row(k, entries[k]), filter, values, 2)) by {}
    if entries.contains_key(key) {
        let record = KeychainRecord { last_revealed: Some(last_revealed), ..entries[key] };
        assert(with_sets(keychain_row(key, entries[key]), sets, values, 1) =~= keychain_row(
            key,
            record,
        ));
        lemma_entry_changed(entries, f, key, record, change);
    } else {
        lemma_nothing_changed(entries, f, change);
    }
}

/// Setting when a transaction was last seen runs as it should.
proof fn lemma_update_last_seen_runs(
    tables: Tables,
    last_seen: i64,
    wallet_name: Seq<char>,
    txid: Seq<char>,
)
    ensures
        runs_as(tables, Statement::UpdateLastSeen { last_seen, wallet_name, txid }),
{
    let s: Statement<Seq<char>, Seq<u8>> = Statement::UpdateLastSeen {
        last_seen,
        wallet_name,
        txid,
    };
    reveal_with_fuel(fits_filter, 6);
    reveal_with_fuel(with_sets, 6);
    let f = |key: (Seq<char>, Seq<char>), record: TxRecord| tx_row(key, record);
    let entries = tables.tx;
    let key = (wallet_name, txid);
    let command = statement_command(s);
    let values = statement_binds(s);
    let (sets, filter) = (command->sets, command->Update_filter);
    let change = update_change(sets, filter, values);
    assert forall|k: (Seq<char>, Seq<char>)| #[trigger] entries.contains_key(k) implies (k == key
        <==> fits_filter(tx_row(k, entries[k]), filter, values, 2)) by {}
    if entries.contains_key(key) {
        let record = TxRecord { last_seen: Some(last_seen), ..entries[key] };
        assert(with_sets(tx_row(key, entries[key]), sets, values, 1) =~= tx_row(key, record));
        lemma_entry_changed(entries, f, key, record, change);
    } else {
        lemma_nothing_changed(entries, f, change);
    }
}

/// Deleting blocks runs as it should.
proof fn lemma_delete_block_runs(tables: Tables, wallet_name: Seq<char>, height: i32)
    ensures
        runs_as(tables, Statement::DeleteBlock { wallet_name, height }),
{
    let s: Statement<Seq<char>, Seq<u8>> = Statement::DeleteBlock { wallet_name, height };
    reveal_with_fuel(fits_filter, 6);
    let f = |key: (Seq<char>, Seq<char>), height: i32| block_row(key, height);
    let command = statement_command(s);
    let keep = delete_keeps(command->Delete_filter, statement_binds(s));
    let kept = tables.apply(s)->0.block;
    lemma_entries_kept(tables.block, kept, f, keep);
}

/// The text of `INSERT_KEYCHAIN` is that of its command.
proof fn lemma_insert_keychain_text(s: Statement<Seq<char>, Seq<u8>>)
    requires
        s is InsertKeychain,
    ensures
        statement_sql(s) == command_text(statement_command(s)),
{
    reveal_with_fuel(columns_text, 6);
    reveal_with_fuel(parameters_text, 6);
    reveal_with_fuel(pairings_text, 4);
    reveal_strlit("INSERT INTO keychain (wallet_name, keychainkind, descriptor, descriptor_id) VALUES ($1, $2, $3, $4)");
    reveal_strlit("INSERT INTO ");
    reveal_strlit(" (");
    reveal_strlit(") VALUES (");
    reveal_strlit(")");
    reveal_strlit(", ");
    reveal_strlit("$");
    reveal_strlit("keychain");
    reveal_strlit("wallet_name");
    reveal_strlit("keychainkind");
    reveal_strlit("descriptor");
    reveal_strlit("descriptor_id");
    assert(statement_sql(s) =~= command_text(statement_command(s)));
}

/// The text of `UPDATE_LAST_REVEALED` is that of its command.
proof fn lemma_update_last_revealed_text(s: Statement<Seq<char>, Seq<u8>>)
    requires
        s is UpdateLastRevealed,
    ensures
        statement_sql(s) == command_text(statement_command(s)),
{
    reveal_with_fuel(columns_text, 6);
    reveal_with_fuel(parameters_text, 6);
    reveal_with_fuel(pairings_text, 4);
    reveal_strlit("UPDATE keychain SET last_revealed = $1 WHERE wallet_name = $2 AND keychainkind = $3");
    reveal_strlit(", ");
    reveal_strlit(" = ");
    reveal_strlit("UPDATE ");
    reveal_strlit(" SET ");
    reveal_strlit(" WHERE ");
    reveal_strlit(" AND ");
    reveal_strlit("$");
    reveal_strlit("keychain");
    reveal_strlit("wallet_name");
    reveal_strlit("keychainkind");
    reveal_strlit("last_revealed");
    assert(statement_sql(s) =~= command_text(statement_command(s)));
}

/// The text of `INSERT_NETWORK` is that of its command.
proof fn lemma_insert_network_text(s: Statement<Seq<char>, Seq<u8>>)
    requires
        s is InsertNetwork,
    ensures
        statement_sql(s) == command_text(statement_command(s)),
{
    reveal_with_fuel(columns_text, 6);
    reveal_with_fuel(parameters_text, 6);
    reveal_with_fuel(pairings_text, 4);
    reveal_strlit("INSERT INTO network (wallet_name, name) VALUES ($1, $2)");
    reveal_strlit("INSERT INTO ");
    reveal_strlit(" (");
    reveal_strlit(") VALUES (");
    reveal_strlit(")");
    reveal_strlit(", ");
    reveal_strlit("$");
    reveal_strlit("network");
    reveal_strlit("wallet_name");
    reveal_strlit("name");
    assert(statement_sql(s) =~= command_text(statement_command(s)));
}

/// The text of `UPSERT_TX` is that of its command.
proof fn lemma_upsert_tx_text(s: Statement<Seq<char>, Seq<u8>>)
    requires
        s is UpsertTx,
    ensures
        statement_sql(s) == command_text(statement_command(s)),
{
    reveal_with_fuel(columns_text, 6);
    reveal_with_fuel(parameters_text, 6);
    reveal_with_fuel(pairings_text, 4);
    reveal_strlit("INSERT INTO tx (wallet_name, txid, whole_tx) VALUES ($1, $2, $3)
             ON CONFLICT (wallet_name, txid) DO UPDATE SET whole_tx = $3");
    reveal_strlit("INSERT INTO ");
    reveal_strlit(" (");
    reveal_strlit(") VALUES (");
    reveal_strlit(")");
    reveal_strlit("ON CONFLICT (");
    reveal_strlit(") DO UPDATE SET ");
    reveal_strlit(", ");
    reveal_strlit(" = ");
    reveal_strlit("UPDATE ");
    reveal_strlit(" SET ");
    reveal_strlit("$");
    reveal_strlit("tx");
    reveal_strlit("wallet_name");
    reveal_strlit("txid");
    reveal_strlit("whole_tx");
    reveal_strlit("\n             ");
    assert(statement_sql(s) =~= command_text(statement_command(s)));
}

/// The text of `UPDATE_LAST_SEEN` is that of its command.
proof fn lemma_update_last_seen_text(s: Statement<Seq<char>, Seq<u8>>)
    requires
        s is UpdateLastSeen,
    ensures
        statement_sql(s) == command_text(statement_command(s)),
{
    reveal_with_fuel(columns_text, 6);
    reveal_with_fuel(parameters_text, 6);
    reveal_with_fuel(pairings_text, 4);
    reveal_strlit("UPDATE tx SET last_seen = $1 WHERE wallet_name = $2 AND txid = $3");
    reveal_strlit(", ");
    reveal_strlit(" = ");
    reveal_strlit("UPDATE ");
    reveal_strlit(" SET ");
    reveal_strlit(" WHERE ");
    reveal_strlit(" AND ");
    reveal_strlit("$");
    reveal_strlit("tx");
    reveal_strlit("wallet_name");
    reveal_strlit("txid");
    reveal_strlit("last_seen");
    assert(statement_sql(s) =~= command_text(statement_command(s)));
}

/// The text of `UPSERT_TXOUT` is that of its command.
proof fn lemma_upsert_txout_text(s: Statement<Seq<char>, Seq<u8>>)
    requires
        s is UpsertTxOut,
    ensures
        statement_sql(s) == command_text(statement_command(s)),
{
    reveal_with_fuel(columns_text, 6);
    reveal_with_fuel(parameters_text, 6);
    reveal_with_fuel(pairings_text, 4);
    reveal_strlit("INSERT INTO txout (wallet_name, txid, vout, value, script) VALUES ($1, $2, $3, $4, $5)
             ON CONFLICT (wallet_name, txid, vout) DO UPDATE SET value = $4, script = $5");
    reveal_strlit("INSERT INTO ");
    reveal_strlit(" (");
    reveal_strlit(") VALUES (");
    reveal_strlit(")");
    reveal_strlit("ON CONFLICT (");
    reveal_strlit(") DO UPDATE SET ");
    reveal_strlit(", ");
    reveal_strlit(" = ");
    reveal_strlit("UPDATE ");
    reveal_strlit(" SET ");
    reveal_strlit("$");
    reveal_strlit("txout");
    reveal_strlit("wallet_name");
    reveal_strlit("txid");
    reveal_strlit("vout");
    reveal_strlit("value");
    reveal_strlit("script");
    reveal_strlit("\n             ");
    assert(statement_sql(s) =~= command_text(statement_command(s)));
}

/// The text of `UPSERT_ANCHOR` is that of its command.
proof fn lemma_upsert_anchor_text(s: Statement<Seq<char>, Seq<u8>>)
    requires
        s is UpsertAnchor,
    ensures
        statement_sql(s) == command_text(statement_command(s)),
{
    reveal_with_fuel(columns_text, 6);
    reveal_with_fuel(parameters_text, 6);
    reveal_with_fuel(pairings_text, 4);
    reveal_strlit("INSERT INTO anchor_tx (wallet_name, block_hash, anchor, txid) VALUES ($1, $2, $3, $4)
             ON CONFLICT (wallet_name, block_hash, txid) DO UPDATE SET anchor = $3");
    reveal_strlit("INSERT INTO ");
    reveal_strlit(" (");
    reveal_strlit(") VALUES (");
    reveal_strlit(")");
    reveal_strlit("ON CONFLICT (");
    reveal_strlit(") DO UPDATE SET ");
    reveal_strlit(", ");
    reveal_strlit(" = ");
    reveal_strlit("UPDATE ");
    reveal_strlit(" SET ");
    reveal_strlit("$");
    reveal_strlit("anchor_tx");
    reveal_strlit("wallet_name");
    reveal_strlit("txid");
    reveal_strlit("block_hash");
    reveal_strlit("anchor");
    reveal_strlit("\n             ");
    assert(statement_sql(s) =~= command_text(statement_command(s)));
}

/// The text of `UPSERT_BLOCK` is that of its command.
proof fn lemma_upsert_block_text(s: Statement<Seq<char>, Seq<u8>>)
    requires
        s is UpsertBlock,
    ensures
        statement_sql(s) == command_text(statement_command(s)),
{
    reveal_with_fuel(columns_text, 6);
    reveal_with_fuel(parameters_text, 6);
    reveal_with_fuel(pairings_text, 4);
    reveal_strlit("INSERT INTO block (wallet_name, hash, height) VALUES ($1, $2, $3)
                     ON CONFLICT (wallet_name, hash) DO UPDATE SET height = $3");
    reveal_strlit("INSERT INTO ");
    reveal_strlit(" (");
    reveal_strlit(") VALUES (");
    reveal_strlit(")");
    reveal_strlit("ON CONFLICT (");
    reveal_strlit(") DO UPDATE SET ");
    reveal_strlit(", ");
    reveal_strlit(" = ");
    reveal_strlit("UPDATE ");
    reveal_strlit(" SET ");
    reveal_strlit("$");
    reveal_strlit("block");
    reveal_strlit("wallet_name");
    reveal_strlit("hash");
    reveal_strlit("height");
    reveal_strlit("\n                     ");
    assert(statement_sql(s) =~= command_text(statement_command(s)));
}

/// The text of `DELETE_BLOCK` is that of its command.
proof fn lemma_delete_block_text(s: Statement<Seq<char>, Seq<u8>>)
    requires
        s is DeleteBlock,
    ensures
        statement_sql(s) == command_text(statement_command(s)),
{
    reveal_with_fuel(columns_text, 6);
    reveal_with_fuel(parameters_text, 6);
    reveal_with_fuel(pairings_text, 4);
    reveal_strlit("DELETE FROM block WHERE wallet_name = $1 AND height = $2");
    reveal_strlit(", ");
    reveal_strlit(" = ");
    reveal_strlit(" WHERE ");
    reveal_strlit(" AND ");
    reveal_strlit("DELETE FROM ");
    reveal_strlit("$");
    reveal_strlit("block");
    reveal_strlit("wallet_name");
    reveal_strlit("height");
    assert(statement_sql(s) =~= command_text(statement_command(s)));
}

/// The text of every statement is that of a command, and running that command with the values that
/// the statement binds, each where its parameter stands, does to the tables what the statement does:
/// it is refused where the statement is, else it leaves the same rows in its table, and in the other
/// tables those that were there.
pub proof fn law_statement_runs(tables: Tables, statement: Statement<Seq<char>, Seq<u8>>)
    ensures
        statement_sql(statement) == command_text(statement_command(statement)),
        runs_as(tables, statement),
{
    match statement {
        Statement::InsertKeychain { wallet_name, keychainkind, descriptor, descriptor_id } => {
            lemma_insert_keychain_text(statement);
            lemma_insert_keychain_runs(
                tables,
                wallet_name,
                keychainkind,
                descriptor,
                descriptor_id,
            );
        },
        Statement::UpdateLastRevealed { last_revealed, wallet_name, keychainkind } => {
            lemma_update_last_revealed_text(statement);
            lemma_update_last_revealed_runs(tables, last_revealed, wallet_name, keychainkind);
        },
        Statement::InsertNetwork { wallet_name, name } => {
            lemma_insert_network_text(statement);
            lemma_insert_network_runs(tables, wallet_name, name);
        },
        Statement::UpsertTx { wallet_name, txid, whole_tx } => {
            lemma_upsert_tx_text(statement);
            lemma_upsert_tx_runs(tables, wallet_name, txid, whole_tx);
        },
        Statement::UpdateLastSeen { last_seen, wallet_name, txid } => {
            lemma_update_last_seen_text(statement);
            lemma_update_last_seen_runs(tables, last_seen, wallet_name, txid);
        },
        Statement::UpsertTxOut { wallet_name, txid, vout, value, script } => {
            lemma_upsert_txout_text(statement);
            lemma_upsert_txout_runs(tables, wallet_name, txid, vout, value, script);
        },
        Statement::UpsertAnchor { wallet_name, block_hash, anchor, txid } => {
            lemma_upsert_anchor_text(statement);
            lemma_upsert_anchor_runs(tables, wallet_name, block_hash, anchor, txid);
        },
        Statement::UpsertBlock { wallet_name, hash, height } => {
            lemma_upsert_block_text(statement);
            lemma_upsert_block_runs(tables, wallet_name, hash, height);
        },
        Statement::DeleteBlock { wallet_name, height } => {
            lemma_delete_block_text(statement);
            lemma_delete_block_runs(tables, wallet_name, height);
        },
    }
}

/// The names of the tables, of their columns, and of the keychains. No two tables, columns or
/// keychains have the same.
pub proof fn law_names(tables: (Table, Table), columns: (Column, Column))
    ensures
        table_name(Table::Keychain) == "keychain"@,
        table_name(Table::Network) == "network"@,
        table_name(Table::Tx) == "tx"@,
        table_name(Table::TxOut) == "txout"@,
        table_name(Table::AnchorTx) == "anchor_tx"@,
        table_name(Table::Block) == "block"@,
        column_name(Column::WalletName) == "wallet_name"@,
        column_name(Column::Keychainkind) == "keychainkind"@,
        column_name(Column::Descriptor) == "descriptor"@,
        column_name(Column::DescriptorId) == "descriptor_id"@,
        column_name(Column::LastRevealed) == "last_revealed"@,
        column_name(Column::Name) == "name"@,
        column_name(Column::Txid) == "txid"@,
        column_name(Column::WholeTx) == "whole_tx"@,
        column_name(Column::LastSeen) == "last_seen"@,
        column_name(Column::Vout) == "vout"@,
        column_name(Column::Value) == "value"@,
        column_name(Column::Script) == "script"@,
        column_name(Column::BlockHash) == "block_hash"@,
        column_name(Column::Anchor) == "anchor"@,
        column_name(Column::BlockId) == "hash"@,
        column_name(Column::Height) == "height"@,
        keychain_name(KeychainKind::External) == "External"@,
        keychain_name(KeychainKind::Internal) == "Internal"@,
        keychain_name(KeychainKind::External) != keychain_name(KeychainKind::Internal),
        table_name(tables.0) == table_name(tables.1) ==> tables.0 == tables.1,
        column_name(columns.0) == column_name(columns.1) ==> columns.0 == columns.1,
{
    lemma_keychain_names_differ();
    reveal_strlit("keychain");
    reveal_strlit("network");
    reveal_strlit("tx");
    reveal_strlit("txout");
    reveal_strlit("anchor_tx");
    reveal_strlit("block");
    reveal_strlit("wallet_name");
    reveal_strlit("keychainkind");
    reveal_strlit("descriptor");
    reveal_strlit("descriptor_id");
    reveal_strlit("last_revealed");
    reveal_strlit("name");
    reveal_strlit("txid");
    reveal_strlit("whole_tx");
    reveal_strlit("last_seen");
    reveal_strlit("vout");
    reveal_strlit("value");
    reveal_strlit("script");
    reveal_strlit("block_hash");
    reveal_strlit("anchor");
    reveal_strlit("hash");
    reveal_strlit("height");
    assert("keychain"@.len() == 8 && "keychain"@[0] == 'k' && "keychain"@.last() == 'n');
    assert("network"@.len() == 7 && "network"@[0] == 'n' && "network"@.last() == 'k');
    assert("tx"@.len() == 2 && "tx"@[0] == 't' && "tx"@.last() == 'x');
    assert("txout"@.len() == 5 && "txout"@[0] == 't' && "txout"@.last() == 't');
    assert("anchor_tx"@.len() == 9 && "anchor_tx"@[0] == 'a' && "anchor_tx"@.last() == 'x');
    assert("block"@.len() == 5 && "block"@[0] == 'b' && "block"@.last() == 'k');
    assert("wallet_name"@.len() == 11 && "wallet_name"@[0] == 'w' && "wallet_name"@.last() == 'e');
    assert("keychainkind"@.len() == 12 && "keychainkind"@[0] == 'k' && "keychainkind"@.last() == 'd');
    assert("descriptor"@.len() == 10 && "descriptor"@[0] == 'd' && "descriptor"@.last() == 'r');
    assert("descriptor_id"@.len() == 13 && "descriptor_id"@[0] == 'd' && "descriptor_id"@.last() == 'd');
    assert("last_revealed"@.len() == 13 && "last_revealed"@[0] == 'l' && "last_revealed"@.last() == 'd');
    assert("name"@.len() == 4 && "name"@[0] == 'n' && "name"@.last() == 'e');
    assert("txid"@.len() == 4 && "txid"@[0] == 't' && "txid"@.last() == 'd');
    assert("whole_tx"@.len() == 8 && "whole_tx"@[0] == 'w' && "whole_tx"@.last() == 'x');
    assert("last_seen"@.len() == 9 && "last_seen"@[0] == 'l' && "last_seen"@.last() == 'n');
    assert("vout"@.len() == 4 && "vout"@[0] == 'v' && "vout"@.last() == 't');
    assert("value"@.len() == 5 && "value"@[0] == 'v' && "value"@.last() == 'e');
    assert("script"@.len() == 6 && "script"@[0] == 's' && "script"@.last() == 't');
    assert("block_hash"@.len() == 10 && "block_hash"@[0] == 'b' && "block_hash"@.last() == 'h');
    assert("anchor"@.len() == 6 && "anchor"@[0] == 'a' && "anchor"@.last() == 'r');
    assert("hash"@.len() == 4 && "hash"@[0] == 'h' && "hash"@.last() == 'h');
    assert("height"@.len() == 6 && "height"@[0] == 'h' && "height"@.last() == 't');
}

} // verus!
