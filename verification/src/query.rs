//! What the queries mean: a query's text is that of a selection from tables with named columns, and
//! what it gives is what the tables hold.

use vstd::prelude::*;

use crate::local_chain::BlockRow;
use crate::sql::{
    anchor_row, block_row, column_name, columns_text, keychain_row, network_row, parameter,
    table_name, table_rows, tx_row, txout_row, with_cell, Cell, Column, Row, Table,
};
use crate::statement::{
    keychain_name, Bind, KeychainKind, SELECT_ANCHORS, SELECT_BLOCKS, SELECT_KEYCHAINS,
    SELECT_TXOUTS, SELECT_TXS, SELECT_WALLET,
};
use crate::store::{read_action, WalletAction, WalletRead, WalletRow};
use crate::tables::{KeychainRecord, Listing, Tables};
use crate::tx_graph::{tx_graph_query, AnchorRow, TxGraphRead, TxOutRow, TxRow};

verus! {

/// The text of a query for some columns of all rows of a table.
pub open spec fn select_text(columns: Seq<Column>, table: Table) -> Seq<char> {
    "SELECT "@ + columns_text(columns, columns.len() as int) + " FROM "@ + table_name(table)
}

/// What such a query gives of a row: the first columns.
pub open spec fn project(row: Row, columns: Seq<Column>, count: int) -> Row
    decreases count,
{
    if count <= 0 {
        Map::empty()
    } else {
        let column = columns[count - 1];
        let before = project(row, columns, count - 1);
        if row.contains_key(column) {
            before.insert(column, row[column])
        } else {
            before
        }
    }
}

/// The columns that are asked for of `tx`.
pub open spec fn tx_columns() -> Seq<Column> {
    seq![Column::Txid, Column::WholeTx, Column::LastSeen]
}

/// The columns that are asked for of `txout`.
pub open spec fn txout_columns() -> Seq<Column> {
    seq![Column::Txid, Column::Vout, Column::Value, Column::Script]
}

/// The columns that are asked for of `anchor_tx`.
pub open spec fn anchor_columns() -> Seq<Column> {
    seq![Column::Anchor, Column::Txid]
}

/// The columns that are asked for of `block`.
pub open spec fn block_columns() -> Seq<Column> {
    seq![Column::BlockId, Column::Height]
}

/// The columns of a row that came from `tx`.
pub open spec fn tx_cells(row: TxRow<Seq<char>, Seq<u8>>) -> Row {
    let cells: Row = map![Column::Txid => Bind::Text(row.txid)];
    with_cell(
        with_cell(
            cells,
            Column::WholeTx,
            match row.whole_tx {
                Some(bytes) => Some(Bind::Bytes(bytes)),
                None => None,
            },
        ),
        Column::LastSeen,
        match row.last_seen {
            Some(time) => Some(Bind::BigInt(time)),
            None => None,
        },
    )
}

/// The columns of a row that came from `txout`.
pub open spec fn txout_cells(row: TxOutRow<Seq<char>, Seq<u8>>) -> Row {
    map![
        Column::Txid => Bind::Text(row.txid),
        Column::Vout => Bind::Int(row.vout),
        Column::Value => Bind::BigInt(row.value),
        Column::Script => Bind::Bytes(row.script),
    ]
}

/// The columns of a row that came from `anchor_tx`.
pub open spec fn anchor_cells(row: AnchorRow<Seq<char>>) -> Row {
    map![Column::Anchor => Bind::Json(row.anchor), Column::Txid => Bind::Text(row.txid)]
}

/// The columns of a row that came from `block`.
pub open spec fn block_cells(row: BlockRow<Seq<char>>) -> Row {
    map![Column::BlockId => Bind::Text(row.hash), Column::Height => Bind::Int(row.height)]
}

/// The names under which the parts of a wallet's row are asked for.
pub enum Label {
    Network,
    InternalDescriptor,
    InternalLastRevealed,
    ExternalDescriptor,
    ExternalLastRevealed,
}

/// How such a name is written.
pub open spec fn label_name(label: Label) -> Seq<char> {
    match label {
        Label::Network => "network"@,
        Label::InternalDescriptor => "internal_descriptor"@,
        Label::InternalLastRevealed => "internal_last_revealed"@,
        Label::ExternalDescriptor => "external_descriptor"@,
        Label::ExternalLastRevealed => "external_last_revealed"@,
    }
}

/// A row of `keychain` that is joined to a wallet's row of `network`, if there is one, and what is
/// asked for of it.
pub struct KeychainJoin {
    /// What the row is called in the query.
    pub alias: Seq<char>,
    /// The name of the keychain, as it stands in the query.
    pub keychain: Seq<char>,
    pub descriptor: Label,
    pub last_revealed: Label,
}

/// What is asked for of a joined row.
pub open spec fn join_items_text(join: KeychainJoin) -> Seq<char> {
    join.alias + "."@ + column_name(Column::Descriptor) + " as "@ + label_name(join.descriptor)
        + ", "@ + join.alias + "."@ + column_name(Column::LastRevealed) + " as "@ + label_name(
        join.last_revealed,
    )
}

/// How a row is joined.
pub open spec fn join_text(join: KeychainJoin) -> Seq<char> {
    "LEFT JOIN "@ + table_name(Table::Keychain) + " "@ + join.alias + " ON n."@ + column_name(
        Column::WalletName,
    ) + " = "@ + join.alias + "."@ + column_name(Column::WalletName) + " AND "@ + join.alias
        + "."@ + column_name(Column::Keychainkind) + " = '"@ + join.keychain + "'"@
}

/// The text of the query for a wallet's row with two joined rows.
pub open spec fn wallet_query_text(first: KeychainJoin, second: KeychainJoin) -> Seq<char> {
    let gap = "\n            "@;
    "SELECT n."@ + column_name(Column::Name) + " as "@ + label_name(Label::Network) + ","@ + gap
        + join_items_text(first) + ","@ + gap + join_items_text(second) + gap + "FROM "@
        + table_name(Table::Network) + " n"@ + gap + join_text(first) + gap + join_text(second)
        + gap + "WHERE n."@ + column_name(Column::WalletName) + " = "@ + parameter(1)
}

/// Whether a row of `keychain` is joined to a row of `network`.
pub open spec fn is_joined(base: Row, join: KeychainJoin, row: Row) -> bool {
    &&& base.contains_key(Column::WalletName) && row.contains_key(Column::WalletName)
    &&& base[Column::WalletName] == row[Column::WalletName]
    &&& row.contains_key(Column::Keychainkind)
    &&& row[Column::Keychainkind] == Bind::<Seq<char>, Seq<u8>>::Text(join.keychain)
}

/// Whether `joined` is a row that is joined to the base, or `None` where no row is.
pub open spec fn left_join(
    rows: Set<Row>,
    base: Row,
    join: KeychainJoin,
    joined: Option<Row>,
) -> bool {
    match joined {
        Some(row) => rows.contains(row) && is_joined(base, join, row),
        None => forall|row: Row| #[trigger] rows.contains(row) ==> !is_joined(base, join, row),
    }
}

/// What stands in a column of a row, if there is a row and it is not null there.
pub open spec fn cell_of(row: Option<Row>, column: Column) -> Option<Cell> {
    match row {
        Some(row) => if row.contains_key(column) {
            Some(row[column])
        } else {
            None
        },
        None => None,
    }
}

/// A result with a value under a label, or null there.
pub open spec fn with_label(
    result: Map<Label, Cell>,
    label: Label,
    cell: Option<Cell>,
) -> Map<Label, Cell> {
    match cell {
        Some(cell) => result.insert(label, cell),
        None => result,
    }
}

/// What is asked for of a joined row, added to a result.
pub open spec fn with_join(
    result: Map<Label, Cell>,
    join: KeychainJoin,
    joined: Option<Row>,
) -> Map<Label, Cell> {
    with_label(
        with_label(result, join.descriptor, cell_of(joined, Column::Descriptor)),
        join.last_revealed,
        cell_of(joined, Column::LastRevealed),
    )
}

/// Whether the query for a wallet's row, with the value that it binds, gives a result.
pub open spec fn gives(
    tables: Tables,
    first: KeychainJoin,
    second: KeychainJoin,
    bound: Cell,
    result: Map<Label, Cell>,
) -> bool {
    let networks = table_rows(tables, Table::Network);
    let keychains = table_rows(tables, Table::Keychain);
    exists|base: Row, a: Option<Row>, b: Option<Row>|
        {
            &&& #[trigger] networks.contains(base)
            &&& base.contains_key(Column::WalletName) && base[Column::WalletName] == bound
            &&& #[trigger] left_join(keychains, base, first, a)
            &&& #[trigger] left_join(keychains, base, second, b)
            &&& result == with_join(
                with_join(
                    with_label(Map::empty(), Label::Network, cell_of(Some(base), Column::Name)),
                    first,
                    a,
                ),
                second,
                b,
            )
        }
}

/// The row of the keychain for change addresses, in the query for a wallet's row.
pub open spec fn internal_join() -> KeychainJoin {
    KeychainJoin {
        alias: "k_int"@,
        keychain: keychain_name(KeychainKind::Internal),
        descriptor: Label::InternalDescriptor,
        last_revealed: Label::InternalLastRevealed,
    }
}

/// The row of the keychain for recipient addresses, in the query for a wallet's row.
pub open spec fn external_join() -> KeychainJoin {
    KeychainJoin {
        alias: "k_ext"@,
        keychain: keychain_name(KeychainKind::External),
        descriptor: Label::ExternalDescriptor,
        last_revealed: Label::ExternalLastRevealed,
    }
}

/// A text that may be null, as it stands in a column.
pub open spec fn text_cell(text: Option<Seq<char>>) -> Option<Cell> {
    match text {
        Some(text) => Some(Bind::Text(text)),
        None => None,
    }
}

/// A number that may be null, as it stands in a column.
pub open spec fn int_cell(number: Option<i32>) -> Option<Cell> {
    match number {
        Some(number) => Some(Bind::Int(number)),
        None => None,
    }
}

/// The parts of a wallet's row, by the names under which they are asked for.
pub open spec fn wallet_cells(row: WalletRow<Seq<char>>) -> Map<Label, Cell> {
    let network: Map<Label, Cell> = map![Label::Network => Bind::Text(row.network)];
    with_label(
        with_label(
            with_label(
                with_label(
                    network,
                    Label::InternalDescriptor,
                    text_cell(row.internal_descriptor),
                ),
                Label::InternalLastRevealed,
                int_cell(row.internal_last_revealed),
            ),
            Label::ExternalDescriptor,
            text_cell(row.external_descriptor),
        ),
        Label::ExternalLastRevealed,
        int_cell(row.external_last_revealed),
    )
}

/// What is joined to a wallet's row is the row of its keychain.
proof fn lemma_join_is_keychain(
    tables: Tables,
    wallet_name: Seq<char>,
    name: Seq<char>,
    keychain: KeychainKind,
    join: KeychainJoin,
    joined: Option<Row>,
)
    requires
        join.keychain == keychain_name(keychain),
    ensures
        ({
            let key = (wallet_name, keychain);
            left_join(
                table_rows(tables, Table::Keychain),
                network_row(wallet_name, name),
                join,
                joined,
            ) <==> joined == if tables.keychain.contains_key(key) {
                Some(keychain_row(key, tables.keychain[key]))
            } else {
                None
            }
        }),
{
    reveal_strlit("External");
    reveal_strlit("Internal");
    assert("External"@[0] == 'E');
    assert("Internal"@[0] == 'I');
    let f = |key: (Seq<char>, KeychainKind), record: KeychainRecord| keychain_row(key, record);
    let base = network_row(wallet_name, name);
    let rows = table_rows(tables, Table::Keychain);
    let key = (wallet_name, keychain);
    assert forall|row: Row| #[trigger] rows.contains(row) && is_joined(base, join, row) implies
        tables.keychain.contains_key(key) && row == keychain_row(key, tables.keychain[key]) by {
        let k = choose|k: (Seq<char>, KeychainKind)| #[trigger]
            tables.keychain.contains_key(k) && row == f(k, tables.keychain[k]);
        assert(row[Column::WalletName] == Bind::<Seq<char>, Seq<u8>>::Text(k.0));
        assert(row[Column::Keychainkind] == Bind::<Seq<char>, Seq<u8>>::Text(keychain_name(k.1)));
        assert(k == key);
    }
    if tables.keychain.contains_key(key) {
        let row = keychain_row(key, tables.keychain[key]);
        assert(row == f(key, tables.keychain[key]));
        assert(rows.contains(row));
        assert(is_joined(base, join, row));
    }
}

/// The query for a wallet's row, with the wallet's name bound, gives that row and no other: its
/// network, and from the keychain named `Internal` and the one named `External` the descriptor and
/// the last revealed index, each under its own name. Where the wallet has no row it gives nothing.
pub proof fn law_wallet_query(
    tables: Tables,
    wallet_name: Seq<char>,
    result: Map<Label, Cell>,
)
    ensures
        SELECT_WALLET@ == wallet_query_text(internal_join(), external_join()),
        internal_join().keychain == "Internal"@,
        external_join().keychain == "External"@,
        gives(tables, internal_join(), external_join(), Bind::Text(wallet_name), result) <==> (
        tables.wallet_row(wallet_name) matches Some(row) && result == wallet_cells(row)),
{
    lemma_wallet_query_text();
    let networks = table_rows(tables, Table::Network);
    let keychains = table_rows(tables, Table::Keychain);
    let f = |key: Seq<char>, name: Seq<char>| network_row(key, name);
    let (first, second) = (internal_join(), external_join());
    let internal = (wallet_name, KeychainKind::Internal);
    let external = (wallet_name, KeychainKind::External);
    let x = if tables.keychain.contains_key(internal) {
        Some(keychain_row(internal, tables.keychain[internal]))
    } else {
        None
    };
    let y = if tables.keychain.contains_key(external) {
        Some(keychain_row(external, tables.keychain[external]))
    } else {
        None
    };
    let bound: Cell = Bind::Text(wallet_name);
    if gives(tables, first, second, bound, result) {
        let (base, a, b) = choose|base: Row, a: Option<Row>, b: Option<Row>|
            {
                &&& #[trigger] networks.contains(base)
                &&& base.contains_key(Column::WalletName) && base[Column::WalletName] == bound
                &&& #[trigger] left_join(keychains, base, first, a)
                &&& #[trigger] left_join(keychains, base, second, b)
                &&& result == with_join(
                    with_join(
                        with_label(Map::empty(), Label::Network, cell_of(Some(base), Column::Name)),
                        first,
                        a,
                    ),
                    second,
                    b,
                )
            };
        let k = choose|k: Seq<char>| #[trigger]
            tables.network.contains_key(k) && base == f(k, tables.network[k]);
        assert(k == wallet_name);
        let name = tables.network[wallet_name];
        lemma_join_is_keychain(tables, wallet_name, name, KeychainKind::Internal, first, a);
        lemma_join_is_keychain(tables, wallet_name, name, KeychainKind::External, second, b);
        assert(result =~= wallet_cells(tables.wallet_row(wallet_name)->0));
    }
    if tables.wallet_row(wallet_name) is Some && result == wallet_cells(
        tables.wallet_row(wallet_name)->0,
    ) {
        let name = tables.network[wallet_name];
        let base = network_row(wallet_name, name);
        assert(base == f(wallet_name, name));
        assert(networks.contains(base));
        lemma_join_is_keychain(tables, wallet_name, name, KeychainKind::Internal, first, x);
        lemma_join_is_keychain(tables, wallet_name, name, KeychainKind::External, second, y);
        assert(left_join(keychains, base, first, x));
        assert(left_join(keychains, base, second, y));
        assert(result =~= with_join(
            with_join(
                with_label(Map::empty(), Label::Network, cell_of(Some(base), Column::Name)),
                first,
                x,
            ),
            second,
            y,
        ));
    }
}

/// The text of the query for a wallet's row.
#[verifier::rlimit(60)]
proof fn lemma_wallet_query_text()
    ensures
        SELECT_WALLET@ == wallet_query_text(internal_join(), external_join()),
{
    reveal_strlit("SELECT n.name as network,
            k_int.descriptor as internal_descriptor, k_int.last_revealed as internal_last_revealed,
            k_ext.descriptor as external_descriptor, k_ext.last_revealed as external_last_revealed
            FROM network n
            LEFT JOIN keychain k_int ON n.wallet_name = k_int.wallet_name AND k_int.keychainkind = 'Internal'
            LEFT JOIN keychain k_ext ON n.wallet_name = k_ext.wallet_name AND k_ext.keychainkind = 'External'
            WHERE n.wallet_name = $1");
    reveal_strlit("\n            ");
    reveal_strlit("SELECT n.");
    reveal_strlit("name");
    reveal_strlit(" as ");
    reveal_strlit("network");
    reveal_strlit(",");
    reveal_strlit(", ");
    reveal_strlit(".");
    reveal_strlit("k_int");
    reveal_strlit("k_ext");
    reveal_strlit("descriptor");
    reveal_strlit("last_revealed");
    reveal_strlit("internal_descriptor");
    reveal_strlit("internal_last_revealed");
    reveal_strlit("external_descriptor");
    reveal_strlit("external_last_revealed");
    reveal_strlit("FROM ");
    reveal_strlit(" n");
    reveal_strlit("LEFT JOIN ");
    reveal_strlit("keychain");
    reveal_strlit(" ");
    reveal_strlit(" ON n.");
    reveal_strlit("wallet_name");
    reveal_strlit(" = ");
    reveal_strlit(" AND ");
    reveal_strlit("keychainkind");
    reveal_strlit(" = '");
    reveal_strlit("'");
    reveal_strlit("Internal");
    reveal_strlit("External");
    reveal_strlit("WHERE n.");
    reveal_strlit("$");
    assert(SELECT_WALLET@ =~= wallet_query_text(internal_join(), external_join()));
}

/// The text of the query for `tx`.
proof fn lemma_tx_query_text()
    ensures
        SELECT_TXS@ == select_text(tx_columns(), Table::Tx),
{
    reveal_with_fuel(columns_text, 6);
    reveal_strlit("SELECT txid, whole_tx, last_seen FROM tx");
    reveal_strlit("SELECT ");
    reveal_strlit(" FROM ");
    reveal_strlit(", ");
    reveal_strlit("txid");
    reveal_strlit("whole_tx");
    reveal_strlit("last_seen");
    reveal_strlit("tx");
    assert(SELECT_TXS@ =~= select_text(tx_columns(), Table::Tx));
}

/// The text of the query for `txout`.
proof fn lemma_txout_query_text()
    ensures
        SELECT_TXOUTS@ == select_text(txout_columns(), Table::TxOut),
{
    reveal_with_fuel(columns_text, 6);
    reveal_strlit("SELECT txid, vout, value, script FROM txout");
    reveal_strlit("SELECT ");
    reveal_strlit(" FROM ");
    reveal_strlit(", ");
    reveal_strlit("txid");
    reveal_strlit("vout");
    reveal_strlit("value");
    reveal_strlit("script");
    reveal_strlit("txout");
    assert(SELECT_TXOUTS@ =~= select_text(txout_columns(), Table::TxOut));
}

/// The text of the query for `anchor_tx`.
proof fn lemma_anchor_query_text()
    ensures
        SELECT_ANCHORS@ == select_text(anchor_columns(), Table::AnchorTx),
{
    reveal_with_fuel(columns_text, 6);
    reveal_strlit("SELECT anchor, txid FROM anchor_tx");
    reveal_strlit("SELECT ");
    reveal_strlit(" FROM ");
    reveal_strlit(", ");
    reveal_strlit("anchor");
    reveal_strlit("txid");
    reveal_strlit("anchor_tx");
    assert(SELECT_ANCHORS@ =~= select_text(anchor_columns(), Table::AnchorTx));
}

/// The text of the query for `block`.
proof fn lemma_block_query_text()
    ensures
        SELECT_BLOCKS@ == select_text(block_columns(), Table::Block),
{
    reveal_with_fuel(columns_text, 6);
    reveal_strlit("SELECT hash, height FROM block");
    reveal_strlit("SELECT ");
    reveal_strlit(" FROM ");
    reveal_strlit(", ");
    reveal_strlit("hash");
    reveal_strlit("height");
    reveal_strlit("block");
    assert(SELECT_BLOCKS@ =~= select_text(block_columns(), Table::Block));
}

/// The queries for transactions, outputs, anchors and blocks select from their tables, and each row
/// that is read has in every column what stands there in the table.
pub proof fn law_table_queries(tables: Tables, listing: Listing, i: int)
    ensures
        SELECT_TXS@ == select_text(tx_columns(), Table::Tx),
        0 <= i < listing.tx.len() ==> tx_cells(tables.tx_rows(listing.tx)[i]) == project(
            tx_row(listing.tx[i], tables.tx[listing.tx[i]]),
            tx_columns(),
            tx_columns().len() as int,
        ),
        SELECT_TXOUTS@ == select_text(txout_columns(), Table::TxOut),
        0 <= i < listing.txout.len() ==> txout_cells(tables.txout_rows(listing.txout)[i])
            == project(
            txout_row(listing.txout[i], tables.txout[listing.txout[i]]),
            txout_columns(),
            txout_columns().len() as int,
        ),
        SELECT_ANCHORS@ == select_text(anchor_columns(), Table::AnchorTx),
        0 <= i < listing.anchor_tx.len() ==> anchor_cells(
            tables.anchor_rows(listing.anchor_tx)[i],
        ) == project(
            anchor_row(listing.anchor_tx[i], tables.anchor_tx[listing.anchor_tx[i]]),
            anchor_columns(),
            anchor_columns().len() as int,
        ),
        SELECT_BLOCKS@ == select_text(block_columns(), Table::Block),
        0 <= i < listing.block.len() ==> block_cells(tables.block_rows(listing.block)[i])
            == project(
            block_row(listing.block[i], tables.block[listing.block[i]]),
            block_columns(),
            block_columns().len() as int,
        ),
{
    lemma_tx_query_text();
    lemma_txout_query_text();
    lemma_anchor_query_text();
    lemma_block_query_text();
    reveal_with_fuel(project, 6);
    if 0 <= i < listing.tx.len() {
        let key = listing.tx[i];
        assert(tx_cells(tables.tx_rows(listing.tx)[i]) =~= project(
            tx_row(key, tables.tx[key]),
            tx_columns(),
            3,
        ));
    }
    if 0 <= i < listing.txout.len() {
        let key = listing.txout[i];
        assert(txout_cells(tables.txout_rows(listing.txout)[i]) =~= project(
            txout_row(key, tables.txout[key]),
            txout_columns(),
            4,
        ));
    }
    if 0 <= i < listing.anchor_tx.len() {
        let key = listing.anchor_tx[i];
        assert(anchor_cells(tables.anchor_rows(listing.anchor_tx)[i]) =~= project(
            anchor_row(key, tables.anchor_tx[key]),
            anchor_columns(),
            2,
        ));
    }
    if 0 <= i < listing.block.len() {
        let key = listing.block[i];
        assert(block_cells(tables.block_rows(listing.block)[i]) =~= project(
            block_row(key, tables.block[key]),
            block_columns(),
            2,
        ));
    }
}

/// What is to be done next is what brings the reply that comes next: the migration; the query for
/// the wallet's row, with the wallet's name bound; the query for the table that is to be read, with
/// nothing bound; or nothing, where all is read.
pub proof fn law_next_action<C, G>(wallet_name: Seq<char>, state: WalletRead<C, G>)
    ensures
        state is Migrate <==> read_action(wallet_name, state) is Migrate,
        state is Wallet ==> read_action(wallet_name, state) == (WalletAction::<
            Seq<char>,
            Seq<char>,
        >::Query {
            sql: wallet_query_text(internal_join(), external_join()),
            bind: Some(wallet_name),
        }),
        state matches WalletRead::TxGraph(_, graph) ==> match graph {
            TxGraphRead::Txs => selects(wallet_name, state, tx_columns(), Table::Tx),
            TxGraphRead::TxOuts(_) => selects(wallet_name, state, txout_columns(), Table::TxOut),
            TxGraphRead::Anchors(_) => selects(
                wallet_name,
                state,
                anchor_columns(),
                Table::AnchorTx,
            ),
            TxGraphRead::Done(_) => read_action(wallet_name, state) is Finish,
        },
        state is LocalChain ==> selects(wallet_name, state, block_columns(), Table::Block),
        state is Done ==> read_action(wallet_name, state) is Finish,
{
    lemma_wallet_query_text();
    lemma_tx_query_text();
    lemma_txout_query_text();
    lemma_anchor_query_text();
    lemma_block_query_text();
}

/// Whether what is to be done next is to select columns from a table, with nothing bound.
pub open spec fn selects<C, G>(
    wallet_name: Seq<char>,
    state: WalletRead<C, G>,
    columns: Seq<Column>,
    table: Table,
) -> bool {
    read_action(wallet_name, state) == (WalletAction::<Seq<char>, Seq<char>>::Query {
        sql: select_text(columns, table),
        bind: None,
    })
}

/// The query that comes next for the graph selects from the table that is to be read.
pub proof fn law_next_graph_query<G>(state: TxGraphRead<G>)
    ensures
        tx_graph_query(state) == match state {
            TxGraphRead::Txs => Some(select_text(tx_columns(), Table::Tx)),
            TxGraphRead::TxOuts(_) => Some(select_text(txout_columns(), Table::TxOut)),
            TxGraphRead::Anchors(_) => Some(select_text(anchor_columns(), Table::AnchorTx)),
            TxGraphRead::Done(_) => None,
        },
{
    lemma_tx_query_text();
    lemma_txout_query_text();
    lemma_anchor_query_text();
}

/// The query for the backup selects all columns of all keychains.
pub proof fn law_backup_query()
    ensures
        SELECT_KEYCHAINS@ == "SELECT * FROM "@ + table_name(Table::Keychain),
{
    reveal_strlit("SELECT * FROM keychain");
    reveal_strlit("SELECT * FROM ");
    reveal_strlit("keychain");
    assert(SELECT_KEYCHAINS@ =~= "SELECT * FROM "@ + table_name(Table::Keychain));
}

} // verus!
