//! Statements on the database as a whole.

use vstd::prelude::*;

use crate::statement::SELECT_KEYCHAINS;

verus! {

/// The statements that drop all tables, in the order to execute them in.
pub open spec fn drop_statements() -> Seq<Seq<char>> {
    seq![
        "DROP TABLE IF EXISTS _sqlx_migrations"@,
        "DROP TABLE IF EXISTS vault_addresses"@,
        "DROP TABLE IF EXISTS used_anchorwatch_keys"@,
        "DROP TABLE IF EXISTS anchorwatch_keys"@,
        "DROP TABLE IF EXISTS psbts"@,
        "DROP TABLE IF EXISTS whitelist_update"@,
        "DROP TABLE IF EXISTS vault_parameters"@,
        "DROP TABLE IF EXISTS users"@,
        "DROP TABLE IF EXISTS version"@,
        "DROP TABLE IF EXISTS anchor_tx"@,
        "DROP TABLE IF EXISTS txout"@,
        "DROP TABLE IF EXISTS tx"@,
        "DROP TABLE IF EXISTS block"@,
        "DROP TABLE IF EXISTS keychain"@,
        "DROP TABLE IF EXISTS network"@,
    ]
}

/// Drops all tables: the statements to execute, all in one transaction.
pub fn drop_all() -> (r: Vec<&'static str>)
    ensures
        r@.map_values(|sql: &'static str| sql@) == drop_statements(),
{
    let r = vec![
        "DROP TABLE IF EXISTS _sqlx_migrations",
        "DROP TABLE IF EXISTS vault_addresses",
        "DROP TABLE IF EXISTS used_anchorwatch_keys",
        "DROP TABLE IF EXISTS anchorwatch_keys",
        "DROP TABLE IF EXISTS psbts",
        "DROP TABLE IF EXISTS whitelist_update",
        "DROP TABLE IF EXISTS vault_parameters",
        "DROP TABLE IF EXISTS users",
        "DROP TABLE IF EXISTS version",
        "DROP TABLE IF EXISTS anchor_tx",
        "DROP TABLE IF EXISTS txout",
        "DROP TABLE IF EXISTS tx",
        "DROP TABLE IF EXISTS block",
        "DROP TABLE IF EXISTS keychain",
        "DROP TABLE IF EXISTS network",
    ];
    assert(r@.map_values(|sql: &'static str| sql@) =~= drop_statements());
    r
}

/// The query that collects information on all the wallets in the database.
pub fn easy_backup() -> (r: &'static str)
    ensures
        r@ == SELECT_KEYCHAINS@,
        r@ == "SELECT * FROM keychain"@,
{
    SELECT_KEYCHAINS
}

/// The tables that are dropped, in the order in which they are.
pub open spec fn dropped_tables() -> Seq<Seq<char>> {
    seq![
        "_sqlx_migrations"@,
        "vault_addresses"@,
        "used_anchorwatch_keys"@,
        "anchorwatch_keys"@,
        "psbts"@,
        "whitelist_update"@,
        "vault_parameters"@,
        "users"@,
        "version"@,
        "anchor_tx"@,
        "txout"@,
        "tx"@,
        "block"@,
        "keychain"@,
        "network"@,
    ]
}

/// The statement that drops a table, if it is there.
pub open spec fn drop_statement(table: Seq<char>) -> Seq<char> {
    "DROP TABLE IF EXISTS "@ + table
}

/// The names of the tables that are left after a statement: it drops the table that it names, and
/// does nothing where that is not there.
pub open spec fn after_drop(tables: Set<Seq<char>>, statement: Seq<char>) -> Set<Seq<char>> {
    tables.filter(|table: Seq<char>| drop_statement(table) != statement)
}

/// The names of the tables that are left after statements, one after the other.
pub open spec fn after_drops(tables: Set<Seq<char>>, statements: Seq<Seq<char>>) -> Set<Seq<char>>
    decreases statements.len(),
{
    if statements.len() == 0 {
        tables
    } else {
        after_drop(after_drops(tables, statements.drop_last()), statements.last())
    }
}

/// Statements that drop tables leave the other tables.
proof fn lemma_after_drops(tables: Set<Seq<char>>, dropped: Seq<Seq<char>>)
    ensures
        after_drops(tables, dropped.map_values(|table: Seq<char>| drop_statement(table)))
            == tables.difference(dropped.to_set()),
    decreases dropped.len(),
{
    let f = |table: Seq<char>| drop_statement(table);
    let statements = dropped.map_values(f);
    if dropped.len() == 0 {
        assert(tables.difference(dropped.to_set()) =~= tables);
    } else {
        let shorter = dropped.drop_last();
        let last = dropped.last();
        lemma_after_drops(tables, shorter);
        assert(statements.drop_last() =~= shorter.map_values(f));
        assert forall|table: Seq<char>| drop_statement(table) == drop_statement(
            last,
        ) implies table == last by {
            let prefix = "DROP TABLE IF EXISTS "@;
            assert(table =~= drop_statement(table).skip(prefix.len() as int));
            assert(last =~= drop_statement(last).skip(prefix.len() as int));
        }
        assert forall|table: Seq<char>| dropped.to_set().contains(table) <==> (table == last
            || shorter.to_set().contains(table)) by {
            assert(dropped =~= shorter.push(last));
            if table == last {
                assert(dropped[dropped.len() - 1] == table);
            }
            if shorter.to_set().contains(table) {
                let i = choose|i: int| 0 <= i < shorter.len() && shorter[i] == table;
                assert(dropped[i] == table);
            }
        }
        assert(after_drops(tables, statements) =~= tables.difference(dropped.to_set()));
    }
}

/// Each statement drops the table that stands in its place.
proof fn lemma_drop_statements()
    ensures
        drop_statements() == dropped_tables().map_values(|table: Seq<char>| drop_statement(table)),
{
    reveal_strlit("DROP TABLE IF EXISTS ");
    reveal_strlit("_sqlx_migrations");
    reveal_strlit("DROP TABLE IF EXISTS _sqlx_migrations");
    reveal_strlit("vault_addresses");
    reveal_strlit("DROP TABLE IF EXISTS vault_addresses");
    reveal_strlit("used_anchorwatch_keys");
    reveal_strlit("DROP TABLE IF EXISTS used_anchorwatch_keys");
    reveal_strlit("anchorwatch_keys");
    reveal_strlit("DROP TABLE IF EXISTS anchorwatch_keys");
    reveal_strlit("psbts");
    reveal_strlit("DROP TABLE IF EXISTS psbts");
    reveal_strlit("whitelist_update");
    reveal_strlit("DROP TABLE IF EXISTS whitelist_update");
    reveal_strlit("vault_parameters");
    reveal_strlit("DROP TABLE IF EXISTS vault_parameters");
    reveal_strlit("users");
    reveal_strlit("DROP TABLE IF EXISTS users");
    reveal_strlit("version");
    reveal_strlit("DROP TABLE IF EXISTS version");
    reveal_strlit("anchor_tx");
    reveal_strlit("DROP TABLE IF EXISTS anchor_tx");
    reveal_strlit("txout");
    reveal_strlit("DROP TABLE IF EXISTS txout");
    reveal_strlit("tx");
    reveal_strlit("DROP TABLE IF EXISTS tx");
    reveal_strlit("block");
    reveal_strlit("DROP TABLE IF EXISTS block");
    reveal_strlit("keychain");
    reveal_strlit("DROP TABLE IF EXISTS keychain");
    reveal_strlit("network");
    reveal_strlit("DROP TABLE IF EXISTS network");
    assert("DROP TABLE IF EXISTS _sqlx_migrations"@ =~= drop_statement("_sqlx_migrations"@));
    assert("DROP TABLE IF EXISTS vault_addresses"@ =~= drop_statement("vault_addresses"@));
    assert("DROP TABLE IF EXISTS used_anchorwatch_keys"@ =~= drop_statement("used_anchorwatch_keys"@));
    assert("DROP TABLE IF EXISTS anchorwatch_keys"@ =~= drop_statement("anchorwatch_keys"@));
    assert("DROP TABLE IF EXISTS psbts"@ =~= drop_statement("psbts"@));
    assert("DROP TABLE IF EXISTS whitelist_update"@ =~= drop_statement("whitelist_update"@));
    assert("DROP TABLE IF EXISTS vault_parameters"@ =~= drop_statement("vault_parameters"@));
    assert("DROP TABLE IF EXISTS users"@ =~= drop_statement("users"@));
    assert("DROP TABLE IF EXISTS version"@ =~= drop_statement("version"@));
    assert("DROP TABLE IF EXISTS anchor_tx"@ =~= drop_statement("anchor_tx"@));
    assert("DROP TABLE IF EXISTS txout"@ =~= drop_statement("txout"@));
    assert("DROP TABLE IF EXISTS tx"@ =~= drop_statement("tx"@));
    assert("DROP TABLE IF EXISTS block"@ =~= drop_statement("block"@));
    assert("DROP TABLE IF EXISTS keychain"@ =~= drop_statement("keychain"@));
    assert("DROP TABLE IF EXISTS network"@ =~= drop_statement("network"@));
    assert(drop_statements() =~= dropped_tables().map_values(
        |table: Seq<char>| drop_statement(table),
    ));
}

/// Dropping all tables leaves none of those that are listed, whether they were there or not, and
/// every other. Doing so again changes nothing. Where there are no others, no table is left.
pub proof fn law_drop_all(tables: Set<Seq<char>>)
    ensures
        after_drops(tables, drop_statements()) == tables.difference(dropped_tables().to_set()),
        after_drops(after_drops(tables, drop_statements()), drop_statements()) == after_drops(
            tables,
            drop_statements(),
        ),
        tables.subset_of(dropped_tables().to_set()) ==> after_drops(tables, drop_statements())
            == Set::<Seq<char>>::empty(),
{
    lemma_drop_statements();
    lemma_after_drops(tables, dropped_tables());
    let left = after_drops(tables, drop_statements());
    lemma_after_drops(left, dropped_tables());
    assert(left.difference(dropped_tables().to_set()) =~= left);
    if tables.subset_of(dropped_tables().to_set()) {
        assert(left =~= Set::<Seq<char>>::empty());
    }
}

} // verus!
