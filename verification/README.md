# bdk_sqlx

Persists the change sets of a `bdk_wallet` wallet in Postgres tables, and reads them back.

- `src/` decides what is written and what rows mean. It turns a change set into the list of
  statements that store it, with the values they bind, and the rows of the tables into the change
  set they stand for. Reading is a sequence of steps: the library says which query comes next and
  takes the rows that it gave.
- `app/` holds the connection pool. It executes the statements in one transaction, makes the
  queries, and implements `AsyncWalletPersister`.
- `tests/` runs the library, on a small database in memory where tables are needed.

The functions in `src/` are verified with Verus, except for the few that call another crate: those are
believed, as said below. `tables.rs` says what the statements do to the
tables, `held.rs` what it means that tables hold a change set, and `round_trip.rs` what follows:

- `law_write`: a change set that fits is written, and the tables then hold what was stored before,
  with the changes.
- `law_read`: in whatever order the database lists its rows, what is read is what the tables hold.
- `law_write_then_read`: a wallet's first change set is read back as it was.
- `law_write_again`: writing what is stored already changes nothing.
- `law_write_leaves_others`: writing one wallet leaves the rows of every other.

The queries for transactions, outputs, anchors and blocks name no wallet. `shared.rs` says what is
read where two wallets have rows: `law_graph_of_two` and `law_chain_of_two` for any rows,
`law_read_beside_another` for a wallet beside another. `repeat.rs` says that changes without
descriptors and network, written twice, are as written once (`law_write_twice`), and `schema.rs` which
tables are left when all are dropped (`law_drop_all`).

What the library has from `bitcoin`, `miniscript`, `bdk_chain` and `serde_json` stands behind
functions marked `external_body`. Their contracts are believed; the comment above each says what is
claimed. The model of the tables assumes of the schema that `keychain` and `network` have one row per
key, and that `last_revealed` and `last_seen` are null where nothing has set them.
