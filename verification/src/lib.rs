//! Persistence of a bitcoin wallet's change sets in Postgres tables.

pub mod anchor;
pub mod changeset;
pub mod descriptor;
pub mod error;
pub mod hash;
pub mod held;
pub mod local_chain;
pub mod network;
pub mod number;
pub mod order;
pub mod query;
pub mod reading;
pub mod repeat;
pub mod round_trip;
pub mod rows;
pub mod schema;
pub mod shared;
pub mod sql;
pub mod statement;
pub mod store;
pub mod tables;
pub mod transaction;
pub mod tx_graph;
pub mod views;
pub mod writing;

pub use error::BdkSqlxError;
pub use local_chain::{
    local_chain_changeset_from_postgres, local_chain_changeset_persist_to_postgres,
};
pub use schema::{drop_all, easy_backup};
pub use store::Store;
pub use tx_graph::{tx_graph_changeset_from_postgres, tx_graph_changeset_persist_to_postgres};
