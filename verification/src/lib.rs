//! RUSQL: a small embedded, in-memory SQL engine.
//!
//! The engine keeps a [`database::Database`] of named tables. Each
//! [`table::Table`] stores its rows column by column: every column owns a
//! map from row id to that column's value, plus an optional secondary
//! index from value to row id for unique and primary-key columns.
//! SQL text is parsed by the `sqlparser` crate; the translators and the
//! storage layer work on plain values and carry full contracts.

pub mod create;
pub mod database;
pub mod dispatch;
pub mod error;
pub mod insert;
pub mod laws;
pub mod numtext;
pub mod repl;
pub mod rowmap;
pub mod sqlast;
pub mod table;
pub mod text;

pub use database::Database;
pub use error::RUSQLError;
pub use error::Result;
pub use table::Column;
pub use table::DataType;
pub use table::Table;
