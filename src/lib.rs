//! A read-only query engine over SQLite database files: decoders for the
//! file format, walks over table and index b-trees, the catalog, parsers for
//! the statements involved, and a query executor that answers an equality
//! filter through an index where one exists.

pub mod btree;
pub mod bytes;
pub mod creation_sql;
pub mod db;
pub mod decimal;
pub mod error;
pub mod header;
pub mod lookup;
pub mod page;
pub mod query;
pub mod record;
pub mod schema;
pub mod search;
pub mod select_sql;
pub mod text;
pub mod util;
pub mod varint;
