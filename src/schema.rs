//! Entries of the schema catalog, the table on page 1 that describes every
//! table and index of the database.
use vstd::prelude::*;
use vstd::slice::slice_to_vec;
use crate::btree::{be_signed, index_rowid};
use crate::db::parse_24bit_be_twos_complement;
use crate::error::DbError;

verus! {

/// One catalog entry.
#[derive(Debug, Clone)]
pub struct Schema {
    /// "table", "index", "view" or "trigger".
    pub kind: Vec<u8>,
    pub name: Vec<u8>,
    pub table_name: Vec<u8>,
    pub root_page: i64,
    /// The CREATE statement of the entry.
    pub sql: Vec<u8>,
}

/// A catalog entry as values: kind, name, table name, root page, CREATE statement.
pub type SchemaView = (Seq<u8>, Seq<u8>, Seq<u8>, i64, Seq<u8>);

impl View for Schema {
    type V = SchemaView;

    open spec fn view(&self) -> SchemaView {
        (self.kind@, self.name@, self.table_name@, self.root_page, self.sql@)
    }
}

/// The catalog entry that a record's columns describe: at least five columns,
/// the fourth a one to three byte signed integer.
pub open spec fn catalog_entry(cols: Seq<Seq<u8>>) -> Option<SchemaView> {
    if cols.len() < 5 || index_rowid(cols[3]) is Err {
        None
    } else {
        Some((cols[0], cols[1], cols[2], be_signed(cols[3]) as i64, cols[4]))
    }
}

impl Schema {
    /// Builds a catalog entry from the columns of a catalog record.
    pub fn parse_return_option(record: Vec<Vec<u8>>) -> (r: Option<Self>)
        ensures
            match r {
                Some(s) => catalog_entry(record.deep_view()) == Some(s@),
                None => catalog_entry(record.deep_view()) is None,
            },
    {
        if record.len() < 5 || record[3].len() < 1 || record[3].len() > 3 {
            return None;
        }
        let ghost cols = record.deep_view();
        let root_page = parse_24bit_be_twos_complement(record[3].as_slice());
        let kind = slice_to_vec(record[0].as_slice());
        let name = slice_to_vec(record[1].as_slice());
        let table_name = slice_to_vec(record[2].as_slice());
        let sql = slice_to_vec(record[4].as_slice());
        assert(cols[0] == kind@ && cols[1] == name@ && cols[2] == table_name@ && cols[4] == sql@);
        assert(cols[3] == record@[3]@);
        Some(Schema { kind, name, table_name, root_page, sql })
    }

    /// Builds a catalog entry from a catalog record, failing with `BadSchema`.
    pub fn parse(record: Vec<Vec<u8>>) -> (r: Result<Self, DbError>)
        ensures
            match r {
                Ok(s) => catalog_entry(record.deep_view()) == Some(s@),
                Err(e) => e == DbError::BadSchema && catalog_entry(record.deep_view()) is None,
            },
    {
        match Schema::parse_return_option(record) {
            Some(s) => Ok(s),
            None => Err(DbError::BadSchema),
        }
    }
}

} // verus!
