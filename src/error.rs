//! The ways in which reading a database or answering a query can fail.
use vstd::prelude::*;

verus! {

/// Why an operation on the database failed.
#[derive(Debug, Clone, Copy, PartialEq, Eq, Structural)]
pub enum DbError {
    /// A varint or a cell runs past the end of its page.
    Truncated,
    /// A record's header is inconsistent, uses a reserved serial type, or
    /// declares more bytes than the record holds.
    MalformedRecord,
    /// A page's first byte names no b-tree page type.
    InvalidPageType(u8),
    /// A page header or a cell pointer array does not fit in the page.
    TruncatedHeader,
    /// A page number lies outside the file.
    PageOutOfRange,
    /// A cell pointer points outside the cell content area of its page.
    CellPointerOutOfBounds,
    /// The rowid keys of an interior table page decrease.
    UnorderedKeys,
    /// Descending the tree visited more levels than the file has pages.
    TreeTooDeep,
    /// A rowid stored in an index is not a one to three byte integer.
    BadRowidWidth,
    /// A rowid that an index names is absent from its table.
    RowNotFound,
    /// A catalog record does not have the five catalog columns.
    BadSchema,
    /// The queried table is not in the catalog.
    TableNotFound,
    /// A catalog entry's CREATE statement could not be parsed.
    BadCreateStatement,
    /// The query names a column that its table does not have.
    UnknownColumn,
}

} // verus!
