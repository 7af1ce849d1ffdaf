//! The cell count of a b-tree page, read without decoding the rest of its header.
use vstd::prelude::*;
use crate::bytes::{be16, read_be16};
use crate::error::DbError;

verus! {

/// The part of a page header that tells how many cells the page holds.
#[derive(Debug, Clone, Copy)]
pub struct PageHeader {
    pub number_of_cells: u16,
}

/// Reads the cell count from the page header at the start of `header_bytes`.
pub fn get_page_header(header_bytes: &[u8]) -> (r: Result<PageHeader, DbError>)
    ensures
        match r {
            Ok(h) => header_bytes@.len() >= 5 && h.number_of_cells as nat == be16(
                header_bytes@,
                3,
            ),
            Err(e) => header_bytes@.len() < 5 && e == DbError::TruncatedHeader,
        },
{
    if header_bytes.len() < 5 {
        return Err(DbError::TruncatedHeader);
    }
    Ok(PageHeader { number_of_cells: read_be16(header_bytes, 3) })
}

} // verus!
