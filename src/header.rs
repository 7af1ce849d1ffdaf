//! The header at the start of every b-tree page.
use vstd::prelude::*;
use crate::bytes::{be16, be32, read_be16, read_be32};
use crate::error::DbError;

verus! {

/// The four kinds of b-tree page.
#[derive(Debug, Clone, Copy, PartialEq, Eq, Structural)]
pub enum BTreePage {
    InteriorIndex,
    InteriorTable,
    LeafIndex,
    LeafTable,
}

/// The page kind that a page's first byte names.
pub open spec fn page_type_of(b: u8) -> Option<BTreePage> {
    if b == 2 {
        Some(BTreePage::InteriorIndex)
    } else if b == 5 {
        Some(BTreePage::InteriorTable)
    } else if b == 10 {
        Some(BTreePage::LeafIndex)
    } else if b == 13 {
        Some(BTreePage::LeafTable)
    } else {
        None
    }
}

impl BTreePage {
    pub open spec fn is_interior(self) -> bool {
        self == BTreePage::InteriorIndex || self == BTreePage::InteriorTable
    }

    /// The size in bytes of the header of a page of this kind.
    pub open spec fn header_size(self) -> nat {
        if self.is_interior() {
            12
        } else {
            8
        }
    }
}

/// A decoded b-tree page header.
#[derive(Debug, Clone, Copy)]
pub struct PageHeader {
    pub page_type: BTreePage,
    /// Offset of the first freeblock, zero if there is none.
    pub first_free_block_start: u16,
    pub number_of_cells: u16,
    /// Offset of the first byte of the cell content area.
    pub start_of_content_area: u16,
    pub fragmented_free_bytes: u8,
    /// The child page right of every key; present exactly on interior pages.
    pub right_most_pointer: Option<u32>,
}

/// `h` is the header that the bytes `s` encode.
pub open spec fn header_matches(h: PageHeader, s: Seq<u8>) -> bool {
    &&& s.len() >= 1 && page_type_of(s[0]) == Some(h.page_type)
    &&& s.len() >= h.page_type.header_size()
    &&& h.first_free_block_start as nat == be16(s, 1)
    &&& h.number_of_cells as nat == be16(s, 3)
    &&& h.start_of_content_area as nat == be16(s, 5)
    &&& h.fragmented_free_bytes == s[7]
    &&& h.right_most_pointer == if h.page_type.is_interior() {
        Some(be32(s, 8) as u32)
    } else {
        None
    }
}

/// The error with which decoding the header bytes `s` fails, if it fails.
pub open spec fn header_error(s: Seq<u8>) -> Option<DbError> {
    if s.len() == 0 {
        Some(DbError::TruncatedHeader)
    } else if page_type_of(s[0]) is None {
        Some(DbError::InvalidPageType(s[0]))
    } else if s.len() < page_type_of(s[0]).unwrap().header_size() {
        Some(DbError::TruncatedHeader)
    } else {
        None
    }
}

impl PageHeader {
    /// Decodes the page header at the start of `stream`.
    pub fn parse(stream: &[u8]) -> (r: Result<PageHeader, DbError>)
        ensures
            match r {
                Ok(h) => header_error(stream@) is None && header_matches(h, stream@),
                Err(e) => header_error(stream@) == Some(e),
            },
    {
        if stream.len() == 0 {
            return Err(DbError::TruncatedHeader);
        }
        let page_type = match stream[0] {
            2 => BTreePage::InteriorIndex,
            5 => BTreePage::InteriorTable,
            10 => BTreePage::LeafIndex,
            13 => BTreePage::LeafTable,
            x => return Err(DbError::InvalidPageType(x)),
        };
        let interior = match page_type {
            BTreePage::InteriorIndex | BTreePage::InteriorTable => true,
            _ => false,
        };
        if stream.len() < 8 || (interior && stream.len() < 12) {
            return Err(DbError::TruncatedHeader);
        }
        let right_most_pointer = if interior {
            Some(read_be32(stream, 8))
        } else {
            None
        };
        Ok(PageHeader {
            page_type,
            first_free_block_start: read_be16(stream, 1),
            number_of_cells: read_be16(stream, 3),
            start_of_content_area: read_be16(stream, 5),
            fragmented_free_bytes: stream[7],
            right_most_pointer,
        })
    }

    /// The number of bytes of this header: 12 on interior pages, 8 on leaves.
    pub fn size(&self) -> (r: usize)
        ensures
            r as nat == self.page_type.header_size(),
    {
        match self.page_type {
            BTreePage::InteriorIndex | BTreePage::InteriorTable => 12,
            BTreePage::LeafIndex | BTreePage::LeafTable => 8,
        }
    }
}

} // verus!
