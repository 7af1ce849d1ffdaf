//! The b-tree layer: pages of a database image, the cells they hold, and the
//! three walks over table and index trees, stated as spec functions.
use vstd::prelude::*;
use crate::bytes::{be16, be32};
use crate::error::DbError;
use crate::header::{BTreePage, PageHeader, header_error, page_type_of};
use crate::record::record_columns;
use crate::varint::{varint_fits, varint_len, varint_value};

verus! {

/// A table row: its rowid and the raw bytes of its columns.
pub type RowView = (i64, Seq<Seq<u8>>);

/// Page `n` (counted from 1) of a database image with pages of `ps` bytes.
pub open spec fn page_bytes(db: Seq<u8>, ps: nat, n: nat) -> Option<Seq<u8>> {
    if n >= 1 && ps > 0 && (n - 1) * ps + ps <= db.len() {
        Some(db.subrange((n - 1) * ps, (n - 1) * ps + ps))
    } else {
        None
    }
}

/// Where the b-tree header of page `n` starts: after the file header on page 1.
pub open spec fn header_offset(n: nat) -> nat {
    if n == 1 {
        100
    } else {
        0
    }
}

/// The header that the bytes `s` encode, where `header_error(s)` is `None`.
pub open spec fn header_of(s: Seq<u8>) -> PageHeader {
    let t = page_type_of(s[0]).unwrap();
    PageHeader {
        page_type: t,
        first_free_block_start: be16(s, 1) as u16,
        number_of_cells: be16(s, 3) as u16,
        start_of_content_area: be16(s, 5) as u16,
        fragmented_free_bytes: s[7],
        right_most_pointer: if t.is_interior() {
            Some(be32(s, 8) as u32)
        } else {
            None
        },
    }
}

/// The `n` cell pointers of the array at `start`.
pub open spec fn pointer_array(page: Seq<u8>, start: int, n: nat) -> Seq<u16> {
    Seq::new(n, |i: int| be16(page, start + 2 * i) as u16)
}

/// Every pointer lies in `[lo, hi)`.
pub open spec fn pointers_within(ptrs: Seq<u16>, lo: nat, hi: nat) -> bool {
    forall|i: int| 0 <= i < ptrs.len() ==> lo <= #[trigger] ptrs[i] < hi
}

/// The header and the cell pointers of a page whose b-tree header is at `off`.
pub open spec fn decode_page(page: Seq<u8>, off: nat) -> Result<(PageHeader, Seq<u16>), DbError> {
    if off > page.len() {
        Err(DbError::TruncatedHeader)
    } else {
        let hs = page.skip(off as int);
        match header_error(hs) {
            Some(e) => Err(e),
            None => {
                let h = header_of(hs);
                let start = off + h.page_type.header_size();
                let n = h.number_of_cells as nat;
                if start + 2 * n > page.len() {
                    Err(DbError::TruncatedHeader)
                } else {
                    let ptrs = pointer_array(page, start as int, n);
                    if pointers_within(ptrs, start, page.len()) {
                        Ok((h, ptrs))
                    } else {
                        Err(DbError::CellPointerOutOfBounds)
                    }
                }
            },
        }
    }
}

/// Page `n` of the image, decoded: its bytes, header and cell pointers.
pub open spec fn load_page(db: Seq<u8>, ps: nat, n: nat) -> Result<
    (Seq<u8>, PageHeader, Seq<u16>),
    DbError,
> {
    match page_bytes(db, ps, n) {
        None => Err(DbError::PageOutOfRange),
        Some(page) => match decode_page(page, header_offset(n)) {
            Err(e) => Err(e),
            Ok((h, ptrs)) => Ok((page, h, ptrs)),
        },
    }
}

/// The cell of an interior table page at offset `p`: its left child and rowid key.
pub open spec fn interior_table_cell(page: Seq<u8>, p: nat) -> Result<(u32, i64), DbError> {
    if p + 4 > page.len() || !varint_fits(page.skip(p + 4int)) {
        Err(DbError::Truncated)
    } else {
        Ok((be32(page, p as int) as u32, varint_value(page.skip(p + 4int)) as u64 as i64))
    }
}

/// The cells at `ptrs` of an interior table page, in order; the first failure wins.
pub open spec fn interior_cells_from(page: Seq<u8>, ptrs: Seq<u16>) -> Result<Seq<(u32, i64)>, DbError>
    decreases ptrs.len(),
{
    if ptrs.len() == 0 {
        Ok(Seq::empty())
    } else {
        match interior_table_cell(page, ptrs[0] as nat) {
            Err(e) => Err(e),
            Ok(c) => match interior_cells_from(page, ptrs.drop_first()) {
                Err(e) => Err(e),
                Ok(rest) => Ok(seq![c] + rest),
            },
        }
    }
}

/// The rowid keys of the cells never decrease.
pub open spec fn keys_sorted(cells: Seq<(u32, i64)>) -> bool {
    forall|i: int, j: int| 0 <= i <= j < cells.len() ==> cells[i].1 <= cells[j].1
}

/// The cells of an interior table page, which must be ordered by key.
pub open spec fn interior_cells(page: Seq<u8>, ptrs: Seq<u16>) -> Result<Seq<(u32, i64)>, DbError> {
    match interior_cells_from(page, ptrs) {
        Err(e) => Err(e),
        Ok(cells) => if keys_sorted(cells) {
            Ok(cells)
        } else {
            Err(DbError::UnorderedKeys)
        },
    }
}

/// The cell of a leaf table page at offset `p`: payload size, rowid, record.
pub open spec fn leaf_table_cell(page: Seq<u8>, p: nat) -> Result<RowView, DbError> {
    let t1 = page.skip(p as int);
    let n1 = varint_len(t1);
    let t2 = page.skip((p + n1) as int);
    let n2 = varint_len(t2);
    if p > page.len() || !varint_fits(t1) || !varint_fits(t2) {
        Err(DbError::Truncated)
    } else {
        match record_columns(page.skip((p + n1 + n2) as int)) {
            None => Err(DbError::MalformedRecord),
            Some(cols) => Ok((varint_value(t2) as u64 as i64, cols)),
        }
    }
}

/// The rows of the cells at `ptrs` of a leaf table page.
pub open spec fn leaf_rows(page: Seq<u8>, ptrs: Seq<u16>) -> Result<Seq<RowView>, DbError>
    decreases ptrs.len(),
{
    if ptrs.len() == 0 {
        Ok(Seq::empty())
    } else {
        match leaf_table_cell(page, ptrs[0] as nat) {
            Err(e) => Err(e),
            Ok(r) => match leaf_rows(page, ptrs.drop_first()) {
                Err(e) => Err(e),
                Ok(rest) => Ok(seq![r] + rest),
            },
        }
    }
}

/// Every row of the table tree rooted at page `n`, leaves left to right.
/// `fuel` bounds the depth of the descent.
pub open spec fn table_rows(db: Seq<u8>, ps: nat, n: nat, fuel: nat) -> Result<Seq<RowView>, DbError>
    decreases fuel, 0nat, 0nat,
{
    if fuel == 0 {
        Err(DbError::TreeTooDeep)
    } else {
        match load_page(db, ps, n) {
            Err(e) => Err(e),
            Ok((page, h, ptrs)) => match h.page_type {
                BTreePage::LeafTable => leaf_rows(page, ptrs),
                BTreePage::InteriorTable => match interior_cells(page, ptrs) {
                    Err(e) => Err(e),
                    Ok(cells) => subtrees_rows(
                        db,
                        ps,
                        cells.map_values(|c: (u32, i64)| c.0).push(h.right_most_pointer.unwrap()),
                        (fuel - 1) as nat,
                    ),
                },
                _ => Ok(Seq::empty()),
            },
        }
    }
}

/// The rows of the subtrees rooted at `children`, one after another.
pub open spec fn subtrees_rows(db: Seq<u8>, ps: nat, children: Seq<u32>, fuel: nat) -> Result<
    Seq<RowView>,
    DbError,
>
    decreases fuel, 1nat, children.len(),
{
    if children.len() == 0 {
        Ok(Seq::empty())
    } else {
        match table_rows(db, ps, children[0] as nat, fuel) {
            Err(e) => Err(e),
            Ok(r) => match subtrees_rows(db, ps, children.drop_first(), fuel) {
                Err(e) => Err(e),
                Ok(rest) => Ok(r + rest),
            },
        }
    }
}

/// The child of the first cell whose key is at least `rowid`, or `rmp` if none is.
pub open spec fn descent_child(cells: Seq<(u32, i64)>, rowid: i64, rmp: u32) -> u32
    decreases cells.len(),
{
    if cells.len() == 0 {
        rmp
    } else if rowid <= cells[0].1 {
        cells[0].0
    } else {
        descent_child(cells.drop_first(), rowid, rmp)
    }
}

/// The first row with the given rowid.
pub open spec fn find_row(rows: Seq<RowView>, rowid: i64) -> Option<RowView>
    decreases rows.len(),
{
    if rows.len() == 0 {
        None
    } else if rows[0].0 == rowid {
        Some(rows[0])
    } else {
        find_row(rows.drop_first(), rowid)
    }
}

/// The row with the given rowid, found by descending the table tree rooted at page `n`.
pub open spec fn row_by_rowid(db: Seq<u8>, ps: nat, n: nat, rowid: i64, fuel: nat) -> Result<
    RowView,
    DbError,
>
    decreases fuel,
{
    if fuel == 0 {
        Err(DbError::TreeTooDeep)
    } else {
        match load_page(db, ps, n) {
            Err(e) => Err(e),
            Ok((page, h, ptrs)) => match h.page_type {
                BTreePage::LeafTable => match leaf_rows(page, ptrs) {
                    Err(e) => Err(e),
                    Ok(rows) => match find_row(rows, rowid) {
                        Some(r) => Ok(r),
                        None => Err(DbError::RowNotFound),
                    },
                },
                BTreePage::InteriorTable => match interior_cells(page, ptrs) {
                    Err(e) => Err(e),
                    Ok(cells) => row_by_rowid(
                        db,
                        ps,
                        descent_child(cells, rowid, h.right_most_pointer.unwrap()) as nat,
                        rowid,
                        (fuel - 1) as nat,
                    ),
                },
                _ => Err(DbError::RowNotFound),
            },
        }
    }
}

/// Byte-wise lexicographic order.
pub open spec fn bytes_lt(a: Seq<u8>, b: Seq<u8>) -> bool
    decreases a.len(),
{
    if a.len() == 0 {
        b.len() > 0
    } else if b.len() == 0 {
        false
    } else if a[0] != b[0] {
        a[0] < b[0]
    } else {
        bytes_lt(a.drop_first(), b.drop_first())
    }
}

/// The unsigned big-endian value of `s`.
pub open spec fn be_unsigned(s: Seq<u8>) -> nat
    decreases s.len(),
{
    if s.len() == 0 {
        0
    } else {
        be_unsigned(s.drop_last()) * 256 + s.last() as nat
    }
}

/// 256 to the power `k`.
pub open spec fn pow256(k: nat) -> nat
    decreases k,
{
    if k == 0 {
        1
    } else {
        256 * pow256((k - 1) as nat)
    }
}

/// The two's-complement big-endian value of `s`.
pub open spec fn be_signed(s: Seq<u8>) -> int {
    if s.len() > 0 && s[0] >= 0x80 {
        be_unsigned(s) - pow256(s.len())
    } else {
        be_unsigned(s) as int
    }
}

/// The rowid stored in an index entry: a one to three byte signed integer.
pub open spec fn index_rowid(s: Seq<u8>) -> Result<i64, DbError> {
    if 1 <= s.len() <= 3 {
        Ok(be_signed(s) as i64)
    } else {
        Err(DbError::BadRowidWidth)
    }
}

/// The entry of an index page's cell at offset `p`: its left child (zero on
/// a leaf), its key, and the bytes of its rowid.
pub open spec fn index_cell(page: Seq<u8>, p: nat, interior: bool) -> Result<
    (u32, Seq<u8>, Seq<u8>),
    DbError,
> {
    let base: nat = if interior {
        p + 4
    } else {
        p
    };
    let t = page.skip(base as int);
    if base > page.len() || !varint_fits(t) {
        Err(DbError::Truncated)
    } else {
        match record_columns(page.skip((base + varint_len(t)) as int)) {
            None => Err(DbError::MalformedRecord),
            Some(cols) => if cols.len() < 2 {
                Err(DbError::MalformedRecord)
            } else {
                Ok(
                    (
                        if interior {
                            be32(page, p as int) as u32
                        } else {
                            0u32
                        },
                        cols[0],
                        cols[1],
                    ),
                )
            },
        }
    }
}

/// The rowids of the entries at `ptrs` of a leaf index page whose key is `value`.
pub open spec fn leaf_index_rowids(page: Seq<u8>, ptrs: Seq<u16>, value: Seq<u8>) -> Result<
    Seq<i64>,
    DbError,
>
    decreases ptrs.len(),
{
    if ptrs.len() == 0 {
        Ok(Seq::empty())
    } else {
        match index_cell(page, ptrs[0] as nat, false) {
            Err(e) => Err(e),
            Ok((_, key, rb)) => {
                let here: Result<Seq<i64>, DbError> = if key == value {
                    match index_rowid(rb) {
                        Err(e) => Err(e),
                        Ok(r) => Ok(seq![r]),
                    }
                } else {
                    Ok(Seq::empty())
                };
                match here {
                    Err(e) => Err(e),
                    Ok(h) => match leaf_index_rowids(page, ptrs.drop_first(), value) {
                        Err(e) => Err(e),
                        Ok(rest) => Ok(h + rest),
                    },
                }
            },
        }
    }
}

/// The rowids of the index tree rooted at page `n` whose key is `value`.
pub open spec fn index_rowids(db: Seq<u8>, ps: nat, n: nat, value: Seq<u8>, fuel: nat) -> Result<
    Seq<i64>,
    DbError,
>
    decreases fuel, 0nat, 0nat,
{
    if fuel == 0 {
        Err(DbError::TreeTooDeep)
    } else {
        match load_page(db, ps, n) {
            Err(e) => Err(e),
            Ok((page, h, ptrs)) => match h.page_type {
                BTreePage::LeafIndex => leaf_index_rowids(page, ptrs, value),
                BTreePage::InteriorIndex => interior_index_rowids(
                    db,
                    ps,
                    page,
                    ptrs,
                    h.right_most_pointer.unwrap(),
                    value,
                    (fuel - 1) as nat,
                ),
                _ => Ok(Seq::empty()),
            },
        }
    }
}

/// The rowids for `value` found through the cells at `ptrs` of an interior
/// index page and, unless a cell's key exceeds `value`, its right-most child.
pub open spec fn interior_index_rowids(
    db: Seq<u8>,
    ps: nat,
    page: Seq<u8>,
    ptrs: Seq<u16>,
    rmp: u32,
    value: Seq<u8>,
    fuel: nat,
) -> Result<Seq<i64>, DbError>
    decreases fuel, 1nat, ptrs.len(),
{
    if ptrs.len() == 0 {
        index_rowids(db, ps, rmp as nat, value, fuel)
    } else {
        match index_cell(page, ptrs[0] as nat, true) {
            Err(e) => Err(e),
            Ok((child, key, rb)) => if bytes_lt(key, value) {
                interior_index_rowids(db, ps, page, ptrs.drop_first(), rmp, value, fuel)
            } else if key == value {
                match index_rowid(rb) {
                    Err(e) => Err(e),
                    Ok(r) => match index_rowids(db, ps, child as nat, value, fuel) {
                        Err(e) => Err(e),
                        Ok(left) => match interior_index_rowids(
                            db,
                            ps,
                            page,
                            ptrs.drop_first(),
                            rmp,
                            value,
                            fuel,
                        ) {
                            Err(e) => Err(e),
                            Ok(rest) => Ok(seq![r] + left + rest),
                        },
                    },
                }
            } else {
                index_rowids(db, ps, child as nat, value, fuel)
            },
        }
    }
}

/// Every decoded cell pointer lies between the end of the page header and the
/// end of the page.
pub proof fn lemma_cell_pointer_bounds(page: Seq<u8>, off: nat)
    requires
        decode_page(page, off) is Ok,
    ensures
        ({
            let (h, ptrs) = decode_page(page, off).unwrap();
            forall|i: int|
                0 <= i < ptrs.len() ==> off + h.page_type.header_size() <= #[trigger] ptrs[i]
                    < page.len()
        }),
{
}

/// On an interior table page that decodes, the rowid keys never decrease.
pub proof fn lemma_interior_keys_ordered(page: Seq<u8>, ptrs: Seq<u16>)
    requires
        interior_cells(page, ptrs) is Ok,
    ensures
        forall|i: int, j: int|
            0 <= i <= j < ptrs.len() ==> interior_cells(page, ptrs).unwrap()[i].1 <= interior_cells(
                page,
                ptrs,
            ).unwrap()[j].1,
{
    lemma_interior_cells_len(page, ptrs);
}

proof fn lemma_interior_cells_len(page: Seq<u8>, ptrs: Seq<u16>)
    requires
        interior_cells_from(page, ptrs) is Ok,
    ensures
        interior_cells_from(page, ptrs).unwrap().len() == ptrs.len(),
    decreases ptrs.len(),
{
    if ptrs.len() > 0 {
        lemma_interior_cells_len(page, ptrs.drop_first());
    }
}

} // verus!
