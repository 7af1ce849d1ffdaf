//! Reading pages, cells, the catalog and the trees of a database image, and
//! answering queries over it.
use vstd::prelude::*;
use vstd::slice::slice_subrange;
use vstd::slice::slice_to_vec;
use crate::btree::{
    RowView, be_signed, be_unsigned, bytes_lt, decode_page, descent_child, find_row,
    header_of, index_cell, index_rowid, index_rowids, interior_cells,
    interior_cells_from, interior_index_rowids, interior_table_cell, keys_sorted,
    leaf_index_rowids, leaf_rows, leaf_table_cell, load_page, pointer_array,
    pointers_within, pow256, row_by_rowid, subtrees_rows, table_rows,
};
use crate::bytes::{be16, read_be16, read_be32};
use crate::error::DbError;
use crate::header::{BTreePage, PageHeader, header_error};
use crate::schema::{Schema, SchemaView, catalog_entry};
use crate::query::schemas_view;
use crate::creation_sql::{fields_view, parse_creation};
use crate::decimal::{decimal, decimal_of_count};
use crate::query::{
    column_position, columns_known, fetch_rows, find_column, find_index_entry, find_table_entry,
    is_count_call, keep_matching_rows, query_output, query_rows, render_lines, resolve_columns,
    table_fields,
};
use crate::select_sql::{SelectClause, Sql, names_view};
use crate::util::read_page;
use crate::record::{parse_record, record_columns};
use crate::varint::{parse_varint, varint_fits, varint_len};

verus! {

/// Decodes the b-tree page header at the start of `header_bytes`.
pub fn get_page_header(header_bytes: &[u8]) -> (r: Result<PageHeader, DbError>)
    ensures
        match r {
            Ok(h) => header_error(header_bytes@) is None && h == header_of(header_bytes@),
            Err(e) => header_error(header_bytes@) == Some(e),
        },
{
    let r = PageHeader::parse(header_bytes);
    if let Ok(h) = r {
        assert(h == header_of(header_bytes@));
    }
    r
}

/// The cell pointers of the array at the start of `stream`: `number_of_cells`
/// big-endian offsets, or as many as `stream` holds.
pub fn parse_cell_pointers(stream: &[u8], number_of_cells: u16) -> (r: Vec<u16>)
    ensures
        r@ == pointer_array(
            stream@,
            0,
            if number_of_cells as nat <= stream@.len() / 2 {
                number_of_cells as nat
            } else {
                stream@.len() / 2
            },
        ),
{
    let n: usize = if (number_of_cells as usize) <= stream.len() / 2 {
        number_of_cells as usize
    } else {
        stream.len() / 2
    };
    let mut r: Vec<u16> = Vec::new();
    let mut i: usize = 0;
    let slen = stream.len();
    assert(2 * n <= slen);
    while i < n
        invariant
            slen == stream@.len(),
            2 * n <= slen,
            i <= n,
            r@ == pointer_array(stream@, 0, i as nat),
        decreases n - i,
    {
        let p = read_be16(stream, 2 * i);
        r.push(p);
        i = i + 1;
        assert(r@ =~= pointer_array(stream@, 0, i as nat));
    }
    r
}

/// Decodes the header and the cell pointers of `page`, whose b-tree header
/// starts at `off`, and checks that every pointer lies inside the page.
pub fn decode_page_cells(page: &[u8], off: usize) -> (r: Result<(PageHeader, Vec<u16>), DbError>)
    ensures
        match r {
            Ok((h, ptrs)) => decode_page(page@, off as nat) == Ok::<_, DbError>((h, ptrs@)),
            Err(e) => decode_page(page@, off as nat) == Err::<(PageHeader, Seq<u16>), _>(e),
        },
{
    let len = page.len();
    if off > len {
        return Err(DbError::TruncatedHeader);
    }
    let hs = slice_subrange(page, off, len);
    assert(hs@ == page@.skip(off as int));
    let h = get_page_header(hs)?;
    let start = off + h.size();
    let n = h.number_of_cells as usize;
    if start > len || 2 * n > len - start {
        return Err(DbError::TruncatedHeader);
    }
    let arr = slice_subrange(page, start, len);
    let ptrs = parse_cell_pointers(arr, h.number_of_cells);
    assert(ptrs@ =~= pointer_array(page@, start as int, n as nat)) by {
        assert forall|i: int| 0 <= i < n implies #[trigger] ptrs@[i] == pointer_array(
            page@,
            start as int,
            n as nat,
        )[i] by {
            assert(arr@[2 * i] == page@[start + 2 * i]);
            assert(arr@[2 * i + 1] == page@[start + 2 * i + 1]);
        }
    }
    let mut i: usize = 0;
    while i < n
        invariant
            i <= n,
            n == ptrs@.len(),
            len == page@.len(),
            hs@ == page@.skip(off as int),
            h == header_of(hs@),
            header_error(hs@) is None,
            off <= len,
            start == off + h.page_type.header_size(),
            n == h.number_of_cells,
            start + 2 * n <= len,
            ptrs@ == pointer_array(page@, start as int, n as nat),
            pointers_within(ptrs@.take(i as int), start as nat, len as nat),
        decreases n - i,
    {
        let p = ptrs[i] as usize;
        if p < start || p >= len {
            assert(!pointers_within(ptrs@, start as nat, len as nat));
            return Err(DbError::CellPointerOutOfBounds);
        }
        i = i + 1;
        assert forall|j: int| 0 <= j < i implies start <= #[trigger] ptrs@.take(i as int)[j]
            < len by {
            if j < i - 1 {
                assert(ptrs@.take(i as int)[j] == ptrs@.take(i - 1)[j]);
            }
        }
    }
    assert(ptrs@.take(n as int) == ptrs@);
    Ok((h, ptrs))
}

/// The page size that the file header of `database` records.
pub fn get_page_size(database: &Vec<u8>) -> (r: Result<u16, DbError>)
    ensures
        match r {
            Ok(ps) => database@.len() >= 18 && ps as nat == be16(database@, 16),
            Err(e) => database@.len() < 18 && e == DbError::TruncatedHeader,
        },
{
    if database.len() < 18 {
        return Err(DbError::TruncatedHeader);
    }
    Ok(read_be16(database.as_slice(), 16))
}

/// The catalog entries of the cells at `ptrs` of page 1; the first failure wins.
pub open spec fn catalog_entries(page: Seq<u8>, ptrs: Seq<u16>) -> Result<Seq<SchemaView>, DbError>
    decreases ptrs.len(),
{
    if ptrs.len() == 0 {
        Ok(Seq::empty())
    } else {
        match leaf_table_cell(page, ptrs[0] as nat) {
            Err(e) => Err(e),
            Ok(row) => match catalog_entry(row.1) {
                None => Err(DbError::BadSchema),
                Some(entry) => match catalog_entries(page, ptrs.drop_first()) {
                    Err(e) => Err(e),
                    Ok(rest) => Ok(seq![entry] + rest),
                },
            },
        }
    }
}

/// The catalog pointers of page 1: the array after the 100-byte file header and
/// the 8-byte leaf header, as much of it as the bytes hold.
pub open spec fn catalog_pointers(database: Seq<u8>, number_of_cells: u16) -> Seq<u16> {
    let arr = database.skip(108);
    pointer_array(
        arr,
        0,
        if number_of_cells as nat <= arr.len() / 2 {
            number_of_cells as nat
        } else {
            arr.len() / 2
        },
    )
}

/// Decodes the catalog: the `number_of_cells` cells of page 1, a leaf table
/// page, each a record of a catalog entry.
pub fn parse_schemas(database: &[u8], number_of_cells: u16) -> (r: Result<Vec<Schema>, DbError>)
    ensures
        match r {
            Ok(v) => database@.len() >= 108 && catalog_entries(
                database@,
                catalog_pointers(database@, number_of_cells),
            ) == Ok::<_, DbError>(schemas_view(v@)),
            Err(e) => database@.len() < 108 && e == DbError::TruncatedHeader || database@.len()
                >= 108 && catalog_entries(database@, catalog_pointers(database@, number_of_cells))
                == Err::<Seq<SchemaView>, _>(e),
        },
{
    if database.len() < 108 {
        return Err(DbError::TruncatedHeader);
    }
    let arr = slice_subrange(database, 108, database.len());
    assert(arr@ == database@.skip(108));
    let ptrs = parse_cell_pointers(arr, number_of_cells);
    let ghost all = ptrs@;
    let mut out: Vec<Schema> = Vec::new();
    let mut i: usize = 0;
    proof {
        assert(all.skip(0) == all);
        if let Ok(rest) = catalog_entries(database@, all) {
            assert(schemas_view(out@) + rest =~= rest);
        }
    }
    while i < ptrs.len()
        invariant
            all == ptrs@,
            all == catalog_pointers(database@, number_of_cells),
            database@.len() >= 108,
            i <= all.len(),
            match catalog_entries(database@, all.skip(i as int)) {
                Ok(rest) => catalog_entries(database@, all) == Ok::<_, DbError>(
                    schemas_view(out@) + rest,
                ),
                Err(e) => catalog_entries(database@, all) == Err::<Seq<SchemaView>, _>(e),
            },
        decreases all.len() - i,
    {
        let ghost cs = all.skip(i as int);
        assert(cs[0] == all[i as int]);
        assert(cs.drop_first() == all.skip(i + 1));
        let cols = parse_btree_leaf_cell_content(ptrs[i], database)?;
        let entry = Schema::parse(cols)?;
        let ghost before = out@;
        out.push(entry);
        proof {
            assert(schemas_view(out@) =~= schemas_view(before).push(entry@));
            if let Ok(rest) = catalog_entries(database@, all.skip(i + 1)) {
                assert(schemas_view(before).push(entry@) + rest =~= schemas_view(before) + (
                seq![entry@] + rest));
            }
        }
        i = i + 1;
    }
    assert(all.skip(i as int) =~= Seq::<u16>::empty());
    assert(schemas_view(out@) + Seq::<SchemaView>::empty() =~= schemas_view(out@));
    Ok(out)
}

/// A table row: its rowid and the raw bytes of each column.
#[derive(Debug, Clone)]
pub struct Record {
    pub row_id: i64,
    pub columns: Vec<Vec<u8>>,
}

impl View for Record {
    type V = RowView;

    open spec fn view(&self) -> RowView {
        (self.row_id, self.columns.deep_view())
    }
}

/// The rows that a vector of records stands for.
pub open spec fn rows_view(v: Seq<Record>) -> Seq<RowView> {
    v.map_values(|r: Record| r@)
}

/// Decodes the cell at `p` of an interior table page: its left child and key.
fn interior_table_cell_at(page: &[u8], p: usize) -> (r: Result<(u32, i64), DbError>)
    ensures
        r == interior_table_cell(page@, p as nat),
{
    let len = page.len();
    if p > len || 4 > len - p {
        return Err(DbError::Truncated);
    }
    let child = read_be32(page, p);
    let tail = slice_subrange(page, p + 4, len);
    assert(tail@ == page@.skip(p + 4int));
    match parse_varint(tail) {
        None => Err(DbError::Truncated),
        Some((key, _)) => Ok((child, key as i64)),
    }
}

/// Decodes the cells of an interior table page and checks that their keys
/// never decrease.
fn interior_cells_at(page: &[u8], ptrs: &Vec<u16>) -> (r: Result<Vec<(u32, i64)>, DbError>)
    ensures
        match r {
            Ok(cells) => interior_cells(page@, ptrs@) == Ok::<_, DbError>(cells@),
            Err(e) => interior_cells(page@, ptrs@) == Err::<Seq<(u32, i64)>, _>(e),
        },
{
    let mut cells: Vec<(u32, i64)> = Vec::new();
    let mut i: usize = 0;
    proof {
        assert(ptrs@.skip(0) == ptrs@);
        if let Ok(rest) = interior_cells_from(page@, ptrs@) {
            assert(cells@ + rest =~= rest);
        }
    }
    while i < ptrs.len()
        invariant
            i <= ptrs@.len(),
            match interior_cells_from(page@, ptrs@.skip(i as int)) {
                Ok(rest) => interior_cells_from(page@, ptrs@) == Ok::<_, DbError>(cells@ + rest),
                Err(e) => interior_cells_from(page@, ptrs@) == Err::<Seq<(u32, i64)>, _>(e),
            },
        decreases ptrs@.len() - i,
    {
        let ghost ps = ptrs@.skip(i as int);
        assert(ps[0] == ptrs@[i as int]);
        assert(ps.drop_first() == ptrs@.skip(i + 1));
        let c = interior_table_cell_at(page, ptrs[i] as usize)?;
        proof {
            if let Ok(rest) = interior_cells_from(page@, ptrs@.skip(i + 1)) {
                assert(cells@.push(c) + rest =~= cells@ + (seq![c] + rest));
            }
        }
        cells.push(c);
        i = i + 1;
    }
    assert(ptrs@.skip(i as int) =~= Seq::<u16>::empty());
    assert(cells@ + Seq::<(u32, i64)>::empty() =~= cells@);
    let mut j: usize = 1;
    while j < cells.len()
        invariant
            1 <= j,
            interior_cells_from(page@, ptrs@) == Ok::<_, DbError>(cells@),
            forall|a: int, b: int| 0 <= a <= b < j && b < cells@.len() ==> cells@[a].1 <= cells@[b].1,
        decreases cells@.len() - j,
    {
        if cells[j - 1].1 > cells[j].1 {
            assert(!keys_sorted(cells@)) by {
                assert(cells@[j - 1].1 > cells@[j as int].1);
            }
            return Err(DbError::UnorderedKeys);
        }
        j = j + 1;
    }
    Ok(cells)
}

/// Decodes the cell at `cell_pointer` of a leaf table page and returns the
/// columns of its record.
pub fn parse_btree_leaf_cell_content(cell_pointer: u16, page_stream: &[u8]) -> (r: Result<
    Vec<Vec<u8>>,
    DbError,
>)
    ensures
        match r {
            Ok(cols) => leaf_table_cell(page_stream@, cell_pointer as nat) is Ok && cols.deep_view()
                == leaf_table_cell(page_stream@, cell_pointer as nat).unwrap().1,
            Err(e) => leaf_table_cell(page_stream@, cell_pointer as nat) == Err::<RowView, _>(e),
        },
{
    let rec = leaf_cell_at(page_stream, cell_pointer as usize)?;
    Ok(rec.columns)
}

/// Decodes the cell at `p` of a leaf table page into a row.
fn leaf_cell_at(page: &[u8], p: usize) -> (r: Result<Record, DbError>)
    ensures
        match r {
            Ok(rec) => leaf_table_cell(page@, p as nat) == Ok::<_, DbError>(rec@),
            Err(e) => leaf_table_cell(page@, p as nat) == Err::<RowView, _>(e),
        },
{
    let len = page.len();
    if p > len {
        return Err(DbError::Truncated);
    }
    let t1 = slice_subrange(page, p, len);
    assert(t1@ == page@.skip(p as int));
    let n1 = match parse_varint(t1) {
        None => return Err(DbError::Truncated),
        Some((_, n1)) => n1,
    };
    let t2 = slice_subrange(page, p + n1, len);
    assert(t2@ == page@.skip(p + n1));
    let (rowid, n2) = match parse_varint(t2) {
        None => return Err(DbError::Truncated),
        Some(x) => x,
    };
    let body = slice_subrange(page, p + n1 + n2, len);
    assert(body@ == page@.skip(p + n1 + n2));
    let columns = parse_record(body)?;
    Ok(Record { row_id: rowid as i64, columns })
}

/// Decodes every cell of a leaf table page into rows, in pointer order.
fn leaf_rows_at(page: &[u8], ptrs: &Vec<u16>) -> (r: Result<Vec<Record>, DbError>)
    ensures
        match r {
            Ok(rows) => leaf_rows(page@, ptrs@) == Ok::<_, DbError>(rows_view(rows@)),
            Err(e) => leaf_rows(page@, ptrs@) == Err::<Seq<RowView>, _>(e),
        },
{
    let mut rows: Vec<Record> = Vec::new();
    let mut i: usize = 0;
    proof {
        assert(ptrs@.skip(0) == ptrs@);
        if let Ok(rest) = leaf_rows(page@, ptrs@) {
            assert(rows_view(rows@) + rest =~= rest);
        }
    }
    while i < ptrs.len()
        invariant
            i <= ptrs@.len(),
            match leaf_rows(page@, ptrs@.skip(i as int)) {
                Ok(rest) => leaf_rows(page@, ptrs@) == Ok::<_, DbError>(rows_view(rows@) + rest),
                Err(e) => leaf_rows(page@, ptrs@) == Err::<Seq<RowView>, _>(e),
            },
        decreases ptrs@.len() - i,
    {
        let ghost ps = ptrs@.skip(i as int);
        assert(ps[0] == ptrs@[i as int]);
        assert(ps.drop_first() == ptrs@.skip(i + 1));
        let rec = leaf_cell_at(page, ptrs[i] as usize)?;
        let ghost before = rows@;
        rows.push(rec);
        proof {
            assert(rows_view(rows@) =~= rows_view(before).push(rec@));
            if let Ok(rest) = leaf_rows(page@, ptrs@.skip(i + 1)) {
                assert(rows_view(before).push(rec@) + rest =~= rows_view(before) + (seq![rec@]
                    + rest));
            }
        }
        i = i + 1;
    }
    assert(ptrs@.skip(i as int) =~= Seq::<u16>::empty());
    assert(rows_view(rows@) + Seq::<RowView>::empty() =~= rows_view(rows@));
    Ok(rows)
}

/// Decodes an index cell's payload: its size, then the record of key and rowid.
pub fn parse_index_payload(stream: &[u8]) -> (r: Result<Vec<Vec<u8>>, DbError>)
    ensures
        match r {
            Ok(cols) => varint_fits(stream@) && record_columns(stream@.skip(varint_len(stream@) as int))
                == Some(cols.deep_view()),
            Err(e) => (!varint_fits(stream@) && e == DbError::Truncated) || (varint_fits(stream@)
                && e == DbError::MalformedRecord && record_columns(
                stream@.skip(varint_len(stream@) as int),
            ) is None),
        },
{
    let n = match parse_varint(stream) {
        None => return Err(DbError::Truncated),
        Some((_, n)) => n,
    };
    let body = slice_subrange(stream, n, stream.len());
    assert(body@ == stream@.skip(n as int));
    parse_record(body)
}

/// Decodes the cell at `p` of an index page: its left child (zero on a leaf),
/// its key and the bytes of its rowid.
fn index_cell_at(page: &[u8], p: usize, interior: bool) -> (r: Result<
    (u32, Vec<u8>, Vec<u8>),
    DbError,
>)
    ensures
        match r {
            Ok((child, key, rb)) => index_cell(page@, p as nat, interior) == Ok::<_, DbError>(
                (child, key@, rb@),
            ),
            Err(e) => index_cell(page@, p as nat, interior) == Err::<(u32, Seq<u8>, Seq<u8>), _>(
                e,
            ),
        },
{
    let len = page.len();
    let base = if interior {
        if p > len || 4 > len - p {
            return Err(DbError::Truncated);
        }
        p + 4
    } else {
        p
    };
    if base > len {
        return Err(DbError::Truncated);
    }
    let child = if interior {
        read_be32(page, p)
    } else {
        0
    };
    let stream = slice_subrange(page, base, len);
    assert(stream@ == page@.skip(base as int));
    proof {
        if varint_fits(stream@) {
            assert(stream@.skip(varint_len(stream@) as int) =~= page@.skip(
                (base + varint_len(stream@)) as int,
            ));
        }
    }
    let cols = parse_index_payload(stream)?;
    if cols.len() < 2 {
        return Err(DbError::MalformedRecord);
    }
    let key = slice_to_vec(cols[0].as_slice());
    let rb = slice_to_vec(cols[1].as_slice());
    assert(key@ == cols.deep_view()[0]);
    assert(rb@ == cols.deep_view()[1]);
    Ok((child, key, rb))
}

/// The signed big-endian integer held in one, two or three bytes.
pub fn parse_24bit_be_twos_complement(bytes: &[u8]) -> (r: i64)
    requires
        1 <= bytes@.len() <= 3,
    ensures
        r == be_signed(bytes@),
{
    let n = bytes.len();
    let mut u: i64 = 0;
    let mut i: usize = 0;
    while i < n
        invariant
            n == bytes@.len(),
            n <= 3,
            i <= n,
            u == be_unsigned(bytes@.take(i as int)),
            u < pow256(i as nat),
        decreases n - i,
    {
        proof {
            reveal_with_fuel(pow256, 4);
            assert(bytes@.take(i + 1).drop_last() == bytes@.take(i as int));
        }
        u = u * 256 + bytes[i] as i64;
        i = i + 1;
    }
    assert(bytes@.take(n as int) == bytes@);
    proof {
        reveal_with_fuel(pow256, 4);
    }
    if bytes[0] >= 0x80 {
        if n == 1 {
            u - 256
        } else if n == 2 {
            u - 65536
        } else {
            u - 16777216
        }
    } else {
        u
    }
}

/// Compares two byte strings lexicographically: -1, 0 or 1.
pub fn compare_bytes(a: &[u8], b: &[u8]) -> (r: i8)
    ensures
        r == 0 <==> a@ == b@,
        r < 0 <==> bytes_lt(a@, b@),
        r > 0 <==> bytes_lt(b@, a@),
{
    let mut i: usize = 0;
    assert(a@.skip(0) == a@ && b@.skip(0) == b@);
    assert(a@.take(0) =~= b@.take(0));
    while i < a.len() && i < b.len()
        invariant
            i <= a@.len(),
            i <= b@.len(),
            a@.take(i as int) == b@.take(i as int),
            bytes_lt(a@, b@) == bytes_lt(a@.skip(i as int), b@.skip(i as int)),
            bytes_lt(b@, a@) == bytes_lt(b@.skip(i as int), a@.skip(i as int)),
        decreases a@.len() - i,
    {
        proof {
            let (x, y) = (a@.skip(i as int), b@.skip(i as int));
            assert(x.drop_first() == a@.skip(i + 1));
            assert(y.drop_first() == b@.skip(i + 1));
            assert(x[0] == a@[i as int] && y[0] == b@[i as int]);
        }
        if a[i] < b[i] {
            assert(a@[i as int] != b@[i as int]);
            return -1;
        }
        if a[i] > b[i] {
            assert(a@[i as int] != b@[i as int]);
            return 1;
        }
        assert(a@.take(i + 1) =~= a@.take(i as int).push(a@[i as int]));
        assert(b@.take(i + 1) =~= b@.take(i as int).push(b@[i as int]));
        i = i + 1;
    }
    if a.len() < b.len() {
        assert(a@.len() != b@.len());
        -1
    } else if a.len() > b.len() {
        assert(a@.len() != b@.len());
        1
    } else {
        assert(a@ =~= a@.take(i as int));
        assert(b@ =~= b@.take(i as int));
        0
    }
}

/// The position of the first of `rows` whose rowid is `row_id`.
fn find_record(rows: &Vec<Record>, row_id: i64) -> (r: Option<usize>)
    ensures
        match r {
            Some(i) => i < rows@.len() && find_row(rows_view(rows@), row_id) == Some(rows@[i as int]@),
            None => find_row(rows_view(rows@), row_id) is None,
        },
{
    let ghost all = rows_view(rows@);
    let mut i: usize = 0;
    assert(all.skip(0) == all);
    while i < rows.len()
        invariant
            all == rows_view(rows@),
            i <= rows@.len(),
            find_row(all, row_id) == find_row(all.skip(i as int), row_id),
        decreases rows@.len() - i,
    {
        let ghost rest = all.skip(i as int);
        assert(rest[0] == rows@[i as int]@);
        assert(rest.drop_first() == all.skip(i + 1));
        if rows[i].row_id == row_id {
            return Some(i);
        }
        i = i + 1;
    }
    assert(all.skip(i as int) =~= Seq::<RowView>::empty());
    None
}

/// The child to descend into for `row_id`: that of the first cell whose key
/// is at least `row_id`, else `rmp`.
fn descent_child_of(cells: &Vec<(u32, i64)>, row_id: i64, rmp: u32) -> (r: u32)
    ensures
        r == descent_child(cells@, row_id, rmp),
{
    let mut i: usize = 0;
    assert(cells@.skip(0) == cells@);
    while i < cells.len()
        invariant
            i <= cells@.len(),
            descent_child(cells@, row_id, rmp) == descent_child(cells@.skip(i as int), row_id, rmp),
        decreases cells@.len() - i,
    {
        let ghost rest = cells@.skip(i as int);
        assert(rest[0] == cells@[i as int]);
        assert(rest.drop_first() == cells@.skip(i + 1));
        if row_id <= cells[i].1 {
            return cells[i].0;
        }
        i = i + 1;
    }
    assert(cells@.skip(i as int) =~= Seq::<(u32, i64)>::empty());
    rmp
}

/// The rowid stored in an index entry.
fn rowid_of(rb: &Vec<u8>) -> (r: Result<i64, DbError>)
    ensures
        r == index_rowid(rb@),
{
    if rb.len() < 1 || rb.len() > 3 {
        return Err(DbError::BadRowidWidth);
    }
    Ok(parse_24bit_be_twos_complement(rb.as_slice()))
}

/// The rowids of the entries of a leaf index page whose key is `value`.
fn leaf_index_rowids_at(page: &[u8], ptrs: &Vec<u16>, value: &[u8]) -> (r: Result<
    Vec<i64>,
    DbError,
>)
    ensures
        match r {
            Ok(ids) => leaf_index_rowids(page@, ptrs@, value@) == Ok::<_, DbError>(ids@),
            Err(e) => leaf_index_rowids(page@, ptrs@, value@) == Err::<Seq<i64>, _>(e),
        },
{
    let mut ids: Vec<i64> = Vec::new();
    let mut i: usize = 0;
    proof {
        assert(ptrs@.skip(0) == ptrs@);
        if let Ok(rest) = leaf_index_rowids(page@, ptrs@, value@) {
            assert(ids@ + rest =~= rest);
        }
    }
    while i < ptrs.len()
        invariant
            i <= ptrs@.len(),
            match leaf_index_rowids(page@, ptrs@.skip(i as int), value@) {
                Ok(rest) => leaf_index_rowids(page@, ptrs@, value@) == Ok::<_, DbError>(ids@ + rest),
                Err(e) => leaf_index_rowids(page@, ptrs@, value@) == Err::<Seq<i64>, _>(e),
            },
        decreases ptrs@.len() - i,
    {
        let ghost cs = ptrs@.skip(i as int);
        assert(cs[0] == ptrs@[i as int]);
        assert(cs.drop_first() == ptrs@.skip(i + 1));
        let (_, key, rb) = index_cell_at(page, ptrs[i] as usize, false)?;
        let ghost before = ids@;
        if compare_bytes(key.as_slice(), value) == 0 {
            let rowid = rowid_of(&rb)?;
            ids.push(rowid);
            proof {
                if let Ok(rest) = leaf_index_rowids(page@, ptrs@.skip(i + 1), value@) {
                    assert(before.push(rowid) + rest =~= before + (seq![rowid] + rest));
                }
            }
        } else {
            proof {
                if let Ok(rest) = leaf_index_rowids(page@, ptrs@.skip(i + 1), value@) {
                    assert(Seq::<i64>::empty() + rest =~= rest);
                }
            }
        }
        i = i + 1;
    }
    assert(ptrs@.skip(i as int) =~= Seq::<u16>::empty());
    assert(ids@ + Seq::<i64>::empty() =~= ids@);
    Ok(ids)
}

/// `database page size: `
pub open spec fn dbinfo_page_size_label() -> Seq<u8> {
    seq![100u8, 97, 116, 97, 98, 97, 115, 101, 32, 112, 97, 103, 101, 32, 115, 105, 122, 101, 58, 32]
}

/// `number of tables: `
pub open spec fn dbinfo_tables_label() -> Seq<u8> {
    seq![110u8, 117, 109, 98, 101, 114, 32, 111, 102, 32, 116, 97, 98, 108, 101, 115, 58, 32]
}

/// The table names of the entries, separated by single spaces.
pub open spec fn joined_table_names(entries: Seq<SchemaView>) -> Seq<u8>
    decreases entries.len(),
{
    if entries.len() == 0 {
        Seq::empty()
    } else if entries.len() == 1 {
        entries[0].2
    } else {
        joined_table_names(entries.drop_last()) + seq![32u8] + entries.last().2
    }
}

/// The number of pages of a database image; no descent is deeper than that.
pub open spec fn page_count(file: Seq<u8>, ps: nat) -> nat {
    if ps == 0 {
        0
    } else {
        file.len() / ps
    }
}

/// An open database: its page size, its catalog and the bytes of its file.
pub struct DB {
    pub page_size: u16,
    pub schemas: Vec<Schema>,
    pub file: Vec<u8>,
}

impl DB {
    /// Creates a database over the image `file`, whose catalog is `schemas`.
    pub fn new(page_size: u16, schemas: Vec<Schema>, file: Vec<u8>) -> (r: Self)
        ensures
            r.page_size == page_size,
            r.schemas@ == schemas@,
            r.file@ == file@,
    {
        DB { page_size, schemas, file }
    }

    /// The bound on the depth of every descent.
    pub open spec fn fuel(&self) -> nat {
        page_count(self.file@, self.page_size as nat)
    }

    fn depth_bound(&self) -> (r: u64)
        ensures
            r as nat == self.fuel(),
    {
        if self.page_size == 0 {
            0
        } else {
            (self.file.len() / self.page_size as usize) as u64
        }
    }

    /// Page `n` decoded: its bytes, header and cell pointers.
    fn load(&self, n: u32) -> (r: Result<(&[u8], PageHeader, Vec<u16>), DbError>)
        ensures
            match r {
                Ok((page, h, ptrs)) => load_page(self.file@, self.page_size as nat, n as nat)
                    == Ok::<_, DbError>((page@, h, ptrs@)),
                Err(e) => load_page(self.file@, self.page_size as nat, n as nat) == Err::<
                    (Seq<u8>, PageHeader, Seq<u16>),
                    _,
                >(e),
            },
    {
        let page = read_page(self.file.as_slice(), self.page_size, n as usize)?;
        let off: usize = if n == 1 {
            100
        } else {
            0
        };
        let (h, ptrs) = decode_page_cells(page, off)?;
        Ok((page, h, ptrs))
    }

    /// Every row of the table tree rooted at `page_number`, leaves left to right.
    fn get_all_records_for_table(&self, page_number: u32, fuel: u64) -> (r: Result<
        Vec<Record>,
        DbError,
    >)
        ensures
            match r {
                Ok(rows) => table_rows(self.file@, self.page_size as nat, page_number as nat, fuel as nat)
                    == Ok::<_, DbError>(rows_view(rows@)),
                Err(e) => table_rows(self.file@, self.page_size as nat, page_number as nat, fuel as nat)
                    == Err::<Seq<RowView>, _>(e),
            },
        decreases fuel,
    {
        let ghost db = self.file@;
        let ghost ps = self.page_size as nat;
        if fuel == 0 {
            return Err(DbError::TreeTooDeep);
        }
        let (page, h, ptrs) = self.load(page_number)?;
        match h.page_type {
            BTreePage::LeafTable => leaf_rows_at(page, &ptrs),
            BTreePage::InteriorTable => {
                let cells = interior_cells_at(page, &ptrs)?;
                let mut children: Vec<u32> = Vec::new();
                let mut k: usize = 0;
                while k < cells.len()
                    invariant
                        k <= cells@.len(),
                        children@ == cells@.take(k as int).map_values(|c: (u32, i64)| c.0),
                    decreases cells@.len() - k,
                {
                    children.push(cells[k].0);
                    k = k + 1;
                    assert(children@ =~= cells@.take(k as int).map_values(|c: (u32, i64)| c.0));
                }
                assert(cells@.take(k as int) == cells@);
                children.push(h.right_most_pointer.unwrap());
                let ghost all = children@;
                let ghost f = (fuel - 1) as nat;
                let mut rows: Vec<Record> = Vec::new();
                let mut i: usize = 0;
                assert(table_rows(db, ps, page_number as nat, fuel as nat) == subtrees_rows(
                    db,
                    ps,
                    all,
                    f,
                ));
                proof {
                    assert(all.skip(0) == all);
                    if let Ok(rest) = subtrees_rows(db, ps, all, f) {
                        assert(rows_view(rows@) + rest =~= rest);
                    }
                }
                while i < children.len()
                    invariant
                        db == self.file@,
                        ps == self.page_size as nat,
                        all == children@,
                        f == fuel - 1,
                        fuel > 0,
                        table_rows(db, ps, page_number as nat, fuel as nat) == subtrees_rows(
                            db,
                            ps,
                            all,
                            f,
                        ),
                        i <= all.len(),
                        match subtrees_rows(db, ps, all.skip(i as int), f) {
                            Ok(rest) => subtrees_rows(db, ps, all, f) == Ok::<_, DbError>(
                                rows_view(rows@) + rest,
                            ),
                            Err(e) => subtrees_rows(db, ps, all, f) == Err::<Seq<RowView>, _>(e),
                        },
                    decreases all.len() - i,
                {
                    let ghost cs = all.skip(i as int);
                    assert(cs[0] == all[i as int]);
                    assert(cs.drop_first() == all.skip(i + 1));
                    let mut sub = self.get_all_records_for_table(children[i], fuel - 1)?;
                    let ghost before = rows@;
                    let ghost subv = sub@;
                    rows.append(&mut sub);
                    proof {
                        assert(rows_view(rows@) =~= rows_view(before) + rows_view(subv));
                        if let Ok(rest) = subtrees_rows(db, ps, all.skip(i + 1), f) {
                            assert(rows_view(before) + rows_view(subv) + rest =~= rows_view(before)
                                + (rows_view(subv) + rest));
                        }
                    }
                    i = i + 1;
                }
                assert(all.skip(i as int) =~= Seq::<u32>::empty());
                assert(rows_view(rows@) + Seq::<RowView>::empty() =~= rows_view(rows@));
                Ok(rows)
            },
            _ => {
                let none: Vec<Record> = Vec::new();
                assert(rows_view(none@) =~= Seq::<RowView>::empty());
                Ok(none)
            },
        }
    }

    /// Answers a query: the lines it prints, without their line ends. An
    /// equality filter on a column with an index is answered through the
    /// index, any other by a full scan of the table.
    pub fn process_query(&self, query: &Sql) -> (r: Result<Vec<Vec<u8>>, DbError>)
        ensures
            match r {
                Ok(lines) => query_output(self.file@, self.page_size as nat, self.fuel(), schemas_view(self.schemas@), query@)
                    == Ok::<_, DbError>(names_view(lines@)),
                Err(e) => query_output(self.file@, self.page_size as nat, self.fuel(), schemas_view(self.schemas@), query@)
                    == Err::<Seq<Seq<u8>>, _>(e),
            },
    {
        let ghost q = query@;
        let ghost sv = schemas_view(self.schemas@);
        let ti = match find_table_entry(&self.schemas, query.table.as_slice()) {
            Some(i) => i,
            None => return Err(DbError::TableNotFound),
        };
        let table = &self.schemas[ti];
        let st = match parse_creation(table.sql.as_slice()) {
            Some(st) => st,
            None => return Err(DbError::BadCreateStatement),
        };
        let fields = st.fields;
        let ghost fv = fields_view(fields@);
        let positions: Vec<usize> = match &query.select_clause {
            SelectClause::Columns(cols) => match resolve_columns(&fields, cols) {
                Some(p) => {
                    proof {
                        assert forall|i: int| 0 <= i < names_view(cols@).len() implies column_position(
                            fv,
                            #[trigger] names_view(cols@)[i],
                        ) is Some by {
                            assert(names_view(cols@)[i] == cols@[i]@);
                        }
                    }
                    p
                },
                None => {
                    proof {
                        let k = choose|k: int|
                            0 <= k < cols@.len() && column_position(fv, #[trigger] cols@[k]@) is None;
                        assert(names_view(cols@)[k] == cols@[k]@);
                    }
                    return Err(DbError::UnknownColumn);
                },
            },
            SelectClause::FunctionCall(_) => Vec::new(),
        };
        let filter_pos: usize = match &query.where_clause {
            Some((col, _)) => match find_column(&fields, col.as_slice()) {
                Some(p) => p,
                None => return Err(DbError::UnknownColumn),
            },
            None => 0,
        };
        assert(columns_known(fv, q));
        assert(table_fields(sv, q) == Ok::<_, DbError>((table@, fv)));
        if table.root_page < 1 || table.root_page > 0xffff_ffff {
            return Err(DbError::PageOutOfRange);
        }
        let root = table.root_page as u32;
        let fuel = self.depth_bound();
        let rows = match &query.where_clause {
            None => self.get_all_records_for_table(root, fuel)?,
            Some((col, lit)) => match find_index_entry(&self.schemas, query.table.as_slice(), col.as_slice()) {
                Some(xi) => {
                    let ix = &self.schemas[xi];
                    if ix.root_page < 1 || ix.root_page > 0xffff_ffff {
                        return Err(DbError::PageOutOfRange);
                    }
                    let ids = self.parse_index_page(ix.root_page as u32, lit.as_slice(), fuel)?;
                    self.fetch_by_rowids(root, &ids, fuel)?
                },
                None => {
                    let all = self.get_all_records_for_table(root, fuel)?;
                    keep_matching_rows(all, filter_pos, &fields[filter_pos], lit.as_slice())
                },
            },
        };
        assert(query_rows(self.file@, self.page_size as nat, self.fuel(), sv, q) == Ok::<_, DbError>(rows_view(rows@)));
        match &query.select_clause {
            SelectClause::Columns(cols) => Ok(render_lines(&rows, &fields, cols, &positions)),
            SelectClause::FunctionCall(f) => {
                let mut lines: Vec<Vec<u8>> = Vec::new();
                if is_count_call(f.as_slice()) {
                    let c = decimal_of_count(rows.len());
                    lines.push(c);
                    assert(names_view(lines@) =~= seq![c@]);
                } else {
                    assert(names_view(lines@) =~= Seq::<Seq<u8>>::empty());
                }
                Ok(lines)
            },
        }
    }

    /// The rows with the given rowids, each found by descending the table
    /// tree rooted at `root`.
    fn fetch_by_rowids(&self, root: u32, ids: &Vec<i64>, fuel: u64) -> (r: Result<Vec<Record>, DbError>)
        ensures
            match r {
                Ok(rows) => fetch_rows(self.file@, self.page_size as nat, root as nat, ids@, fuel as nat)
                    == Ok::<_, DbError>(rows_view(rows@)),
                Err(e) => fetch_rows(self.file@, self.page_size as nat, root as nat, ids@, fuel as nat)
                    == Err::<Seq<RowView>, _>(e),
            },
    {
        let ghost db = self.file@;
        let ghost ps = self.page_size as nat;
        let mut rows: Vec<Record> = Vec::new();
        let mut i: usize = 0;
        proof {
            assert(ids@.skip(0) == ids@);
            if let Ok(rest) = fetch_rows(db, ps, root as nat, ids@, fuel as nat) {
                assert(rows_view(rows@) + rest =~= rest);
            }
        }
        while i < ids.len()
            invariant
                db == self.file@,
                ps == self.page_size as nat,
                i <= ids@.len(),
                match fetch_rows(db, ps, root as nat, ids@.skip(i as int), fuel as nat) {
                    Ok(rest) => fetch_rows(db, ps, root as nat, ids@, fuel as nat) == Ok::<_, DbError>(
                        rows_view(rows@) + rest,
                    ),
                    Err(e) => fetch_rows(db, ps, root as nat, ids@, fuel as nat) == Err::<Seq<RowView>, _>(e),
                },
            decreases ids@.len() - i,
        {
            let ghost cs = ids@.skip(i as int);
            assert(cs[0] == ids@[i as int]);
            assert(cs.drop_first() == ids@.skip(i + 1));
            let rec = self.get_record_by_row_id(ids[i], root, fuel)?;
            let ghost before = rows@;
            rows.push(rec);
            proof {
                assert(rows_view(rows@) =~= rows_view(before).push(rec@));
                if let Ok(rest) = fetch_rows(db, ps, root as nat, ids@.skip(i + 1), fuel as nat) {
                    assert(rows_view(before).push(rec@) + rest =~= rows_view(before) + (seq![rec@] + rest));
                }
            }
            i = i + 1;
        }
        assert(ids@.skip(i as int) =~= Seq::<i64>::empty());
        assert(rows_view(rows@) + Seq::<RowView>::empty() =~= rows_view(rows@));
        Ok(rows)
    }

    /// The two lines of the `.dbinfo` command: the page size, and the number
    /// of catalog entries.
    pub fn dbinfo(&self) -> (r: Vec<Vec<u8>>)
        ensures
            r@.len() == 2,
            r@[0]@ == dbinfo_page_size_label() + decimal(self.page_size as int),
            r@[1]@ == dbinfo_tables_label() + decimal(self.schemas@.len() as int),
    {
        let size_label: [u8; 20] = [
            100, 97, 116, 97, 98, 97, 115, 101, 32, 112, 97, 103, 101, 32, 115, 105, 122, 101, 58, 32,
        ];
        let tables_label: [u8; 18] = [
            110, 117, 109, 98, 101, 114, 32, 111, 102, 32, 116, 97, 98, 108, 101, 115, 58, 32,
        ];
        let mut first = vstd::slice::slice_to_vec(size_label.as_slice());
        let mut n1 = decimal_of_count(self.page_size as usize);
        first.append(&mut n1);
        let mut second = vstd::slice::slice_to_vec(tables_label.as_slice());
        let mut n2 = decimal_of_count(self.schemas.len());
        second.append(&mut n2);
        let mut r: Vec<Vec<u8>> = Vec::new();
        r.push(first);
        r.push(second);
        r
    }

    /// The line of the `.tables` command: the table name of every catalog
    /// entry, separated by single spaces.
    pub fn table_names(&self) -> (r: Vec<u8>)
        ensures
            r@ == joined_table_names(schemas_view(self.schemas@)),
    {
        let ghost sv = schemas_view(self.schemas@);
        let mut out: Vec<u8> = Vec::new();
        let mut i: usize = 0;
        assert(sv.take(0) =~= Seq::<SchemaView>::empty());
        while i < self.schemas.len()
            invariant
                sv == schemas_view(self.schemas@),
                i <= self.schemas@.len(),
                out@ == joined_table_names(sv.take(i as int)),
            decreases self.schemas@.len() - i,
        {
            let mut name = vstd::slice::slice_to_vec(self.schemas[i].table_name.as_slice());
            let ghost before = out@;
            let ghost nv = name@;
            if i > 0 {
                out.push(32);
            }
            out.append(&mut name);
            proof {
                let t = sv.take(i + 1);
                assert(t.drop_last() =~= sv.take(i as int));
                assert(t.last().2 == nv);
                if i > 0 {
                    assert(out@ =~= before + seq![32u8] + nv);
                } else {
                    assert(out@ =~= nv);
                }
            }
            i = i + 1;
        }
        assert(sv.take(i as int) =~= sv);
        out
    }

    /// The row with rowid `row_id`, found by descending the table tree rooted
    /// at `page_number`: on an interior page into the child of the first key at
    /// least `row_id`, else into the right-most child.
    fn get_record_by_row_id(&self, row_id: i64, page_number: u32, fuel: u64) -> (r: Result<
        Record,
        DbError,
    >)
        ensures
            match r {
                Ok(rec) => row_by_rowid(self.file@, self.page_size as nat, page_number as nat, row_id, fuel as nat)
                    == Ok::<_, DbError>(rec@),
                Err(e) => row_by_rowid(self.file@, self.page_size as nat, page_number as nat, row_id, fuel as nat)
                    == Err::<RowView, _>(e),
            },
        decreases fuel,
    {
        if fuel == 0 {
            return Err(DbError::TreeTooDeep);
        }
        let (page, h, ptrs) = self.load(page_number)?;
        match h.page_type {
            BTreePage::LeafTable => {
                let mut rows = leaf_rows_at(page, &ptrs)?;
                match find_record(&rows, row_id) {
                    Some(i) => Ok(rows.swap_remove(i)),
                    None => Err(DbError::RowNotFound),
                }
            },
            BTreePage::InteriorTable => {
                let cells = interior_cells_at(page, &ptrs)?;
                let child = descent_child_of(&cells, row_id, h.right_most_pointer.unwrap());
                self.get_record_by_row_id(row_id, child, fuel - 1)
            },
            _ => Err(DbError::RowNotFound),
        }
    }

    /// The rowids of the index tree rooted at `page_number` whose key equals
    /// `value` byte for byte.
    fn parse_index_page(&self, page_number: u32, value: &[u8], fuel: u64) -> (r: Result<
        Vec<i64>,
        DbError,
    >)
        ensures
            match r {
                Ok(ids) => index_rowids(self.file@, self.page_size as nat, page_number as nat, value@, fuel as nat)
                    == Ok::<_, DbError>(ids@),
                Err(e) => index_rowids(self.file@, self.page_size as nat, page_number as nat, value@, fuel as nat)
                    == Err::<Seq<i64>, _>(e),
            },
        decreases fuel, 0u64,
    {
        if fuel == 0 {
            return Err(DbError::TreeTooDeep);
        }
        let (page, h, ptrs) = self.load(page_number)?;
        match h.page_type {
            BTreePage::LeafIndex => leaf_index_rowids_at(page, &ptrs, value),
            BTreePage::InteriorIndex => self.interior_index_rowids_at(
                page,
                &ptrs,
                h.right_most_pointer.unwrap(),
                value,
                fuel - 1,
            ),
            _ => Ok(Vec::new()),
        }
    }

    /// The rowids for `value` reached through the cells of an interior index
    /// page: a cell whose key is below `value` is passed over; one equal to it
    /// gives its rowid and its left subtree; one above it gives its left subtree
    /// and ends the walk; otherwise the right-most child is searched last.
    fn interior_index_rowids_at(
        &self,
        page: &[u8],
        ptrs: &Vec<u16>,
        rmp: u32,
        value: &[u8],
        fuel: u64,
    ) -> (r: Result<Vec<i64>, DbError>)
        ensures
            match r {
                Ok(ids) => interior_index_rowids(self.file@, self.page_size as nat, page@, ptrs@, rmp, value@, fuel as nat)
                    == Ok::<_, DbError>(ids@),
                Err(e) => interior_index_rowids(self.file@, self.page_size as nat, page@, ptrs@, rmp, value@, fuel as nat)
                    == Err::<Seq<i64>, _>(e),
            },
        decreases fuel, 1u64,
    {
        let ghost db = self.file@;
        let ghost ps = self.page_size as nat;
        let ghost f = fuel as nat;
        let mut ids: Vec<i64> = Vec::new();
        let mut i: usize = 0;
        proof {
            assert(ptrs@.skip(0) == ptrs@);
            if let Ok(rest) = interior_index_rowids(db, ps, page@, ptrs@, rmp, value@, f) {
                assert(ids@ + rest =~= rest);
            }
        }
        while i < ptrs.len()
            invariant
                db == self.file@,
                ps == self.page_size as nat,
                f == fuel,
                i <= ptrs@.len(),
                match interior_index_rowids(db, ps, page@, ptrs@.skip(i as int), rmp, value@, f) {
                    Ok(rest) => interior_index_rowids(db, ps, page@, ptrs@, rmp, value@, f) == Ok::<
                        _,
                        DbError,
                    >(ids@ + rest),
                    Err(e) => interior_index_rowids(db, ps, page@, ptrs@, rmp, value@, f) == Err::<
                        Seq<i64>,
                        _,
                    >(e),
                },
            decreases ptrs@.len() - i,
        {
            let ghost cs = ptrs@.skip(i as int);
            assert(cs[0] == ptrs@[i as int]);
            assert(cs.drop_first() == ptrs@.skip(i + 1));
            let (child, key, rb) = index_cell_at(page, ptrs[i] as usize, true)?;
            let c = compare_bytes(key.as_slice(), value);
            if c < 0 {
                i = i + 1;
            } else if c == 0 {
                let rowid = rowid_of(&rb)?;
                let mut left = self.parse_index_page(child, value, fuel)?;
                let ghost before = ids@;
                let ghost leftv = left@;
                ids.push(rowid);
                ids.append(&mut left);
                proof {
                    assert(ids@ =~= before + (seq![rowid] + leftv));
                    if let Ok(rest) = interior_index_rowids(
                        db,
                        ps,
                        page@,
                        ptrs@.skip(i + 1),
                        rmp,
                        value@,
                        f,
                    ) {
                        assert(before + (seq![rowid] + leftv) + rest =~= before + (seq![rowid]
                            + leftv + rest));
                    }
                }
                i = i + 1;
            } else {
                let mut left = self.parse_index_page(child, value, fuel)?;
                let ghost before = ids@;
                ids.append(&mut left);
                return Ok(ids);
            }
        }
        assert(ptrs@.skip(i as int) =~= Seq::<u16>::empty());
        let mut last = self.parse_index_page(rmp, value, fuel)?;
        let ghost before = ids@;
        ids.append(&mut last);
        Ok(ids)
    }
}

} // verus!
