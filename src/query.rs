//! What a query returns: the plan (index lookup or full scan), the rows it
//! reaches, and the lines it prints.
use vstd::prelude::*;
use crate::btree::{RowView, index_rowids, row_by_rowid, table_rows};
use crate::creation_sql::{Field, create_index_parse, fields_view, parse_create_index};
use crate::db::{Record, compare_bytes, rows_view};
use crate::decimal::decimal;
use crate::error::DbError;
use crate::schema::{Schema, SchemaView};
use crate::select_sql::{SelectView, SqlView, names_view};
use crate::text::{keyword_at, kw_at};
use crate::util::{get_value_for_record, value_for};

verus! {

pub open spec fn kind_table() -> Seq<u8> {
    seq![116u8, 97, 98, 108, 101]
}

pub open spec fn kind_index() -> Seq<u8> {
    seq![105u8, 110, 100, 101, 120]
}

pub open spec fn name_count() -> Seq<u8> {
    seq![99u8, 111, 117, 110, 116]
}

/// The first catalog entry of kind "table" named `t`.
pub open spec fn find_table(schemas: Seq<SchemaView>, t: Seq<u8>) -> Option<SchemaView>
    decreases schemas.len(),
{
    if schemas.len() == 0 {
        None
    } else if schemas[0].0 == kind_table() && schemas[0].2 == t {
        Some(schemas[0])
    } else {
        find_table(schemas.drop_first(), t)
    }
}

/// `e` is an index of table `t` whose CREATE INDEX statement names column `col`.
pub open spec fn is_index_on(e: SchemaView, t: Seq<u8>, col: Seq<u8>) -> bool {
    &&& e.0 == kind_index()
    &&& e.2 == t
    &&& create_index_parse(e.4) is Some
    &&& create_index_parse(e.4).unwrap().2 == col
}

/// The first index of table `t` on column `col`.
pub open spec fn find_index(schemas: Seq<SchemaView>, t: Seq<u8>, col: Seq<u8>) -> Option<SchemaView>
    decreases schemas.len(),
{
    if schemas.len() == 0 {
        None
    } else if is_index_on(schemas[0], t, col) {
        Some(schemas[0])
    } else {
        find_index(schemas.drop_first(), t, col)
    }
}

/// The position of the first column named `name`.
pub open spec fn column_position(fields: Seq<(Seq<u8>, bool)>, name: Seq<u8>) -> Option<nat>
    decreases fields.len(),
{
    if fields.len() == 0 {
        None
    } else if fields[0].0 == name {
        Some(0)
    } else {
        match column_position(fields.drop_first(), name) {
            Some(i) => Some(i + 1),
            None => None,
        }
    }
}

/// The page number that a catalog root page names, if it is one.
pub open spec fn root_of(r: i64) -> Option<nat> {
    if 1 <= r <= 0xffff_ffff {
        Some(r as nat)
    } else {
        None
    }
}

/// Every column the query names belongs to the table.
pub open spec fn columns_known(fields: Seq<(Seq<u8>, bool)>, q: SqlView) -> bool {
    &&& match q.0 {
        SelectView::Columns(cs) => forall|i: int|
            0 <= i < cs.len() ==> column_position(fields, #[trigger] cs[i]) is Some,
        SelectView::FunctionCall(_) => true,
    }
    &&& match q.2 {
        Some((c, _)) => column_position(fields, c) is Some,
        None => true,
    }
}

/// The rows with the given rowids, fetched one by one from the table tree at `root`.
pub open spec fn fetch_rows(db: Seq<u8>, ps: nat, root: nat, ids: Seq<i64>, fuel: nat) -> Result<
    Seq<RowView>,
    DbError,
>
    decreases ids.len(),
{
    if ids.len() == 0 {
        Ok(Seq::empty())
    } else {
        match row_by_rowid(db, ps, root, ids[0], fuel) {
            Err(e) => Err(e),
            Ok(r) => match fetch_rows(db, ps, root, ids.drop_first(), fuel) {
                Err(e) => Err(e),
                Ok(rest) => Ok(seq![r] + rest),
            },
        }
    }
}

/// The rows whose value in the column at `pos` is `lit`.
pub open spec fn keep_matching(rows: Seq<RowView>, pos: nat, pk: bool, lit: Seq<u8>) -> Seq<RowView>
    decreases rows.len(),
{
    if rows.len() == 0 {
        Seq::empty()
    } else {
        let kept = keep_matching(rows.drop_last(), pos, pk, lit);
        if value_for(rows.last(), pos, pk) == lit {
            kept.push(rows.last())
        } else {
            kept
        }
    }
}

/// The value that `row` shows for the column named `c`.
pub open spec fn named_value(row: RowView, fields: Seq<(Seq<u8>, bool)>, c: Seq<u8>) -> Seq<u8> {
    let pos = column_position(fields, c).unwrap();
    value_for(row, pos, fields[pos as int].1)
}

/// The output line of `row`: the values of `cols` joined by `|`.
pub open spec fn line(row: RowView, fields: Seq<(Seq<u8>, bool)>, cols: Seq<Seq<u8>>) -> Seq<u8>
    decreases cols.len(),
{
    if cols.len() == 0 {
        Seq::empty()
    } else if cols.len() == 1 {
        named_value(row, fields, cols[0])
    } else {
        line(row, fields, cols.drop_last()) + seq![124u8] + named_value(row, fields, cols.last())
    }
}

/// The columns of the queried table, once its entry and CREATE statement are found.
pub open spec fn table_fields(schemas: Seq<SchemaView>, q: SqlView) -> Result<
    (SchemaView, Seq<(Seq<u8>, bool)>),
    DbError,
> {
    match find_table(schemas, q.1) {
        None => Err(DbError::TableNotFound),
        Some(t) => match create_index_or_table(t.4) {
            None => Err(DbError::BadCreateStatement),
            Some(fields) => if columns_known(fields, q) {
                Ok((t, fields))
            } else {
                Err(DbError::UnknownColumn)
            },
        },
    }
}

/// The columns of a CREATE TABLE statement.
pub open spec fn create_index_or_table(sql: Seq<u8>) -> Option<Seq<(Seq<u8>, bool)>> {
    match crate::creation_sql::create_table_parse(sql) {
        Some((_, fields)) => Some(fields),
        None => None,
    }
}

/// The rows that answer query `q`: through an index on the filtered column
/// where the table has one, else by a full scan filtered on that column.
pub open spec fn query_rows(db: Seq<u8>, ps: nat, fuel: nat, schemas: Seq<SchemaView>, q: SqlView) -> Result<
    Seq<RowView>,
    DbError,
> {
    match table_fields(schemas, q) {
        Err(e) => Err(e),
        Ok((t, fields)) => match root_of(t.3) {
            None => Err(DbError::PageOutOfRange),
            Some(root) => match q.2 {
                None => table_rows(db, ps, root, fuel),
                Some((col, lit)) => match find_index(schemas, q.1, col) {
                    Some(ix) => match root_of(ix.3) {
                        None => Err(DbError::PageOutOfRange),
                        Some(iroot) => match index_rowids(db, ps, iroot, lit, fuel) {
                            Err(e) => Err(e),
                            Ok(ids) => fetch_rows(db, ps, root, ids, fuel),
                        },
                    },
                    None => {
                        let pos = column_position(fields, col).unwrap();
                        match table_rows(db, ps, root, fuel) {
                            Err(e) => Err(e),
                            Ok(rows) => Ok(keep_matching(rows, pos, fields[pos as int].1, lit)),
                        }
                    },
                },
            },
        },
    }
}

/// `f` names the COUNT aggregate, in any case.
pub open spec fn is_count(f: Seq<u8>) -> bool {
    f.len() == 5 && kw_at(f, 0, name_count())
}

/// The lines that query `q` prints: one per row with the selected columns, or
/// the row count for COUNT, or nothing for another aggregate.
pub open spec fn query_output(db: Seq<u8>, ps: nat, fuel: nat, schemas: Seq<SchemaView>, q: SqlView) -> Result<
    Seq<Seq<u8>>,
    DbError,
> {
    match query_rows(db, ps, fuel, schemas, q) {
        Err(e) => Err(e),
        Ok(rows) => match q.0 {
            SelectView::Columns(cs) => Ok(
                rows.map_values(|r: RowView| line(r, table_fields(schemas, q).unwrap().1, cs)),
            ),
            SelectView::FunctionCall(f) => if is_count(f) {
                Ok(seq![decimal(rows.len() as int)])
            } else {
                Ok(Seq::empty())
            },
        },
    }
}

pub open spec fn schemas_view(v: Seq<Schema>) -> Seq<SchemaView> {
    v.map_values(|s: Schema| s@)
}

/// The position of the first catalog entry of kind "table" named `t`.
pub fn find_table_entry(schemas: &Vec<Schema>, t: &[u8]) -> (r: Option<usize>)
    ensures
        match r {
            Some(i) => i < schemas@.len() && find_table(schemas_view(schemas@), t@) == Some(
                schemas@[i as int]@,
            ),
            None => find_table(schemas_view(schemas@), t@) is None,
        },
{
    let table_kind: [u8; 5] = [116, 97, 98, 108, 101];
    assert(table_kind@ == kind_table());
    let ghost all = schemas_view(schemas@);
    let mut i: usize = 0;
    assert(all.skip(0) == all);
    while i < schemas.len()
        invariant
            all == schemas_view(schemas@),
            table_kind@ == kind_table(),
            i <= schemas@.len(),
            find_table(all, t@) == find_table(all.skip(i as int), t@),
        decreases schemas@.len() - i,
    {
        let ghost rest = all.skip(i as int);
        assert(rest[0] == schemas@[i as int]@);
        assert(rest.drop_first() == all.skip(i + 1));
        if compare_bytes(schemas[i].kind.as_slice(), table_kind.as_slice()) == 0 && compare_bytes(
            schemas[i].table_name.as_slice(),
            t,
        ) == 0 {
            return Some(i);
        }
        i = i + 1;
    }
    assert(all.skip(i as int) =~= Seq::<SchemaView>::empty());
    None
}

/// The position of the first index of table `t` on column `col`.
pub fn find_index_entry(schemas: &Vec<Schema>, t: &[u8], col: &[u8]) -> (r: Option<usize>)
    ensures
        match r {
            Some(i) => i < schemas@.len() && find_index(schemas_view(schemas@), t@, col@) == Some(
                schemas@[i as int]@,
            ),
            None => find_index(schemas_view(schemas@), t@, col@) is None,
        },
{
    let index_kind: [u8; 5] = [105, 110, 100, 101, 120];
    assert(index_kind@ == kind_index());
    let ghost all = schemas_view(schemas@);
    let mut i: usize = 0;
    assert(all.skip(0) == all);
    while i < schemas.len()
        invariant
            all == schemas_view(schemas@),
            index_kind@ == kind_index(),
            i <= schemas@.len(),
            find_index(all, t@, col@) == find_index(all.skip(i as int), t@, col@),
        decreases schemas@.len() - i,
    {
        let ghost rest = all.skip(i as int);
        assert(rest[0] == schemas@[i as int]@);
        assert(rest.drop_first() == all.skip(i + 1));
        if compare_bytes(schemas[i].kind.as_slice(), index_kind.as_slice()) == 0 && compare_bytes(
            schemas[i].table_name.as_slice(),
            t,
        ) == 0 {
            if let Some(info) = parse_create_index(schemas[i].sql.as_slice()) {
                if compare_bytes(info.column_name.as_slice(), col) == 0 {
                    return Some(i);
                }
            }
        }
        i = i + 1;
    }
    assert(all.skip(i as int) =~= Seq::<SchemaView>::empty());
    None
}

/// The position of the first column named `name`.
pub fn find_column(fields: &Vec<Field>, name: &[u8]) -> (r: Option<usize>)
    ensures
        match r {
            Some(i) => i < fields@.len() && column_position(fields_view(fields@), name@) == Some(
                i as nat,
            ),
            None => column_position(fields_view(fields@), name@) is None,
        },
{
    let ghost all = fields_view(fields@);
    let mut i: usize = 0;
    assert(all.skip(0) == all);
    while i < fields.len()
        invariant
            all == fields_view(fields@),
            i <= fields@.len(),
            match column_position(all.skip(i as int), name@) {
                Some(k) => column_position(all, name@) == Some((k + i) as nat),
                None => column_position(all, name@) is None,
            },
        decreases fields@.len() - i,
    {
        let ghost rest = all.skip(i as int);
        assert(rest[0] == fields@[i as int]@);
        assert(rest.drop_first() == all.skip(i + 1));
        if compare_bytes(fields[i].name.as_slice(), name) == 0 {
            return Some(i);
        }
        i = i + 1;
    }
    assert(all.skip(i as int) =~= Seq::<(Seq<u8>, bool)>::empty());
    None
}

/// Whether `f` names the COUNT aggregate.
pub fn is_count_call(f: &[u8]) -> (r: bool)
    ensures
        r == is_count(f@),
{
    let count: [u8; 5] = [99, 111, 117, 110, 116];
    assert(count@ == name_count());
    f.len() == 5 && keyword_at(f, 0, count.as_slice())
}

/// The rows whose value in the column at `pos` is `lit`, in order.
pub fn keep_matching_rows(rows: Vec<Record>, pos: usize, field: &Field, lit: &[u8]) -> (r: Vec<
    Record,
>)
    ensures
        rows_view(r@) == keep_matching(rows_view(rows@), pos as nat, field.is_primary_key, lit@),
{
    let ghost all = rows_view(rows@);
    let mut kept: Vec<Record> = Vec::new();
    let mut i: usize = 0;
    assert(all.take(0) =~= Seq::<RowView>::empty());
    assert(rows_view(kept@) =~= Seq::<RowView>::empty());
    while i < rows.len()
        invariant
            all == rows_view(rows@),
            i <= rows@.len(),
            rows_view(kept@) == keep_matching(all.take(i as int), pos as nat, field.is_primary_key, lit@),
        decreases rows@.len() - i,
    {
        let v = get_value_for_record(&rows[i], pos, field);
        proof {
            let t = all.take(i + 1);
            assert(t.drop_last() =~= all.take(i as int));
            assert(t.last() == rows@[i as int]@);
        }
        if compare_bytes(v.as_slice(), lit) == 0 {
            let rec = Record { row_id: rows[i].row_id, columns: copy_columns(&rows[i].columns) };
            let ghost before = rows_view(kept@);
            kept.push(rec);
            assert(rows_view(kept@) =~= before.push(rows@[i as int]@));
        }
        i = i + 1;
    }
    assert(all.take(i as int) =~= all);
    kept
}

/// The output line of `row`: the values of the columns `cols`, found at
/// `positions`, joined by `|`.
pub fn render_line(row: &Record, fields: &Vec<Field>, cols: &Vec<Vec<u8>>, positions: &Vec<usize>) -> (r: Vec<u8>)
    requires
        positions@.len() == cols@.len(),
        forall|k: int|
            0 <= k < cols@.len() ==> positions@[k] < fields@.len() && column_position(
                fields_view(fields@),
                #[trigger] cols@[k]@,
            ) == Some(positions@[k] as nat),
    ensures
        r@ == line(row@, fields_view(fields@), names_view(cols@)),
{
    let ghost fv = fields_view(fields@);
    let ghost cs = names_view(cols@);
    let mut out: Vec<u8> = Vec::new();
    let mut j: usize = 0;
    assert(cs.take(0) =~= Seq::<Seq<u8>>::empty());
    while j < cols.len()
        invariant
            fv == fields_view(fields@),
            cs == names_view(cols@),
            positions@.len() == cols@.len(),
            forall|k: int|
                0 <= k < cols@.len() ==> positions@[k] < fields@.len() && column_position(
                    fields_view(fields@),
                    #[trigger] cols@[k]@,
                ) == Some(positions@[k] as nat),
            j <= cols@.len(),
            out@ == line(row@, fv, cs.take(j as int)),
        decreases cols@.len() - j,
    {
        assert(column_position(fields_view(fields@), cols@[j as int]@) == Some(
            positions@[j as int] as nat,
        ));
        let p = positions[j];
        let mut v = get_value_for_record(row, p, &fields[p]);
        proof {
            let t = cs.take(j + 1);
            assert(t.drop_last() =~= cs.take(j as int));
            assert(t.last() == cols@[j as int]@);
            assert(fv[p as int] == fields@[p as int]@);
            assert(v@ == named_value(row@, fv, t.last()));
        }
        let ghost before = out@;
        if j > 0 {
            out.push(124);
        }
        let ghost vv = v@;
        out.append(&mut v);
        proof {
            if j > 0 {
                assert(out@ =~= before + seq![124u8] + vv);
            } else {
                assert(out@ =~= vv);
            }
        }
        j = j + 1;
    }
    assert(cs.take(j as int) =~= cs);
    out
}

/// The positions of the columns named `cols`; `None` if one is unknown.
pub fn resolve_columns(fields: &Vec<Field>, cols: &Vec<Vec<u8>>) -> (r: Option<Vec<usize>>)
    ensures
        match r {
            Some(positions) => positions@.len() == cols@.len() && forall|k: int|
                0 <= k < cols@.len() ==> positions@[k] < fields@.len() && column_position(
                    fields_view(fields@),
                    #[trigger] cols@[k]@,
                ) == Some(positions@[k] as nat),
            None => exists|k: int|
                0 <= k < cols@.len() && column_position(fields_view(fields@), #[trigger] cols@[k]@)
                    is None,
        },
{
    let mut positions: Vec<usize> = Vec::new();
    let mut j: usize = 0;
    while j < cols.len()
        invariant
            j <= cols@.len(),
            positions@.len() == j,
            forall|k: int|
                0 <= k < j ==> positions@[k] < fields@.len() && column_position(
                    fields_view(fields@),
                    #[trigger] cols@[k]@,
                ) == Some(positions@[k] as nat),
        decreases cols@.len() - j,
    {
        match find_column(fields, cols[j].as_slice()) {
            Some(p) => positions.push(p),
            None => return None,
        }
        j = j + 1;
    }
    Some(positions)
}

/// The output lines of `rows`, one per row.
pub fn render_lines(rows: &Vec<Record>, fields: &Vec<Field>, cols: &Vec<Vec<u8>>, positions: &Vec<usize>) -> (r: Vec<Vec<u8>>)
    requires
        positions@.len() == cols@.len(),
        forall|k: int|
            0 <= k < cols@.len() ==> positions@[k] < fields@.len() && column_position(
                fields_view(fields@),
                #[trigger] cols@[k]@,
            ) == Some(positions@[k] as nat),
    ensures
        names_view(r@) == rows_view(rows@).map_values(
            |row: RowView| line(row, fields_view(fields@), names_view(cols@)),
        ),
{
    let ghost fv = fields_view(fields@);
    let ghost cs = names_view(cols@);
    let mut lines: Vec<Vec<u8>> = Vec::new();
    let mut i: usize = 0;
    while i < rows.len()
        invariant
            fv == fields_view(fields@),
            cs == names_view(cols@),
            i <= rows@.len(),
            names_view(lines@) == rows_view(rows@).take(i as int).map_values(
                |row: RowView| line(row, fv, cs),
            ),
            positions@.len() == cols@.len(),
            forall|k: int|
                0 <= k < cols@.len() ==> positions@[k] < fields@.len() && column_position(
                    fields_view(fields@),
                    #[trigger] cols@[k]@,
                ) == Some(positions@[k] as nat),
        decreases rows@.len() - i,
    {
        let l = render_line(&rows[i], fields, cols, positions);
        let ghost before = names_view(lines@);
        lines.push(l);
        assert(names_view(lines@) =~= rows_view(rows@).take(i + 1).map_values(
            |row: RowView| line(row, fv, cs),
        )) by {
            assert(names_view(lines@) =~= before.push(l@));
            assert(rows_view(rows@)[i as int] == rows@[i as int]@);
        }
        i = i + 1;
    }
    assert(rows_view(rows@).take(i as int) =~= rows_view(rows@));
    lines
}

/// A copy of a record's columns.
pub fn copy_columns(cols: &Vec<Vec<u8>>) -> (r: Vec<Vec<u8>>)
    ensures
        r.deep_view() == cols.deep_view(),
{
    let mut r: Vec<Vec<u8>> = Vec::new();
    let mut i: usize = 0;
    while i < cols.len()
        invariant
            i <= cols@.len(),
            r.deep_view() == cols.deep_view().take(i as int),
        decreases cols@.len() - i,
    {
        let v = vstd::slice::slice_to_vec(cols[i].as_slice());
        let ghost before = r.deep_view();
        r.push(v);
        assert(r.deep_view() =~= cols.deep_view().take(i + 1)) by {
            assert(v.deep_view() =~= v@);
            assert(r.deep_view() =~= before.push(v@));
        }
        i = i + 1;
    }
    assert(cols.deep_view().take(i as int) =~= cols.deep_view());
    r
}

} // verus!
