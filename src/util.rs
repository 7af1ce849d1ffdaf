//! Page access over a database image, and the value a row holds for a column.
use vstd::prelude::*;
use vstd::slice::slice_subrange;
use vstd::slice::slice_to_vec;
use crate::btree::{RowView, page_bytes};
use crate::creation_sql::Field;
use crate::db::Record;
use crate::decimal::{decimal, decimal_of};
use crate::error::DbError;

verus! {

/// Page `page` (counted from 1) of the database image `file`.
pub fn read_page(file: &[u8], page_size: u16, page: usize) -> (r: Result<&[u8], DbError>)
    ensures
        match r {
            Ok(p) => page_bytes(file@, page_size as nat, page as nat) == Some(p@),
            Err(e) => e == DbError::PageOutOfRange && page_bytes(
                file@,
                page_size as nat,
                page as nat,
            ) is None,
        },
{
    let len = file.len();
    let ps = page_size as usize;
    if page == 0 || ps == 0 {
        return Err(DbError::PageOutOfRange);
    }
    let k = page - 1;
    if k > len / ps {
        proof {
            assert(k * ps + ps > len) by (nonlinear_arith)
                requires
                    k > len / ps,
                    ps > 0,
            ;
        }
        return Err(DbError::PageOutOfRange);
    }
    proof {
        assert(k * ps <= len) by (nonlinear_arith)
            requires
                k <= len / ps,
                ps > 0,
        ;
    }
    let start = k * ps;
    if ps > len - start {
        return Err(DbError::PageOutOfRange);
    }
    Ok(slice_subrange(file, start, start + ps))
}

/// The value that a row shows for the column at position `ind`, declared
/// primary key or not: the rowid in decimal for a primary key, else the
/// column's bytes, empty where the record is shorter.
pub open spec fn value_for(row: RowView, ind: nat, is_primary_key: bool) -> Seq<u8> {
    if is_primary_key {
        decimal(row.0 as int)
    } else if ind < row.1.len() {
        row.1[ind as int]
    } else {
        Seq::empty()
    }
}

/// The value of column `ind`, described by `field`, in `record`. A column
/// declared INTEGER PRIMARY KEY is stored as NULL; its value is the rowid.
pub fn get_value_for_record(record: &Record, ind: usize, field: &Field) -> (r: Vec<u8>)
    ensures
        r@ == value_for(record@, ind as nat, field.is_primary_key),
        field.is_primary_key ==> r@ == decimal(record.row_id as int),
{
    if field.is_primary_key {
        return decimal_of(record.row_id);
    }
    if ind < record.columns.len() {
        let v = slice_to_vec(record.columns[ind].as_slice());
        assert(v@ == record.columns.deep_view()[ind as int]);
        v
    } else {
        Vec::new()
    }
}

} // verus!
