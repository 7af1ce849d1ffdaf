//! Records: a header of serial-type codes followed by the column values.
use vstd::prelude::*;
use vstd::slice::{slice_subrange, slice_to_vec};
use crate::error::DbError;
use crate::varint::{parse_varint, varint_fits, varint_len, varint_value, lemma_varint_len_bounds};

verus! {

/// The number of value bytes that a serial type declares; `None` for the
/// reserved codes 10 and 11.
pub open spec fn serial_width(t: u64) -> Option<nat> {
    if t == 5 {
        Some(6)
    } else if t == 6 || t == 7 {
        Some(8)
    } else if t == 8 || t == 9 {
        Some(0)
    } else if t <= 4 {
        Some(t as nat)
    } else if t == 10 || t == 11 {
        None
    } else if t % 2 == 0 {
        Some(((t - 12) / 2) as nat)
    } else {
        Some(((t - 13) / 2) as nat)
    }
}

/// The serial types read as consecutive varints from `pos` up to exactly `end`.
pub open spec fn serial_types_from(s: Seq<u8>, pos: nat, end: nat) -> Option<Seq<u64>>
    decreases end - pos,
{
    if pos >= end {
        if pos == end {
            Some(Seq::empty())
        } else {
            None
        }
    } else {
        let t = s.skip(pos as int);
        let n = varint_len(t);
        if !varint_fits(t) || n == 0 || pos + n > end {
            None
        } else {
            match serial_types_from(s, pos + n, end) {
                Some(rest) => Some(seq![varint_value(t) as u64] + rest),
                None => None,
            }
        }
    }
}

/// The column values of the given serial types, laid end to end from `pos`.
pub open spec fn columns_from(s: Seq<u8>, types: Seq<u64>, pos: nat) -> Option<Seq<Seq<u8>>>
    decreases types.len(),
{
    if types.len() == 0 {
        Some(Seq::empty())
    } else {
        match serial_width(types[0]) {
            None => None,
            Some(w) => if pos + w > s.len() {
                None
            } else {
                match columns_from(s, types.drop_first(), pos + w) {
                    Some(rest) => Some(seq![s.subrange(pos as int, (pos + w) as int)] + rest),
                    None => None,
                }
            },
        }
    }
}

/// The length of the record header, as its first varint states it.
pub open spec fn record_header_len(s: Seq<u8>) -> nat {
    varint_value(s)
}

/// The serial types listed in the header of the record at the start of `s`.
pub open spec fn record_serial_types(s: Seq<u8>) -> Option<Seq<u64>> {
    if !varint_fits(s) || record_header_len(s) > s.len() {
        None
    } else {
        serial_types_from(s, varint_len(s), record_header_len(s))
    }
}

/// The columns of the record at the start of `s`.
pub open spec fn record_columns(s: Seq<u8>) -> Option<Seq<Seq<u8>>> {
    match record_serial_types(s) {
        Some(types) => columns_from(s, types, record_header_len(s)),
        None => None,
    }
}

/// The sum of the widths that the serial types declare.
pub open spec fn declared_width(types: Seq<u64>) -> nat
    decreases types.len(),
{
    if types.len() == 0 {
        0
    } else {
        declared_width(types.drop_last()) + match serial_width(types.last()) {
            Some(w) => w,
            None => 0,
        }
    }
}

/// The width of one serial type's value, `None` for a reserved code.
fn serial_type_width(t: u64) -> (r: Option<u64>)
    ensures
        match serial_width(t) {
            Some(w) => r == Some(w as u64),
            None => r is None,
        },
{
    if t == 5 {
        Some(6)
    } else if t == 6 || t == 7 {
        Some(8)
    } else if t == 8 || t == 9 {
        Some(0)
    } else if t <= 4 {
        Some(t)
    } else if t == 10 || t == 11 {
        None
    } else if t % 2 == 0 {
        Some((t - 12) / 2)
    } else {
        Some((t - 13) / 2)
    }
}

/// Decodes the record at the start of `bytes` into its column values, and
/// returns with them the number of bytes the record occupies: the header
/// length plus the widths its serial types declare.
pub fn parse_record_len(bytes: &[u8]) -> (r: Result<(Vec<Vec<u8>>, usize), DbError>)
    ensures
        match r {
            Ok((cols, n)) => {
                &&& record_columns(bytes@) == Some(cols.deep_view())
                &&& record_serial_types(bytes@) is Some
                &&& n == record_header_len(bytes@) + declared_width(
                    record_serial_types(bytes@).unwrap(),
                )
                &&& n <= bytes@.len()
            },
            Err(e) => e == DbError::MalformedRecord && record_columns(bytes@) is None,
        },
{
    let ghost s = bytes@;
    let len = bytes.len();
    let (h, k) = match parse_varint(bytes) {
        Some(p) => p,
        None => return Err(DbError::MalformedRecord),
    };
    if h > len as u64 {
        return Err(DbError::MalformedRecord);
    }
    let h = h as usize;
    proof {
        lemma_varint_len_bounds(s);
    }
    let mut types: Vec<u64> = Vec::new();
    let mut pos: usize = k;
    while pos < h
        invariant
            s == bytes@,
            len == s.len(),
            h <= len,
            h == record_header_len(s),
            varint_fits(s),
            k == varint_len(s),
            k <= pos,
            match serial_types_from(s, pos as nat, h as nat) {
                Some(rest) => serial_types_from(s, k as nat, h as nat) == Some(types@ + rest),
                None => serial_types_from(s, k as nat, h as nat) is None,
            },
        decreases h - pos,
    {
        let tail = slice_subrange(bytes, pos, len);
        assert(tail@ == s.skip(pos as int));
        let (t, n) = match parse_varint(tail) {
            Some(p) => p,
            None => return Err(DbError::MalformedRecord),
        };
        proof {
            lemma_varint_len_bounds(tail@);
        }
        if n > h - pos {
            return Err(DbError::MalformedRecord);
        }
        proof {
            let rest = serial_types_from(s, (pos + n) as nat, h as nat);
            if let Some(r) = rest {
                assert(types@.push(t) + r == types@ + (seq![t] + r));
            }
        }
        types.push(t);
        pos = pos + n;
    }
    if pos != h {
        return Err(DbError::MalformedRecord);
    }
    assert(types@ + Seq::<u64>::empty() == types@);
    let ghost all_types = types@;
    let mut cols: Vec<Vec<u8>> = Vec::new();
    let mut i: usize = 0;
    let mut at: usize = h;
    assert(all_types.skip(0) == all_types);
    assert(cols.deep_view() =~= Seq::<Seq<u8>>::empty());
    assert(all_types.take(0) =~= Seq::<u64>::empty());
    proof {
        if let Some(rest) = columns_from(s, all_types, h as nat) {
            assert(Seq::<Seq<u8>>::empty() + rest == rest);
        }
    }
    while i < types.len()
        invariant
            s == bytes@,
            len == s.len(),
            all_types == types@,
            record_serial_types(s) == Some(all_types),
            h == record_header_len(s),
            i <= types.len(),
            h <= at <= len,
            at == h + declared_width(all_types.take(i as int)),
            match columns_from(s, all_types.skip(i as int), at as nat) {
                Some(rest) => record_columns(s) == Some(cols.deep_view() + rest),
                None => record_columns(s) is None,
            },
        decreases types.len() - i,
    {
        let ghost ts = all_types.skip(i as int);
        assert(ts[0] == types@[i as int]);
        assert(ts.drop_first() == all_types.skip(i + 1));
        let w = match serial_type_width(types[i]) {
            Some(w) => w,
            None => return Err(DbError::MalformedRecord),
        };
        if w > (len - at) as u64 {
            return Err(DbError::MalformedRecord);
        }
        let w = w as usize;
        let piece = slice_subrange(bytes, at, at + w);
        let v = slice_to_vec(piece);
        proof {
            let t2 = all_types.take(i + 1);
            assert(t2.drop_last() == all_types.take(i as int));
            assert(t2.last() == types@[i as int]);
            if let Some(r) = columns_from(s, ts.drop_first(), (at + w) as nat) {
                assert(cols.deep_view().push(v@) + r == cols.deep_view() + (seq![v@] + r));
            }
        }
        let ghost before = cols.deep_view();
        assert(v.deep_view() =~= v@);
        cols.push(v);
        assert(cols.deep_view() =~= before.push(v@));
        at = at + w;
        i = i + 1;
    }
    assert(all_types.take(i as int) == all_types);
    assert(cols.deep_view() + Seq::<Seq<u8>>::empty() == cols.deep_view());
    Ok((cols, at))
}

/// Decodes the record at the start of `bytes` into its column values.
pub fn parse_record(bytes: &[u8]) -> (r: Result<Vec<Vec<u8>>, DbError>)
    ensures
        match r {
            Ok(cols) => record_columns(bytes@) == Some(cols.deep_view()),
            Err(e) => e == DbError::MalformedRecord && record_columns(bytes@) is None,
        },
{
    match parse_record_len(bytes) {
        Ok((cols, _)) => Ok(cols),
        Err(e) => Err(e),
    }
}

} // verus!
