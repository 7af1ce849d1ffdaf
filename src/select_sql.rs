//! The SELECT statements this engine answers:
//! `SELECT f(*) | col, ... FROM table [WHERE col = 'text']`.
use vstd::prelude::*;
use vstd::string::StringSliceAdditionalSpecFns;
use crate::text::{Class, byte_at, byte_is, copy_range, keyword_at, kw_at, run_end, scan};

verus! {

/// What a query selects.
#[derive(Debug, Clone, PartialEq, Eq)]
pub enum SelectClause {
    /// These columns, in this order.
    Columns(Vec<Vec<u8>>),
    /// An aggregate over the rows, such as COUNT.
    FunctionCall(Vec<u8>),
}

/// A parsed query.
#[derive(Debug, Clone, PartialEq, Eq)]
pub struct Sql {
    pub select_clause: SelectClause,
    pub table: Vec<u8>,
    /// The column and the text it must equal.
    pub where_clause: Option<(Vec<u8>, Vec<u8>)>,
}

/// What a query selects, as values.
pub enum SelectView {
    Columns(Seq<Seq<u8>>),
    FunctionCall(Seq<u8>),
}

/// A query as values: selection, table, filter.
pub type SqlView = (SelectView, Seq<u8>, Option<(Seq<u8>, Seq<u8>)>);

pub open spec fn names_view(v: Seq<Vec<u8>>) -> Seq<Seq<u8>> {
    v.map_values(|n: Vec<u8>| n@)
}

impl View for SelectClause {
    type V = SelectView;

    open spec fn view(&self) -> SelectView {
        match self {
            SelectClause::Columns(c) => SelectView::Columns(names_view(c@)),
            SelectClause::FunctionCall(f) => SelectView::FunctionCall(f@),
        }
    }
}

impl View for Sql {
    type V = SqlView;

    open spec fn view(&self) -> SqlView {
        (
            self.select_clause@,
            self.table@,
            match self.where_clause {
                Some((k, v)) => Some((k@, v@)),
                None => None,
            },
        )
    }
}

pub open spec fn kw_select() -> Seq<u8> {
    seq![115u8, 101, 108, 101, 99, 116]
}

pub open spec fn kw_from() -> Seq<u8> {
    seq![102u8, 114, 111, 109]
}

pub open spec fn kw_where() -> Seq<u8> {
    seq![119u8, 104, 101, 114, 101]
}

/// The `(*)` of an aggregate call.
pub open spec fn all_rows_marker() -> Seq<u8> {
    seq![40u8, 42, 41]
}

/// The end of the run of spaces and tabs at `i`.
pub open spec fn bl(s: Seq<u8>, i: nat) -> nat {
    run_end(s, i, Class::Blank)
}

/// A name at `i`: letters and underscores.
pub open spec fn word_at(s: Seq<u8>, i: nat) -> Option<(Seq<u8>, nat)> {
    let e = run_end(s, i, Class::Word);
    if e > i {
        Some((s.subrange(i as int, e as int), e))
    } else {
        None
    }
}

/// The further names of a column list, each after a comma and blanks.
pub open spec fn more_columns(s: Seq<u8>, i: nat) -> (Seq<Seq<u8>>, nat)
    decreases s.len() - i,
{
    if byte_at(s, i, 44) {
        match word_at(s, bl(s, i + 1)) {
            None => (Seq::empty(), i),
            Some((w, e)) => if e <= i || e > s.len() {
                (seq![w], e)
            } else {
                let (rest, e2) = more_columns(s, e);
                (seq![w] + rest, e2)
            },
        }
    } else {
        (Seq::empty(), i)
    }
}

/// The selection at `i`: `name(*)`, or a list of names separated by commas.
pub open spec fn select_clause_at(s: Seq<u8>, i: nat) -> (SelectView, nat) {
    match word_at(s, i) {
        None => (SelectView::Columns(Seq::empty()), i),
        Some((w, e)) => if kw_at(s, e, all_rows_marker()) {
            (SelectView::FunctionCall(w), e + 3)
        } else {
            let (rest, e2) = more_columns(s, e);
            (SelectView::Columns(seq![w] + rest), e2)
        },
    }
}

/// ` WHERE name = 'text'` at `i`.
pub open spec fn where_at(s: Seq<u8>, i: nat) -> Option<((Seq<u8>, Seq<u8>), nat)> {
    let a = bl(s, i);
    let b = bl(s, a + 5);
    if a == i || !kw_at(s, a, kw_where()) || b == a + 5 {
        None
    } else {
        match word_at(s, b) {
            None => None,
            Some((key, c)) => {
                let d = bl(s, c);
                let f = bl(s, d + 1);
                let g = run_end(s, f + 1, Class::NotQuote);
                if byte_at(s, d, 61) && byte_at(s, f, 39) && byte_at(s, g, 39) {
                    Some(((key, s.subrange(f + 1int, g as int)), g + 1))
                } else {
                    None
                }
            },
        }
    }
}

/// The query that the whole of `s` spells, keywords in any case.
pub open spec fn select_parse(s: Seq<u8>) -> Option<SqlView> {
    let a = bl(s, 6);
    let (clause, b) = select_clause_at(s, a);
    let c = bl(s, b);
    let d = bl(s, c + 4);
    if !kw_at(s, 0, kw_select()) || a == 6 || c == b || !kw_at(s, c, kw_from()) || d == c + 4 {
        None
    } else {
        match word_at(s, d) {
            None => None,
            Some((table, e)) => match where_at(s, e) {
                Some((w, f)) => if f == s.len() {
                    Some((clause, table, Some(w)))
                } else {
                    None
                },
                None => if e == s.len() {
                    Some((clause, table, None))
                } else {
                    None
                },
            },
        }
    }
}

/// The name at `i`, and the position after it.
fn word(s: &[u8], i: usize) -> (r: Option<(Vec<u8>, usize)>)
    requires
        i <= s@.len(),
    ensures
        match r {
            Some((w, e)) => word_at(s@, i as nat) == Some((w@, e as nat)) && i < e <= s@.len(),
            None => word_at(s@, i as nat) is None,
        },
{
    let e = scan(s, i, Class::Word);
    if e > i {
        Some((copy_range(s, i, e), e))
    } else {
        None
    }
}

/// The selection at `i`, and where it ends.
fn parse_select_clause(s: &[u8], i: usize) -> (r: (SelectClause, usize))
    requires
        i <= s@.len(),
    ensures
        select_clause_at(s@, i as nat) == (r.0@, r.1 as nat),
        i <= r.1 <= s@.len(),
{
    let marker: [u8; 3] = [40, 42, 41];
    assert(marker@ == all_rows_marker());
    let (first, e) = match word(s, i) {
        None => {
            let none: Vec<Vec<u8>> = Vec::new();
            assert(names_view(none@) =~= Seq::<Seq<u8>>::empty());
            return (SelectClause::Columns(none), i);
        },
        Some(x) => x,
    };
    if keyword_at(s, e, marker.as_slice()) {
        return (SelectClause::FunctionCall(first), e + 3);
    }
    let ghost fw = first@;
    let mut cols: Vec<Vec<u8>> = Vec::new();
    cols.push(first);
    let mut j = e;
    proof {
        assert(names_view(cols@) =~= seq![fw]);
    }
    loop
        invariant
            e <= j <= s@.len(),
            select_clause_at(s@, i as nat) == (
                SelectView::Columns(names_view(cols@) + more_columns(s@, j as nat).0),
                more_columns(s@, j as nat).1,
            ),
        ensures
            e <= j <= s@.len(),
            select_clause_at(s@, i as nat) == (SelectView::Columns(names_view(cols@)), j as nat),
        decreases s@.len() - j,
    {
        if !byte_is(s, j, 44) {
            assert(more_columns(s@, j as nat) == (Seq::<Seq<u8>>::empty(), j as nat));
            assert(names_view(cols@) + Seq::<Seq<u8>>::empty() =~= names_view(cols@));
            break;
        }
        let b = scan(s, j + 1, Class::Blank);
        match word(s, b) {
            None => {
                assert(more_columns(s@, j as nat) == (Seq::<Seq<u8>>::empty(), j as nat));
                assert(names_view(cols@) + Seq::<Seq<u8>>::empty() =~= names_view(cols@));
                break;
            },
            Some((w, f)) => {
                let ghost before = names_view(cols@);
                let ghost wv = w@;
                cols.push(w);
                proof {
                    assert(names_view(cols@) =~= before.push(wv));
                    let (rest, _) = more_columns(s@, f as nat);
                    assert(before.push(wv) + rest =~= before + (seq![wv] + rest));
                }
                j = f;
            },
        }
    }
    (SelectClause::Columns(cols), j)
}

/// ` WHERE name = 'text'` at `i`, and the position after it.
fn parse_where(s: &[u8], i: usize) -> (r: Option<((Vec<u8>, Vec<u8>), usize)>)
    requires
        i <= s@.len(),
    ensures
        match r {
            Some(((k, v), e)) => where_at(s@, i as nat) == Some(((k@, v@), e as nat)) && e
                <= s@.len(),
            None => where_at(s@, i as nat) is None,
        },
{
    let where_kw: [u8; 5] = [119, 104, 101, 114, 101];
    assert(where_kw@ == kw_where());
    let a = scan(s, i, Class::Blank);
    if a == i || !keyword_at(s, a, where_kw.as_slice()) {
        return None;
    }
    let b = scan(s, a + 5, Class::Blank);
    if b == a + 5 {
        return None;
    }
    let (key, c) = word(s, b)?;
    let d = scan(s, c, Class::Blank);
    if !byte_is(s, d, 61) {
        return None;
    }
    let f = scan(s, d + 1, Class::Blank);
    if !byte_is(s, f, 39) {
        return None;
    }
    let g = scan(s, f + 1, Class::NotQuote);
    if !byte_is(s, g, 39) {
        return None;
    }
    Some(((key, copy_range(s, f + 1, g)), g + 1))
}

/// Parses a query; `None` when the whole input is not one.
pub fn parse_sql(input: &str) -> (r: Option<Sql>)
    ensures
        match r {
            Some(q) => select_parse(input.spec_bytes()) == Some(q@),
            None => select_parse(input.spec_bytes()) is None,
        },
{
    let s = input.as_bytes();
    let select: [u8; 6] = [115, 101, 108, 101, 99, 116];
    let from: [u8; 4] = [102, 114, 111, 109];
    assert(select@ == kw_select());
    assert(from@ == kw_from());
    if !keyword_at(s, 0, select.as_slice()) {
        return None;
    }
    let a = scan(s, 6, Class::Blank);
    if a == 6 {
        return None;
    }
    let (select_clause, b) = parse_select_clause(s, a);
    let c = scan(s, b, Class::Blank);
    if c == b || !keyword_at(s, c, from.as_slice()) {
        return None;
    }
    let d = scan(s, c + 4, Class::Blank);
    if d == c + 4 {
        return None;
    }
    let (table, e) = word(s, d)?;
    match parse_where(s, e) {
        Some((w, f)) => if f == s.len() {
            Some(Sql { select_clause, table, where_clause: Some(w) })
        } else {
            None
        },
        None => if e == s.len() {
            Some(Sql { select_clause, table, where_clause: None })
        } else {
            None
        },
    }
}

} // verus!
