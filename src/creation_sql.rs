//! Parsers for the CREATE TABLE and CREATE INDEX statements stored in the catalog.
use vstd::prelude::*;
use crate::text::{
    Class, byte_at, byte_is, identifier, identifier_at, keyword_at, kw_at, run_end, scan,
};

verus! {

/// The table, name and column of a CREATE INDEX statement.
#[derive(Debug, Clone)]
pub struct IndexInfo {
    pub index_name: Vec<u8>,
    pub table_name: Vec<u8>,
    pub column_name: Vec<u8>,
}

/// A column of a CREATE TABLE statement.
#[derive(Debug, Clone)]
pub struct Field {
    pub name: Vec<u8>,
    /// Declared PRIMARY KEY: its value is the row's rowid.
    pub is_primary_key: bool,
}

/// The name and the columns, in record order, of a CREATE TABLE statement.
#[derive(Debug, Clone)]
pub struct CreateTableStatement {
    pub table: Vec<u8>,
    pub fields: Vec<Field>,
}

impl View for Field {
    type V = (Seq<u8>, bool);

    open spec fn view(&self) -> (Seq<u8>, bool) {
        (self.name@, self.is_primary_key)
    }
}

pub open spec fn fields_view(v: Seq<Field>) -> Seq<(Seq<u8>, bool)> {
    v.map_values(|f: Field| f@)
}

pub open spec fn kw_create() -> Seq<u8> {
    seq![99u8, 114, 101, 97, 116, 101]
}

pub open spec fn kw_table() -> Seq<u8> {
    seq![116u8, 97, 98, 108, 101]
}

pub open spec fn kw_if_not_exists() -> Seq<u8> {
    seq![105u8, 102, 32, 110, 111, 116, 32, 101, 120, 105, 115, 116, 115]
}

pub open spec fn kw_unique() -> Seq<u8> {
    seq![117u8, 110, 105, 113, 117, 101]
}

pub open spec fn kw_index() -> Seq<u8> {
    seq![105u8, 110, 100, 101, 120]
}

pub open spec fn kw_on() -> Seq<u8> {
    seq![111u8, 110]
}

pub open spec fn kw_not_null() -> Seq<u8> {
    seq![110u8, 111, 116, 32, 110, 117, 108, 108]
}

pub open spec fn kw_autoincrement() -> Seq<u8> {
    seq![97u8, 117, 116, 111, 105, 110, 99, 114, 101, 109, 101, 110, 116]
}

pub open spec fn kw_primary_key() -> Seq<u8> {
    seq![112u8, 114, 105, 109, 97, 114, 121, 32, 107, 101, 121]
}

/// The end of the whitespace run at `i`.
pub open spec fn ws(s: Seq<u8>, i: nat) -> nat {
    run_end(s, i, Class::Space)
}

/// `CREATE [UNIQUE] INDEX name ON table ( column )`, keywords in any case,
/// gives (name, table, column).
pub open spec fn create_index_parse(s: Seq<u8>) -> Option<(Seq<u8>, Seq<u8>, Seq<u8>)> {
    let a = ws(s, 6);
    let b = if kw_at(s, a, kw_unique()) && ws(s, a + 6) > a + 6 {
        ws(s, a + 6)
    } else {
        a
    };
    let c = ws(s, b + 5);
    if !kw_at(s, 0, kw_create()) || a == 6 || !kw_at(s, b, kw_index()) || c == b + 5 {
        None
    } else {
        match identifier_at(s, c) {
            None => None,
            Some((name, d)) => {
                let e = ws(s, d);
                let f = ws(s, e + 2);
                if e == d || !kw_at(s, e, kw_on()) || f == e + 2 {
                    None
                } else {
                    match identifier_at(s, f) {
                        None => None,
                        Some((table, g)) => {
                            let h = ws(s, g);
                            let k = ws(s, h + 1);
                            if !byte_at(s, h, 40) {
                                None
                            } else {
                                match identifier_at(s, k) {
                                    None => None,
                                    Some((col, m)) => if byte_at(s, ws(s, m), 41) {
                                        Some((name, table, col))
                                    } else {
                                        None
                                    },
                                }
                            }
                        },
                    }
                }
            },
        }
    }
}

/// A column constraint after whitespace at `i`: NOT NULL, AUTOINCREMENT or
/// PRIMARY KEY, in any case. Gives whether it is PRIMARY KEY, and the end of
/// the whitespace after it.
pub open spec fn constraint_at(s: Seq<u8>, i: nat) -> Option<(bool, nat)> {
    let w = ws(s, i);
    if kw_at(s, w, kw_not_null()) {
        Some((false, ws(s, w + 8)))
    } else if kw_at(s, w, kw_autoincrement()) {
        Some((false, ws(s, w + 13)))
    } else if kw_at(s, w, kw_primary_key()) {
        Some((true, ws(s, w + 11)))
    } else {
        None
    }
}

/// The constraints from `i` on: whether one is PRIMARY KEY, and where they end.
pub open spec fn constraints_from(s: Seq<u8>, i: nat) -> (bool, nat)
    decreases s.len() - i,
{
    match constraint_at(s, i) {
        None => (false, i),
        Some((pk, e)) => if e <= i || e > s.len() {
            (pk, e)
        } else {
            let (pk2, e2) = constraints_from(s, e);
            (pk || pk2, e2)
        },
    }
}

/// A column definition at `i`: a name, an optional type word, constraints,
/// and an optional comma.
pub open spec fn field_at(s: Seq<u8>, i: nat) -> Option<((Seq<u8>, bool), nat)> {
    match identifier_at(s, i) {
        None => None,
        Some((name, p)) => {
            let w = ws(s, p);
            let a = run_end(s, w, Class::Alnum);
            let q = if a > w {
                ws(s, a)
            } else {
                p
            };
            let (pk, r) = constraints_from(s, q);
            let w2 = ws(s, r);
            let t = if byte_at(s, w2, 44) {
                ws(s, w2 + 1)
            } else {
                r
            };
            Some(((name, pk), t))
        },
    }
}

/// The column definitions from `i` on, and where they end.
pub open spec fn fields_from(s: Seq<u8>, i: nat) -> (Seq<(Seq<u8>, bool)>, nat)
    decreases s.len() - i,
{
    match field_at(s, i) {
        None => (Seq::empty(), i),
        Some((f, e)) => if e <= i || e > s.len() {
            (seq![f], e)
        } else {
            let (rest, e2) = fields_from(s, e);
            (seq![f] + rest, e2)
        },
    }
}

/// `CREATE TABLE [IF NOT EXISTS] name ( column, ... )`, keywords in any case,
/// gives the name and the columns with their PRIMARY KEY mark.
pub open spec fn create_table_parse(s: Seq<u8>) -> Option<(Seq<u8>, Seq<(Seq<u8>, bool)>)> {
    let a = ws(s, 6);
    let b = ws(s, a + 5);
    let c = if kw_at(s, b, kw_if_not_exists()) && ws(s, b + 13) > b + 13 {
        ws(s, b + 13)
    } else {
        b
    };
    if !kw_at(s, 0, kw_create()) || a == 6 || !kw_at(s, a, kw_table()) || b == a + 5 {
        None
    } else {
        match identifier_at(s, c) {
            None => None,
            Some((name, d)) => {
                let e = ws(s, d);
                if !byte_at(s, e, 40) {
                    None
                } else {
                    let (fields, g) = fields_from(s, ws(s, e + 1));
                    if fields.len() >= 1 && byte_at(s, ws(s, g), 41) {
                        Some((name, fields))
                    } else {
                        None
                    }
                }
            },
        }
    }
}

/// Parses a CREATE INDEX statement.
pub fn parse_create_index(input: &[u8]) -> (r: Option<IndexInfo>)
    ensures
        match r {
            Some(info) => create_index_parse(input@) == Some(
                (info.index_name@, info.table_name@, info.column_name@),
            ),
            None => create_index_parse(input@) is None,
        },
{
    let s = input;
    let create: [u8; 6] = [99, 114, 101, 97, 116, 101];
    let unique: [u8; 6] = [117, 110, 105, 113, 117, 101];
    let index: [u8; 5] = [105, 110, 100, 101, 120];
    let on: [u8; 2] = [111, 110];
    assert(create@ == kw_create());
    assert(unique@ == kw_unique());
    assert(index@ == kw_index());
    assert(on@ == kw_on());
    if !keyword_at(s, 0, create.as_slice()) {
        return None;
    }
    let a = scan(s, 6, Class::Space);
    if a == 6 {
        return None;
    }
    let mut b = a;
    if keyword_at(s, a, unique.as_slice()) {
        let u = scan(s, a + 6, Class::Space);
        if u > a + 6 {
            b = u;
        }
    }
    if !keyword_at(s, b, index.as_slice()) {
        return None;
    }
    let c = scan(s, b + 5, Class::Space);
    if c == b + 5 {
        return None;
    }
    let (index_name, d) = identifier(s, c)?;
    let e = scan(s, d, Class::Space);
    if e == d || !keyword_at(s, e, on.as_slice()) {
        return None;
    }
    let f = scan(s, e + 2, Class::Space);
    if f == e + 2 {
        return None;
    }
    let (table_name, g) = identifier(s, f)?;
    let h = scan(s, g, Class::Space);
    if !byte_is(s, h, 40) {
        return None;
    }
    let k = scan(s, h + 1, Class::Space);
    let (column_name, m) = identifier(s, k)?;
    let n = scan(s, m, Class::Space);
    if !byte_is(s, n, 41) {
        return None;
    }
    Some(IndexInfo { index_name, table_name, column_name })
}

/// The constraints from `i` on.
fn parse_constraints(s: &[u8], i: usize) -> (r: (bool, usize))
    requires
        i <= s@.len(),
    ensures
        r.0 == constraints_from(s@, i as nat).0,
        r.1 as nat == constraints_from(s@, i as nat).1,
        i <= r.1 <= s@.len(),
{
    let not_null: [u8; 8] = [110, 111, 116, 32, 110, 117, 108, 108];
    let autoinc: [u8; 13] = [97, 117, 116, 111, 105, 110, 99, 114, 101, 109, 101, 110, 116];
    let primary_key: [u8; 11] = [112, 114, 105, 109, 97, 114, 121, 32, 107, 101, 121];
    assert(not_null@ == kw_not_null());
    assert(autoinc@ == kw_autoincrement());
    assert(primary_key@ == kw_primary_key());
    let mut pk = false;
    let mut j = i;
    loop
        invariant
            i <= j <= s@.len(),
            not_null@ == kw_not_null(),
            autoinc@ == kw_autoincrement(),
            primary_key@ == kw_primary_key(),
            constraints_from(s@, i as nat) == ((pk || constraints_from(s@, j as nat).0),
            constraints_from(s@, j as nat).1),
        ensures
            i <= j <= s@.len(),
            constraints_from(s@, i as nat) == (pk, j as nat),
        decreases s@.len() - j,
    {
        let w = scan(s, j, Class::Space);
        let e;
        let this_pk;
        if keyword_at(s, w, not_null.as_slice()) {
            e = scan(s, w + 8, Class::Space);
            this_pk = false;
        } else if keyword_at(s, w, autoinc.as_slice()) {
            e = scan(s, w + 13, Class::Space);
            this_pk = false;
        } else if keyword_at(s, w, primary_key.as_slice()) {
            e = scan(s, w + 11, Class::Space);
            this_pk = true;
        } else {
            assert(constraints_from(s@, j as nat) == (false, j as nat));
            break;
        }
        assert(constraint_at(s@, j as nat) == Some((this_pk, e as nat)));
        pk = pk || this_pk;
        j = e;
    }
    (pk, j)
}

/// The column definition at `i`, and where it ends.
fn parse_field(s: &[u8], i: usize) -> (r: Option<(Field, usize)>)
    requires
        i <= s@.len(),
    ensures
        match r {
            Some((f, e)) => field_at(s@, i as nat) == Some((f@, e as nat)) && i < e <= s@.len(),
            None => field_at(s@, i as nat) is None,
        },
{
    let (name, p) = identifier(s, i)?;
    let w = scan(s, p, Class::Space);
    let a = scan(s, w, Class::Alnum);
    let q = if a > w {
        scan(s, a, Class::Space)
    } else {
        p
    };
    let (pk, r) = parse_constraints(s, q);
    let w2 = scan(s, r, Class::Space);
    let t = if byte_is(s, w2, 44) {
        scan(s, w2 + 1, Class::Space)
    } else {
        r
    };
    Some((Field { name, is_primary_key: pk }, t))
}

/// Parses a CREATE TABLE statement.
pub fn parse_creation(input: &[u8]) -> (r: Option<CreateTableStatement>)
    ensures
        match r {
            Some(st) => create_table_parse(input@) == Some((st.table@, fields_view(st.fields@))),
            None => create_table_parse(input@) is None,
        },
{
    let s = input;
    let create: [u8; 6] = [99, 114, 101, 97, 116, 101];
    let table_kw: [u8; 5] = [116, 97, 98, 108, 101];
    let if_not_exists: [u8; 13] = [105, 102, 32, 110, 111, 116, 32, 101, 120, 105, 115, 116, 115];
    assert(create@ == kw_create());
    assert(table_kw@ == kw_table());
    assert(if_not_exists@ == kw_if_not_exists());
    if !keyword_at(s, 0, create.as_slice()) {
        return None;
    }
    let a = scan(s, 6, Class::Space);
    if a == 6 || !keyword_at(s, a, table_kw.as_slice()) {
        return None;
    }
    let b = scan(s, a + 5, Class::Space);
    if b == a + 5 {
        return None;
    }
    let mut c = b;
    if keyword_at(s, b, if_not_exists.as_slice()) {
        let u = scan(s, b + 13, Class::Space);
        if u > b + 13 {
            c = u;
        }
    }
    let (table, d) = identifier(s, c)?;
    let e = scan(s, d, Class::Space);
    if !byte_is(s, e, 40) {
        return None;
    }
    let start = scan(s, e + 1, Class::Space);
    let mut fields: Vec<Field> = Vec::new();
    let mut j = start;
    let ghost outcome = if fields_from(s@, start as nat).0.len() >= 1 && byte_at(
        s@,
        ws(s@, fields_from(s@, start as nat).1),
        41,
    ) {
        Some((table@, fields_from(s@, start as nat).0))
    } else {
        None
    };
    assert(create_table_parse(s@) == outcome);
    proof {
        let (all, _) = fields_from(s@, start as nat);
        assert(fields_view(fields@) + all =~= all);
    }
    loop
        invariant
            start <= j <= s@.len(),
            create_table_parse(s@) == outcome,
            outcome == if fields_from(s@, start as nat).0.len() >= 1 && byte_at(
                s@,
                ws(s@, fields_from(s@, start as nat).1),
                41,
            ) {
                Some((table@, fields_from(s@, start as nat).0))
            } else {
                None::<(Seq<u8>, Seq<(Seq<u8>, bool)>)>
            },
            fields_from(s@, start as nat) == (fields_view(fields@) + fields_from(s@, j as nat).0,
            fields_from(s@, j as nat).1),
        ensures
            start <= j <= s@.len(),
            create_table_parse(s@) == outcome,
            outcome == if fields_from(s@, start as nat).0.len() >= 1 && byte_at(
                s@,
                ws(s@, fields_from(s@, start as nat).1),
                41,
            ) {
                Some((table@, fields_from(s@, start as nat).0))
            } else {
                None::<(Seq<u8>, Seq<(Seq<u8>, bool)>)>
            },
            fields_from(s@, start as nat) == (fields_view(fields@), j as nat),
        decreases s@.len() - j,
    {
        match parse_field(s, j) {
            None => {
                assert(fields_from(s@, j as nat) == (Seq::<(Seq<u8>, bool)>::empty(), j as nat));
                assert(fields_view(fields@) + Seq::<(Seq<u8>, bool)>::empty() =~= fields_view(
                    fields@,
                ));
                break;
            },
            Some((f, t)) => {
                let ghost before = fields_view(fields@);
                fields.push(f);
                proof {
                    assert(fields_view(fields@) =~= before.push(f@));
                    let (rest, _) = fields_from(s@, t as nat);
                    assert(before.push(f@) + rest =~= before + (seq![f@] + rest));
                }
                j = t;
            },
        }
    }
    assert(fields_view(fields@) + Seq::<(Seq<u8>, bool)>::empty() =~= fields_view(fields@));
    if fields.len() < 1 {
        return None;
    }
    let h = scan(s, j, Class::Space);
    if !byte_is(s, h, 41) {
        return None;
    }
    Some(CreateTableStatement { table, fields })
}

} // verus!
