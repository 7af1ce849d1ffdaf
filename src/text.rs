//! Lexical pieces shared by the statement parsers: whitespace, keywords and
//! identifiers, each stated over byte positions.
use vstd::prelude::*;
use vstd::slice::{slice_subrange, slice_to_vec};

verus! {

/// Space, tab, line feed or carriage return.
pub open spec fn is_space(b: u8) -> bool {
    b == 32 || b == 9 || b == 10 || b == 13
}

/// Space or tab.
pub open spec fn is_blank(b: u8) -> bool {
    b == 32 || b == 9
}

pub open spec fn is_letter(b: u8) -> bool {
    (65 <= b <= 90) || (97 <= b <= 122)
}

pub open spec fn is_digit(b: u8) -> bool {
    48 <= b <= 57
}

/// An ASCII letter or digit.
pub open spec fn is_alnum(b: u8) -> bool {
    is_letter(b) || is_digit(b)
}

/// A character of a bare identifier in a CREATE statement.
pub open spec fn is_ident_char(b: u8) -> bool {
    is_alnum(b) || b == 95
}

/// A character of an identifier in a SELECT statement.
pub open spec fn is_word_char(b: u8) -> bool {
    is_letter(b) || b == 95
}

/// A character allowed between the double quotes of a quoted identifier.
pub open spec fn is_quoted_char(b: u8) -> bool {
    is_ident_char(b) || b == 32
}

/// Which run of characters a scan takes.
#[derive(Debug, Clone, Copy, PartialEq, Eq, Structural)]
pub enum Class {
    Space,
    Blank,
    Alnum,
    Ident,
    Word,
    Quoted,
    NotQuote,
}

pub open spec fn in_class(c: Class, b: u8) -> bool {
    match c {
        Class::Space => is_space(b),
        Class::Blank => is_blank(b),
        Class::Alnum => is_alnum(b),
        Class::Ident => is_ident_char(b),
        Class::Word => is_word_char(b),
        Class::Quoted => is_quoted_char(b),
        Class::NotQuote => b != 39,
    }
}

/// The end of the longest run of characters of class `c` starting at `i`.
pub open spec fn run_end(s: Seq<u8>, i: nat, c: Class) -> nat
    decreases s.len() - i,
{
    if i < s.len() && in_class(c, s[i as int]) {
        run_end(s, i + 1, c)
    } else {
        i
    }
}

/// ASCII lower case.
pub open spec fn lower(b: u8) -> u8 {
    if 65 <= b <= 90 {
        (b + 32) as u8
    } else {
        b
    }
}

/// The bytes at `i` spell the lower-case keyword `kw`, in any case.
pub open spec fn kw_at(s: Seq<u8>, i: nat, kw: Seq<u8>) -> bool {
    &&& i + kw.len() <= s.len()
    &&& forall|j: int| 0 <= j < kw.len() ==> lower(#[trigger] s[i + j]) == kw[j]
}

/// The byte at `i` is `b`.
pub open spec fn byte_at(s: Seq<u8>, i: nat, b: u8) -> bool {
    i < s.len() && s[i as int] == b
}

/// An identifier of a CREATE statement at `i`: a run of identifier characters,
/// or one of identifier characters and spaces between double quotes. Gives the
/// name and the position after it.
pub open spec fn identifier_at(s: Seq<u8>, i: nat) -> Option<(Seq<u8>, nat)> {
    if byte_at(s, i, 34) {
        let e = run_end(s, i + 1, Class::Quoted);
        if e > i + 1 && byte_at(s, e, 34) {
            Some((s.subrange(i + 1int, e as int), e + 1))
        } else {
            None
        }
    } else {
        let e = run_end(s, i, Class::Ident);
        if e > i {
            Some((s.subrange(i as int, e as int), e))
        } else {
            None
        }
    }
}

pub fn in_class_exec(c: Class, b: u8) -> (r: bool)
    ensures
        r == in_class(c, b),
{
    match c {
        Class::Space => b == 32 || b == 9 || b == 10 || b == 13,
        Class::Blank => b == 32 || b == 9,
        Class::Alnum => (65 <= b && b <= 90) || (97 <= b && b <= 122) || (48 <= b && b <= 57),
        Class::Ident => (65 <= b && b <= 90) || (97 <= b && b <= 122) || (48 <= b && b <= 57) || b
            == 95,
        Class::Word => (65 <= b && b <= 90) || (97 <= b && b <= 122) || b == 95,
        Class::Quoted => (65 <= b && b <= 90) || (97 <= b && b <= 122) || (48 <= b && b <= 57) || b
            == 95 || b == 32,
        Class::NotQuote => b != 39,
    }
}

proof fn lemma_run_end_bounds(s: Seq<u8>, i: nat, c: Class)
    requires
        i <= s.len(),
    ensures
        i <= run_end(s, i, c) <= s.len(),
    decreases s.len() - i,
{
    if i < s.len() && in_class(c, s[i as int]) {
        lemma_run_end_bounds(s, i + 1, c);
    }
}

/// The end of the longest run of class `c` from `i`.
pub fn scan(s: &[u8], i: usize, c: Class) -> (r: usize)
    requires
        i <= s@.len(),
    ensures
        r as nat == run_end(s@, i as nat, c),
        i <= r <= s@.len(),
{
    let mut j = i;
    proof {
        lemma_run_end_bounds(s@, i as nat, c);
    }
    while j < s.len() && in_class_exec(c, s[j])
        invariant
            i <= j <= s@.len(),
            run_end(s@, i as nat, c) == run_end(s@, j as nat, c),
        decreases s@.len() - j,
    {
        j = j + 1;
    }
    j
}

/// Whether the lower-case keyword `kw` stands at `i`, in any case.
pub fn keyword_at(s: &[u8], i: usize, kw: &[u8]) -> (r: bool)
    requires
        i <= s@.len(),
    ensures
        r == kw_at(s@, i as nat, kw@),
        r ==> i + kw@.len() <= s.len(),
{
    let n = s.len();
    if kw.len() > n - i {
        return false;
    }
    let mut j: usize = 0;
    while j < kw.len()
        invariant
            n == s@.len(),
            i + kw@.len() <= n,
            j <= kw@.len(),
            forall|k: int| 0 <= k < j ==> lower(#[trigger] s@[i + k]) == kw@[k],
        decreases kw@.len() - j,
    {
        let b = s[i + j];
        let l = if 65 <= b && b <= 90 {
            b + 32
        } else {
            b
        };
        if l != kw[j] {
            assert(lower(s@[i + j as int]) != kw@[j as int]);
            return false;
        }
        j = j + 1;
    }
    true
}

/// Whether the byte at `i` is `b`.
pub fn byte_is(s: &[u8], i: usize, b: u8) -> (r: bool)
    ensures
        r == byte_at(s@, i as nat, b),
        r ==> i < s.len(),
{
    i < s.len() && s[i] == b
}

/// A copy of `s[i..j]`.
pub fn copy_range(s: &[u8], i: usize, j: usize) -> (r: Vec<u8>)
    requires
        i <= j <= s@.len(),
    ensures
        r@ == s@.subrange(i as int, j as int),
{
    slice_to_vec(slice_subrange(s, i, j))
}

/// The identifier at `i` of a CREATE statement, and the position after it.
pub fn identifier(s: &[u8], i: usize) -> (r: Option<(Vec<u8>, usize)>)
    requires
        i <= s@.len(),
    ensures
        match r {
            Some((name, e)) => identifier_at(s@, i as nat) == Some((name@, e as nat)) && i < e
                <= s@.len(),
            None => identifier_at(s@, i as nat) is None,
        },
{
    let n = s.len();
    if byte_is(s, i, 34) {
        assert(i < n);
        let e = scan(s, i + 1, Class::Quoted);
        if e > i + 1 && byte_is(s, e, 34) {
            Some((copy_range(s, i + 1, e), e + 1))
        } else {
            None
        }
    } else {
        let e = scan(s, i, Class::Ident);
        if e > i {
            Some((copy_range(s, i, e), e))
        } else {
            None
        }
    }
}

} // verus!
