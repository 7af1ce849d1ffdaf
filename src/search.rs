//! Why the index search may skip subtrees: on an index whose keys are ordered
//! as a search tree, it finds exactly the entries that a walk over every entry
//! would find.
use vstd::prelude::*;
use crate::btree::{
    bytes_lt, index_cell, index_rowid, index_rowids, interior_index_rowids, leaf_index_rowids,
    load_page,
};
use crate::error::DbError;
use crate::header::BTreePage;

verus! {

/// Byte-wise `a <= b`.
pub open spec fn key_le(a: Seq<u8>, b: Seq<u8>) -> bool {
    a == b || bytes_lt(a, b)
}

/// `k` lies between the bounds that are given.
pub open spec fn within(k: Seq<u8>, lo: Option<Seq<u8>>, hi: Option<Seq<u8>>) -> bool {
    &&& match lo {
        Some(l) => key_le(l, k),
        None => true,
    }
    &&& match hi {
        Some(h) => key_le(k, h),
        None => true,
    }
}

/// No byte string is below itself.
pub proof fn lemma_lt_irreflexive(a: Seq<u8>)
    ensures
        !bytes_lt(a, a),
    decreases a.len(),
{
    if a.len() > 0 {
        lemma_lt_irreflexive(a.drop_first());
    }
}

/// The byte-wise order is transitive.
pub proof fn lemma_lt_transitive(a: Seq<u8>, b: Seq<u8>, c: Seq<u8>)
    requires
        bytes_lt(a, b),
        bytes_lt(b, c),
    ensures
        bytes_lt(a, c),
    decreases a.len(),
{
    if a.len() > 0 && b.len() > 0 && c.len() > 0 && a[0] == b[0] && b[0] == c[0] {
        lemma_lt_transitive(a.drop_first(), b.drop_first(), c.drop_first());
    }
}

/// Of two different byte strings, one is below the other.
pub proof fn lemma_lt_total(a: Seq<u8>, b: Seq<u8>)
    requires
        a != b,
        !bytes_lt(a, b),
    ensures
        bytes_lt(b, a),
    decreases a.len(),
{
    if a.len() > 0 && b.len() > 0 && a[0] == b[0] {
        assert(a.drop_first() != b.drop_first()) by {
            if a.drop_first() == b.drop_first() {
                assert(a =~= seq![a[0]] + a.drop_first());
                assert(b =~= seq![b[0]] + b.drop_first());
            }
        }
        lemma_lt_total(a.drop_first(), b.drop_first());
    } else if a.len() == 0 && b.len() == 0 {
        assert(a =~= b);
    }
}

proof fn lemma_le_lt(a: Seq<u8>, b: Seq<u8>, c: Seq<u8>)
    requires
        key_le(a, b),
        bytes_lt(b, c),
    ensures
        bytes_lt(a, c),
        a != c,
{
    if a != b {
        lemma_lt_transitive(a, b, c);
    }
    lemma_lt_irreflexive(c);
}

proof fn lemma_lt_le(a: Seq<u8>, b: Seq<u8>, c: Seq<u8>)
    requires
        bytes_lt(a, b),
        key_le(b, c),
    ensures
        bytes_lt(a, c),
        a != c,
{
    if b != c {
        lemma_lt_transitive(a, b, c);
    }
    lemma_lt_irreflexive(c);
}

/// Every entry at `ptrs` of a leaf index page decodes, with a key within the bounds.
pub open spec fn leaf_keys_within(page: Seq<u8>, ptrs: Seq<u16>, lo: Option<Seq<u8>>, hi: Option<Seq<u8>>) -> bool
    decreases ptrs.len(),
{
    ptrs.len() == 0 || {
        &&& index_cell(page, ptrs[0] as nat, false) is Ok
        &&& within(index_cell(page, ptrs[0] as nat, false).unwrap().1, lo, hi)
        &&& leaf_keys_within(page, ptrs.drop_first(), lo, hi)
    }
}

/// The index tree rooted at page `n` decodes, and is ordered as a search
/// tree whose keys lie within the bounds: the left subtree of a cell holds
/// keys no greater than the cell's key and no smaller than the key before it.
pub open spec fn index_ordered(
    db: Seq<u8>,
    ps: nat,
    n: nat,
    lo: Option<Seq<u8>>,
    hi: Option<Seq<u8>>,
    fuel: nat,
) -> bool
    decreases fuel, 0nat, 0nat,
{
    if fuel == 0 {
        false
    } else {
        match load_page(db, ps, n) {
            Err(_) => false,
            Ok((page, h, ptrs)) => match h.page_type {
                BTreePage::LeafIndex => leaf_keys_within(page, ptrs, lo, hi),
                BTreePage::InteriorIndex => cells_ordered(
                    db,
                    ps,
                    page,
                    ptrs,
                    h.right_most_pointer.unwrap(),
                    lo,
                    hi,
                    (fuel - 1) as nat,
                ),
                _ => true,
            },
        }
    }
}

/// The cells at `ptrs` of an interior index page, and its right-most child,
/// are ordered within the bounds.
pub open spec fn cells_ordered(
    db: Seq<u8>,
    ps: nat,
    page: Seq<u8>,
    ptrs: Seq<u16>,
    rmp: u32,
    lo: Option<Seq<u8>>,
    hi: Option<Seq<u8>>,
    fuel: nat,
) -> bool
    decreases fuel, 1nat, ptrs.len(),
{
    if ptrs.len() == 0 {
        index_ordered(db, ps, rmp as nat, lo, hi, fuel)
    } else {
        match index_cell(page, ptrs[0] as nat, true) {
            Err(_) => false,
            Ok((child, key, _)) => {
                &&& within(key, lo, hi)
                &&& index_ordered(db, ps, child as nat, lo, Some(key), fuel)
                &&& cells_ordered(db, ps, page, ptrs.drop_first(), rmp, Some(key), hi, fuel)
            },
        }
    }
}

/// The rowids of every entry of the index tree rooted at page `n` whose key
/// is `value`: on an interior page, for each cell its own entry and then its
/// left subtree, and last the right-most subtree.
pub open spec fn index_matches(db: Seq<u8>, ps: nat, n: nat, value: Seq<u8>, fuel: nat) -> Result<
    Seq<i64>,
    DbError,
>
    decreases fuel, 0nat, 0nat,
{
    if fuel == 0 {
        Err(DbError::TreeTooDeep)
    } else {
        match load_page(db, ps, n) {
            Err(e) => Err(e),
            Ok((page, h, ptrs)) => match h.page_type {
                BTreePage::LeafIndex => leaf_index_rowids(page, ptrs, value),
                BTreePage::InteriorIndex => cells_matches(
                    db,
                    ps,
                    page,
                    ptrs,
                    h.right_most_pointer.unwrap(),
                    value,
                    (fuel - 1) as nat,
                ),
                _ => Ok(Seq::empty()),
            },
        }
    }
}

/// The matching rowids under the cells at `ptrs` of an interior index page
/// and under its right-most child.
pub open spec fn cells_matches(
    db: Seq<u8>,
    ps: nat,
    page: Seq<u8>,
    ptrs: Seq<u16>,
    rmp: u32,
    value: Seq<u8>,
    fuel: nat,
) -> Result<Seq<i64>, DbError>
    decreases fuel, 1nat, ptrs.len(),
{
    if ptrs.len() == 0 {
        index_matches(db, ps, rmp as nat, value, fuel)
    } else {
        match index_cell(page, ptrs[0] as nat, true) {
            Err(e) => Err(e),
            Ok((child, key, rb)) => {
                let here: Result<Seq<i64>, DbError> = if key == value {
                    match index_rowid(rb) {
                        Err(e) => Err(e),
                        Ok(r) => Ok(seq![r]),
                    }
                } else {
                    Ok(Seq::empty())
                };
                match here {
                    Err(e) => Err(e),
                    Ok(hv) => match index_matches(db, ps, child as nat, value, fuel) {
                        Err(e) => Err(e),
                        Ok(left) => match cells_matches(db, ps, page, ptrs.drop_first(), rmp, value, fuel) {
                            Err(e) => Err(e),
                            Ok(rest) => Ok(hv + left + rest),
                        },
                    },
                }
            },
        }
    }
}

proof fn lemma_leaf_none_above(page: Seq<u8>, ptrs: Seq<u16>, lo: Option<Seq<u8>>, h: Seq<u8>, value: Seq<u8>)
    requires
        leaf_keys_within(page, ptrs, lo, Some(h)),
        bytes_lt(h, value),
    ensures
        leaf_index_rowids(page, ptrs, value) == Ok::<_, DbError>(Seq::<i64>::empty()),
    decreases ptrs.len(),
{
    if ptrs.len() > 0 {
        let key = index_cell(page, ptrs[0] as nat, false).unwrap().1;
        lemma_le_lt(key, h, value);
        lemma_leaf_none_above(page, ptrs.drop_first(), lo, h, value);
        assert(Seq::<i64>::empty() + Seq::<i64>::empty() =~= Seq::<i64>::empty());
    }
}

proof fn lemma_leaf_none_below(page: Seq<u8>, ptrs: Seq<u16>, l: Seq<u8>, hi: Option<Seq<u8>>, value: Seq<u8>)
    requires
        leaf_keys_within(page, ptrs, Some(l), hi),
        bytes_lt(value, l),
    ensures
        leaf_index_rowids(page, ptrs, value) == Ok::<_, DbError>(Seq::<i64>::empty()),
    decreases ptrs.len(),
{
    if ptrs.len() > 0 {
        let key = index_cell(page, ptrs[0] as nat, false).unwrap().1;
        lemma_lt_le(value, l, key);
        lemma_leaf_none_below(page, ptrs.drop_first(), l, hi, value);
        assert(Seq::<i64>::empty() + Seq::<i64>::empty() =~= Seq::<i64>::empty());
    }
}

/// A subtree whose keys are all below `value` holds no match.
proof fn lemma_none_above(db: Seq<u8>, ps: nat, n: nat, lo: Option<Seq<u8>>, h: Seq<u8>, value: Seq<u8>, fuel: nat)
    requires
        index_ordered(db, ps, n, lo, Some(h), fuel),
        bytes_lt(h, value),
    ensures
        index_matches(db, ps, n, value, fuel) == Ok::<_, DbError>(Seq::<i64>::empty()),
    decreases fuel, 0nat, 0nat,
{
    let (page, hd, ptrs) = load_page(db, ps, n).unwrap();
    match hd.page_type {
        BTreePage::LeafIndex => lemma_leaf_none_above(page, ptrs, lo, h, value),
        BTreePage::InteriorIndex => lemma_cells_none_above(
            db,
            ps,
            page,
            ptrs,
            hd.right_most_pointer.unwrap(),
            lo,
            h,
            value,
            (fuel - 1) as nat,
        ),
        _ => {},
    }
}

proof fn lemma_cells_none_above(
    db: Seq<u8>,
    ps: nat,
    page: Seq<u8>,
    ptrs: Seq<u16>,
    rmp: u32,
    lo: Option<Seq<u8>>,
    h: Seq<u8>,
    value: Seq<u8>,
    fuel: nat,
)
    requires
        cells_ordered(db, ps, page, ptrs, rmp, lo, Some(h), fuel),
        bytes_lt(h, value),
    ensures
        cells_matches(db, ps, page, ptrs, rmp, value, fuel) == Ok::<_, DbError>(Seq::<i64>::empty()),
    decreases fuel, 1nat, ptrs.len(),
{
    if ptrs.len() == 0 {
        lemma_none_above(db, ps, rmp as nat, lo, h, value, fuel);
    } else {
        let (child, key, _) = index_cell(page, ptrs[0] as nat, true).unwrap();
        lemma_le_lt(key, h, value);
        lemma_none_above(db, ps, child as nat, lo, key, value, fuel);
        lemma_cells_none_above(db, ps, page, ptrs.drop_first(), rmp, Some(key), h, value, fuel);
        assert(Seq::<i64>::empty() + Seq::<i64>::empty() + Seq::<i64>::empty() =~= Seq::<i64>::empty());
    }
}

/// A subtree whose keys are all above `value` holds no match.
proof fn lemma_none_below(db: Seq<u8>, ps: nat, n: nat, l: Seq<u8>, hi: Option<Seq<u8>>, value: Seq<u8>, fuel: nat)
    requires
        index_ordered(db, ps, n, Some(l), hi, fuel),
        bytes_lt(value, l),
    ensures
        index_matches(db, ps, n, value, fuel) == Ok::<_, DbError>(Seq::<i64>::empty()),
    decreases fuel, 0nat, 0nat,
{
    let (page, hd, ptrs) = load_page(db, ps, n).unwrap();
    match hd.page_type {
        BTreePage::LeafIndex => lemma_leaf_none_below(page, ptrs, l, hi, value),
        BTreePage::InteriorIndex => lemma_cells_none_below(
            db,
            ps,
            page,
            ptrs,
            hd.right_most_pointer.unwrap(),
            l,
            hi,
            value,
            (fuel - 1) as nat,
        ),
        _ => {},
    }
}

proof fn lemma_cells_none_below(
    db: Seq<u8>,
    ps: nat,
    page: Seq<u8>,
    ptrs: Seq<u16>,
    rmp: u32,
    l: Seq<u8>,
    hi: Option<Seq<u8>>,
    value: Seq<u8>,
    fuel: nat,
)
    requires
        cells_ordered(db, ps, page, ptrs, rmp, Some(l), hi, fuel),
        bytes_lt(value, l),
    ensures
        cells_matches(db, ps, page, ptrs, rmp, value, fuel) == Ok::<_, DbError>(Seq::<i64>::empty()),
    decreases fuel, 1nat, ptrs.len(),
{
    if ptrs.len() == 0 {
        lemma_none_below(db, ps, rmp as nat, l, hi, value, fuel);
    } else {
        let (child, key, _) = index_cell(page, ptrs[0] as nat, true).unwrap();
        lemma_lt_le(value, l, key);
        lemma_none_below(db, ps, child as nat, l, Some(key), value, fuel);
        lemma_cells_none_below(db, ps, page, ptrs.drop_first(), rmp, key, hi, value, fuel);
        assert(Seq::<i64>::empty() + Seq::<i64>::empty() + Seq::<i64>::empty() =~= Seq::<i64>::empty());
    }
}

/// On an index ordered as a search tree, the search for `value` returns
/// exactly the rowids of the entries whose key equals `value`, one for each
/// such entry, in the order of a walk over every entry; it fails exactly when
/// that walk fails.
pub proof fn lemma_index_search_exact(
    db: Seq<u8>,
    ps: nat,
    n: nat,
    lo: Option<Seq<u8>>,
    hi: Option<Seq<u8>>,
    value: Seq<u8>,
    fuel: nat,
)
    requires
        index_ordered(db, ps, n, lo, hi, fuel),
    ensures
        index_rowids(db, ps, n, value, fuel) == index_matches(db, ps, n, value, fuel),
    decreases fuel, 0nat, 0nat,
{
    let (page, hd, ptrs) = load_page(db, ps, n).unwrap();
    if hd.page_type == BTreePage::InteriorIndex {
        lemma_cells_search_exact(
            db,
            ps,
            page,
            ptrs,
            hd.right_most_pointer.unwrap(),
            lo,
            hi,
            value,
            (fuel - 1) as nat,
        );
    }
}

proof fn lemma_cells_search_exact(
    db: Seq<u8>,
    ps: nat,
    page: Seq<u8>,
    ptrs: Seq<u16>,
    rmp: u32,
    lo: Option<Seq<u8>>,
    hi: Option<Seq<u8>>,
    value: Seq<u8>,
    fuel: nat,
)
    requires
        cells_ordered(db, ps, page, ptrs, rmp, lo, hi, fuel),
    ensures
        interior_index_rowids(db, ps, page, ptrs, rmp, value, fuel) == cells_matches(
            db,
            ps,
            page,
            ptrs,
            rmp,
            value,
            fuel,
        ),
    decreases fuel, 1nat, ptrs.len(),
{
    if ptrs.len() == 0 {
        lemma_index_search_exact(db, ps, rmp as nat, lo, hi, value, fuel);
    } else {
        let (child, key, rb) = index_cell(page, ptrs[0] as nat, true).unwrap();
        let rest = ptrs.drop_first();
        lemma_index_search_exact(db, ps, child as nat, lo, Some(key), value, fuel);
        lemma_cells_search_exact(db, ps, page, rest, rmp, Some(key), hi, value, fuel);
        if bytes_lt(key, value) {
            lemma_lt_irreflexive(value);
            lemma_none_above(db, ps, child as nat, lo, key, value, fuel);
            if let Ok(r) = cells_matches(db, ps, page, rest, rmp, value, fuel) {
                assert(Seq::<i64>::empty() + Seq::<i64>::empty() + r =~= r);
            }
        } else if key == value {
            if let Ok(left) = index_matches(db, ps, child as nat, value, fuel) {
                if let Ok(r) = cells_matches(db, ps, page, rest, rmp, value, fuel) {
                    if let Ok(id) = index_rowid(rb) {
                        assert(seq![id] + left + r == seq![id] + left + r);
                    }
                }
            }
        } else {
            lemma_lt_total(key, value);
            lemma_cells_none_below(db, ps, page, rest, rmp, key, hi, value, fuel);
            if let Ok(left) = index_matches(db, ps, child as nat, value, fuel) {
                assert(Seq::<i64>::empty() + left + Seq::<i64>::empty() =~= left);
            }
        }
    }
}

} // verus!
