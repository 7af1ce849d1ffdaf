//! Why a descent by rowid finds the row that a full scan would find, on a
//! table tree ordered by rowid; and why, on such a table with an ordered and
//! faithful index, the index path of a query reaches the rows of the scan path.
use vstd::prelude::*;
use crate::btree::{
    RowView, descent_child, find_row, interior_cells, leaf_rows, load_page, row_by_rowid,
    subtrees_rows, table_rows,
};
use crate::error::DbError;
use crate::header::BTreePage;
use crate::query::{fetch_rows, keep_matching};
use crate::search::{index_matches, index_ordered, lemma_index_search_exact};
use crate::btree::index_rowids;
use crate::util::value_for;

verus! {

/// Every rowid lies in `(lo, hi]`, for the bounds that are given.
pub open spec fn rowids_within(rows: Seq<RowView>, lo: Option<i64>, hi: Option<i64>) -> bool {
    forall|i: int|
        0 <= i < rows.len() ==> (lo is Some ==> lo.unwrap() < #[trigger] rows[i].0) && (hi is Some
            ==> rows[i].0 <= hi.unwrap())
}

/// The table tree rooted at page `n` decodes, holds only table pages, and is
/// ordered by rowid within `(lo, hi]`: the left subtree of a cell holds rowids
/// up to its key, what follows holds rowids above it.
pub open spec fn table_ordered(db: Seq<u8>, ps: nat, n: nat, lo: Option<i64>, hi: Option<i64>, fuel: nat) -> bool
    decreases fuel, 0nat, 0nat,
{
    if fuel == 0 {
        false
    } else {
        match load_page(db, ps, n) {
            Err(_) => false,
            Ok((page, h, ptrs)) => match h.page_type {
                BTreePage::LeafTable => match leaf_rows(page, ptrs) {
                    Ok(rows) => rowids_within(rows, lo, hi),
                    Err(_) => false,
                },
                BTreePage::InteriorTable => match interior_cells(page, ptrs) {
                    Ok(cells) => table_cells_ordered(
                        db,
                        ps,
                        cells,
                        h.right_most_pointer.unwrap(),
                        lo,
                        hi,
                        (fuel - 1) as nat,
                    ),
                    Err(_) => false,
                },
                _ => false,
            },
        }
    }
}

/// The subtrees of the cells of an interior table page, and of its
/// right-most child, are ordered by rowid within `(lo, hi]`.
pub open spec fn table_cells_ordered(
    db: Seq<u8>,
    ps: nat,
    cells: Seq<(u32, i64)>,
    rmp: u32,
    lo: Option<i64>,
    hi: Option<i64>,
    fuel: nat,
) -> bool
    decreases fuel, 1nat, cells.len(),
{
    if cells.len() == 0 {
        table_ordered(db, ps, rmp as nat, lo, hi, fuel)
    } else {
        &&& lo is Some ==> lo.unwrap() <= cells[0].1
        &&& hi is Some ==> cells[0].1 <= hi.unwrap()
        &&& table_ordered(db, ps, cells[0].0 as nat, lo, Some(cells[0].1), fuel)
        &&& table_cells_ordered(db, ps, cells.drop_first(), rmp, Some(cells[0].1), hi, fuel)
    }
}

/// The children of the cells, then the right-most child.
pub open spec fn children_of(cells: Seq<(u32, i64)>, rmp: u32) -> Seq<u32> {
    cells.map_values(|c: (u32, i64)| c.0).push(rmp)
}

/// What a search of `rows` for `rowid` gives: the first such row, or `RowNotFound`.
pub open spec fn found(rows: Seq<RowView>, rowid: i64) -> Result<RowView, DbError> {
    match find_row(rows, rowid) {
        Some(r) => Ok(r),
        None => Err(DbError::RowNotFound),
    }
}

proof fn lemma_find_concat(a: Seq<RowView>, b: Seq<RowView>, rowid: i64)
    ensures
        find_row(a + b, rowid) == if find_row(a, rowid) is Some {
            find_row(a, rowid)
        } else {
            find_row(b, rowid)
        },
    decreases a.len(),
{
    if a.len() == 0 {
        assert(a + b =~= b);
    } else {
        assert((a + b).drop_first() =~= a.drop_first() + b);
        lemma_find_concat(a.drop_first(), b, rowid);
    }
}

proof fn lemma_find_absent(a: Seq<RowView>, rowid: i64)
    requires
        forall|i: int| 0 <= i < a.len() ==> (#[trigger] a[i]).0 != rowid,
    ensures
        find_row(a, rowid) is None,
    decreases a.len(),
{
    if a.len() > 0 {
        assert forall|i: int| 0 <= i < a.drop_first().len() implies (
        #[trigger] a.drop_first()[i]).0 != rowid by {
            assert(a.drop_first()[i] == a[i + 1]);
        }
        lemma_find_absent(a.drop_first(), rowid);
    }
}

proof fn lemma_subtrees_first(db: Seq<u8>, ps: nat, cells: Seq<(u32, i64)>, rmp: u32, fuel: nat)
    requires
        cells.len() > 0,
    ensures
        children_of(cells, rmp)[0] == cells[0].0,
        children_of(cells, rmp).drop_first() == children_of(cells.drop_first(), rmp),
{
    assert(children_of(cells, rmp).drop_first() =~= children_of(cells.drop_first(), rmp));
}

/// The rows of an ordered tree have rowids within its bounds.
proof fn lemma_rows_within(db: Seq<u8>, ps: nat, n: nat, lo: Option<i64>, hi: Option<i64>, fuel: nat)
    requires
        table_ordered(db, ps, n, lo, hi, fuel),
        table_rows(db, ps, n, fuel) is Ok,
    ensures
        rowids_within(table_rows(db, ps, n, fuel).unwrap(), lo, hi),
    decreases fuel, 0nat, 0nat,
{
    let (page, h, ptrs) = load_page(db, ps, n).unwrap();
    if h.page_type == BTreePage::InteriorTable {
        let cells = interior_cells(page, ptrs).unwrap();
        lemma_cells_rows_within(db, ps, cells, h.right_most_pointer.unwrap(), lo, hi, (fuel - 1) as nat);
    }
}

proof fn lemma_cells_rows_within(
    db: Seq<u8>,
    ps: nat,
    cells: Seq<(u32, i64)>,
    rmp: u32,
    lo: Option<i64>,
    hi: Option<i64>,
    fuel: nat,
)
    requires
        table_cells_ordered(db, ps, cells, rmp, lo, hi, fuel),
        subtrees_rows(db, ps, children_of(cells, rmp), fuel) is Ok,
    ensures
        rowids_within(subtrees_rows(db, ps, children_of(cells, rmp), fuel).unwrap(), lo, hi),
    decreases fuel, 1nat, cells.len(),
{
    let cs = children_of(cells, rmp);
    if cells.len() == 0 {
        assert(cs.drop_first() =~= Seq::<u32>::empty());
        assert(cs[0] == rmp);
        assert(subtrees_rows(db, ps, cs.drop_first(), fuel) == Ok::<_, DbError>(
            Seq::<RowView>::empty(),
        ));
        lemma_rows_within(db, ps, rmp as nat, lo, hi, fuel);
        let r = table_rows(db, ps, rmp as nat, fuel).unwrap();
        assert(r + Seq::<RowView>::empty() =~= r);
        assert(subtrees_rows(db, ps, cs, fuel) == Ok::<_, DbError>(r));
    } else {
        lemma_subtrees_first(db, ps, cells, rmp, fuel);
        let k = cells[0].1;
        lemma_rows_within(db, ps, cells[0].0 as nat, lo, Some(k), fuel);
        lemma_cells_rows_within(db, ps, cells.drop_first(), rmp, Some(k), hi, fuel);
        let a = table_rows(db, ps, cells[0].0 as nat, fuel).unwrap();
        let b = subtrees_rows(db, ps, children_of(cells.drop_first(), rmp), fuel).unwrap();
        assert forall|i: int| 0 <= i < (a + b).len() implies (lo is Some ==> lo.unwrap() < #[trigger] (a
            + b)[i].0) && (hi is Some ==> (a + b)[i].0 <= hi.unwrap()) by {
            if i < a.len() {
                assert((a + b)[i] == a[i]);
            } else {
                assert((a + b)[i] == b[i - a.len()]);
            }
        }
    }
}

/// On a table tree ordered by rowid, the descent for `rowid` gives the first
/// row with that rowid that the full scan gives, and `RowNotFound` exactly
/// when the scan has none.
pub proof fn lemma_descent_finds_scanned_row(
    db: Seq<u8>,
    ps: nat,
    n: nat,
    lo: Option<i64>,
    hi: Option<i64>,
    rowid: i64,
    fuel: nat,
)
    requires
        table_ordered(db, ps, n, lo, hi, fuel),
        table_rows(db, ps, n, fuel) is Ok,
        lo is Some ==> lo.unwrap() < rowid,
    ensures
        row_by_rowid(db, ps, n, rowid, fuel) == found(table_rows(db, ps, n, fuel).unwrap(), rowid),
    decreases fuel, 0nat, 0nat,
{
    let (page, h, ptrs) = load_page(db, ps, n).unwrap();
    if h.page_type == BTreePage::InteriorTable {
        let cells = interior_cells(page, ptrs).unwrap();
        lemma_cells_descent(db, ps, cells, h.right_most_pointer.unwrap(), lo, hi, rowid, (fuel - 1) as nat);
    }
}

proof fn lemma_cells_descent(
    db: Seq<u8>,
    ps: nat,
    cells: Seq<(u32, i64)>,
    rmp: u32,
    lo: Option<i64>,
    hi: Option<i64>,
    rowid: i64,
    fuel: nat,
)
    requires
        table_cells_ordered(db, ps, cells, rmp, lo, hi, fuel),
        subtrees_rows(db, ps, children_of(cells, rmp), fuel) is Ok,
        lo is Some ==> lo.unwrap() < rowid,
    ensures
        row_by_rowid(db, ps, descent_child(cells, rowid, rmp) as nat, rowid, fuel) == found(
            subtrees_rows(db, ps, children_of(cells, rmp), fuel).unwrap(),
            rowid,
        ),
    decreases fuel, 1nat, cells.len(),
{
    let cs = children_of(cells, rmp);
    if cells.len() == 0 {
        assert(cs.drop_first() =~= Seq::<u32>::empty());
        assert(cs[0] == rmp);
        assert(subtrees_rows(db, ps, cs.drop_first(), fuel) == Ok::<_, DbError>(
            Seq::<RowView>::empty(),
        ));
        lemma_descent_finds_scanned_row(db, ps, rmp as nat, lo, hi, rowid, fuel);
        let r = table_rows(db, ps, rmp as nat, fuel).unwrap();
        assert(r + Seq::<RowView>::empty() =~= r);
        assert(subtrees_rows(db, ps, cs, fuel) == Ok::<_, DbError>(r));
    } else {
        lemma_subtrees_first(db, ps, cells, rmp, fuel);
        let k = cells[0].1;
        let a = table_rows(db, ps, cells[0].0 as nat, fuel).unwrap();
        let b = subtrees_rows(db, ps, children_of(cells.drop_first(), rmp), fuel).unwrap();
        lemma_find_concat(a, b, rowid);
        lemma_rows_within(db, ps, cells[0].0 as nat, lo, Some(k), fuel);
        lemma_cells_rows_within(db, ps, cells.drop_first(), rmp, Some(k), hi, fuel);
        if rowid <= k {
            lemma_descent_finds_scanned_row(db, ps, cells[0].0 as nat, lo, Some(k), rowid, fuel);
            assert forall|i: int| 0 <= i < b.len() implies (#[trigger] b[i]).0 != rowid by {}
            lemma_find_absent(b, rowid);
        } else {
            assert forall|i: int| 0 <= i < a.len() implies (#[trigger] a[i]).0 != rowid by {}
            lemma_find_absent(a, rowid);
            lemma_cells_descent(db, ps, cells.drop_first(), rmp, Some(k), hi, rowid, fuel);
        }
    }
}

/// No two rows share a rowid.
pub open spec fn rowids_unique(rows: Seq<RowView>) -> bool {
    forall|i: int, j: int| 0 <= i < j < rows.len() ==> rows[i].0 != rows[j].0
}

/// The rowids that an index gives for a value are those of the given rows.
pub open spec fn names_rows(ids: Seq<i64>, rows: Seq<RowView>) -> bool {
    forall|id: i64| ids.contains(id) <==> exists|i: int| 0 <= i < rows.len() && (#[trigger] rows[i]).0 == id
}

proof fn lemma_keep_subset(rows: Seq<RowView>, pos: nat, pk: bool, lit: Seq<u8>, r: RowView)
    requires
        keep_matching(rows, pos, pk, lit).contains(r),
    ensures
        rows.contains(r),
        value_for(r, pos, pk) == lit,
    decreases rows.len(),
{
    if rows.len() > 0 {
        let kept = keep_matching(rows.drop_last(), pos, pk, lit);
        if kept.contains(r) {
            lemma_keep_subset(rows.drop_last(), pos, pk, lit, r);
            let i = choose|i: int| 0 <= i < rows.drop_last().len() && rows.drop_last()[i] == r;
            assert(rows[i] == r);
        } else {
            let i = choose|i: int| 0 <= i < kept.push(rows.last()).len() && kept.push(rows.last())[i] == r;
            assert(r == rows.last());
            assert(rows[rows.len() - 1] == r);
        }
    }
}

proof fn lemma_keep_no_duplicates(rows: Seq<RowView>, pos: nat, pk: bool, lit: Seq<u8>)
    requires
        rows.no_duplicates(),
    ensures
        keep_matching(rows, pos, pk, lit).no_duplicates(),
    decreases rows.len(),
{
    if rows.len() > 0 {
        let init = rows.drop_last();
        assert(init.no_duplicates()) by {
            assert forall|i: int, j: int| 0 <= i < init.len() && 0 <= j < init.len() && i != j implies init[i]
                != init[j] by {
                assert(init[i] == rows[i] && init[j] == rows[j]);
            }
        }
        lemma_keep_no_duplicates(init, pos, pk, lit);
        let kept = keep_matching(init, pos, pk, lit);
        if value_for(rows.last(), pos, pk) == lit {
            if kept.contains(rows.last()) {
                lemma_keep_subset(init, pos, pk, lit, rows.last());
                let i = choose|i: int| 0 <= i < init.len() && init[i] == rows.last();
                assert(rows[i] == rows[rows.len() - 1]);
            }
            assert forall|i: int, j: int|
                0 <= i < kept.push(rows.last()).len() && 0 <= j < kept.push(rows.last()).len() && i
                    != j implies kept.push(rows.last())[i] != kept.push(rows.last())[j] by {
                if i < kept.len() && j < kept.len() {
                    assert(kept.push(rows.last())[i] == kept[i]);
                    assert(kept.push(rows.last())[j] == kept[j]);
                } else if i < kept.len() {
                    assert(kept.contains(kept[i]));
                } else {
                    assert(kept.contains(kept[j]));
                }
            }
        }
    }
}

/// Two sequences without repeats that hold the same elements are the same multiset.
proof fn lemma_same_multiset(a: Seq<RowView>, b: Seq<RowView>)
    requires
        a.no_duplicates(),
        b.no_duplicates(),
        forall|r: RowView| a.contains(r) <==> b.contains(r),
    ensures
        a.to_multiset() == b.to_multiset(),
{
    broadcast use vstd::seq_lib::group_to_multiset_ensures;

    a.lemma_multiset_has_no_duplicates();
    b.lemma_multiset_has_no_duplicates();
    assert forall|r: RowView| a.to_multiset().count(r) == b.to_multiset().count(r) by {
        if a.contains(r) {
            assert(a.to_multiset().contains(r));
            assert(b.to_multiset().contains(r));
        } else {
            assert(!b.contains(r));
        }
    }
    assert(a.to_multiset() =~= b.to_multiset());
}

proof fn lemma_find_present(rows: Seq<RowView>, rowid: i64)
    requires
        exists|i: int| 0 <= i < rows.len() && (#[trigger] rows[i]).0 == rowid,
    ensures
        find_row(rows, rowid) is Some,
        rows.contains(find_row(rows, rowid).unwrap()),
        find_row(rows, rowid).unwrap().0 == rowid,
    decreases rows.len(),
{
    if rows[0].0 != rowid {
        let i = choose|i: int| 0 <= i < rows.len() && (#[trigger] rows[i]).0 == rowid;
        assert(rows.drop_first()[i - 1] == rows[i]);
        lemma_find_present(rows.drop_first(), rowid);
        let r = find_row(rows.drop_first(), rowid).unwrap();
        let j = choose|j: int| 0 <= j < rows.drop_first().len() && rows.drop_first()[j] == r;
        assert(rows[j + 1] == r);
    } else {
        assert(rows[0] == rows[0]);
    }
}

proof fn lemma_fetch_all(db: Seq<u8>, ps: nat, root: nat, ids: Seq<i64>, fuel: nat)
    requires
        forall|i: int| 0 <= i < ids.len() ==> row_by_rowid(db, ps, root, #[trigger] ids[i], fuel) is Ok,
    ensures
        fetch_rows(db, ps, root, ids, fuel) is Ok,
        fetch_rows(db, ps, root, ids, fuel).unwrap().len() == ids.len(),
        forall|i: int|
            0 <= i < ids.len() ==> fetch_rows(db, ps, root, ids, fuel).unwrap()[i] == row_by_rowid(
                db,
                ps,
                root,
                #[trigger] ids[i],
                fuel,
            ).unwrap(),
    decreases ids.len(),
{
    if ids.len() > 0 {
        assert forall|i: int| 0 <= i < ids.drop_first().len() implies row_by_rowid(
            db,
            ps,
            root,
            #[trigger] ids.drop_first()[i],
            fuel,
        ) is Ok by {
            assert(ids.drop_first()[i] == ids[i + 1]);
        }
        lemma_fetch_all(db, ps, root, ids.drop_first(), fuel);
        let rest = fetch_rows(db, ps, root, ids.drop_first(), fuel).unwrap();
        let first = row_by_rowid(db, ps, root, ids[0], fuel).unwrap();
        assert forall|i: int| 0 <= i < ids.len() implies (seq![first] + rest)[i] == row_by_rowid(
            db,
            ps,
            root,
            #[trigger] ids[i],
            fuel,
        ).unwrap() by {
            if i > 0 {
                assert(ids.drop_first()[i - 1] == ids[i]);
            }
        }
    }
}

/// Index path against scan path. Take a table tree ordered by rowid whose
/// rows have distinct rowids, and an index ordered as a search tree whose
/// entries for `lit` name the rows that the scan keeps for `lit` in column
/// `pos`, each of them once. Then the search finds its rowids, every one of
/// them is fetched, and the rows that the index path fetches are, as a
/// multiset, the rows that the scan path keeps.
pub proof fn lemma_index_path_matches_scan(
    db: Seq<u8>,
    ps: nat,
    root: nat,
    iroot: nat,
    pos: nat,
    pk: bool,
    lit: Seq<u8>,
    fuel: nat,
)
    requires
        table_ordered(db, ps, root, None, None, fuel),
        table_rows(db, ps, root, fuel) is Ok,
        rowids_unique(table_rows(db, ps, root, fuel).unwrap()),
        index_ordered(db, ps, iroot, None, None, fuel),
        index_matches(db, ps, iroot, lit, fuel) is Ok,
        names_rows(
            index_matches(db, ps, iroot, lit, fuel).unwrap(),
            keep_matching(table_rows(db, ps, root, fuel).unwrap(), pos, pk, lit),
        ),
        index_matches(db, ps, iroot, lit, fuel).unwrap().no_duplicates(),
    ensures
        index_rowids(db, ps, iroot, lit, fuel) is Ok,
        fetch_rows(db, ps, root, index_rowids(db, ps, iroot, lit, fuel).unwrap(), fuel) is Ok,
        forall|r: RowView|
            fetch_rows(db, ps, root, index_rowids(db, ps, iroot, lit, fuel).unwrap(), fuel).unwrap().contains(r)
                <==> keep_matching(table_rows(db, ps, root, fuel).unwrap(), pos, pk, lit).contains(r),
        fetch_rows(db, ps, root, index_rowids(db, ps, iroot, lit, fuel).unwrap(), fuel).unwrap().to_multiset()
            == keep_matching(table_rows(db, ps, root, fuel).unwrap(), pos, pk, lit).to_multiset(),
{
    lemma_index_search_exact(db, ps, iroot, None, None, lit, fuel);
    let ids = index_matches(db, ps, iroot, lit, fuel).unwrap();
    let rows = table_rows(db, ps, root, fuel).unwrap();
    let kept = keep_matching(rows, pos, pk, lit);
    // Each id names a kept row, which the descent finds.
    assert forall|i: int| 0 <= i < ids.len() implies row_by_rowid(db, ps, root, #[trigger] ids[i], fuel)
        == Ok::<_, DbError>(find_row(rows, ids[i]).unwrap()) && kept.contains(find_row(rows, ids[i]).unwrap()) by {
        assert(ids.contains(ids[i]));
        let k = choose|k: int| 0 <= k < kept.len() && (#[trigger] kept[k]).0 == ids[i];
        assert(kept.contains(kept[k]));
        lemma_keep_subset(rows, pos, pk, lit, kept[k]);
        let j = choose|j: int| 0 <= j < rows.len() && rows[j] == kept[k];
        assert(rows[j].0 == ids[i]);
        lemma_find_present(rows, ids[i]);
        lemma_descent_finds_scanned_row(db, ps, root, None, None, ids[i], fuel);
        let f = find_row(rows, ids[i]).unwrap();
        let m = choose|m: int| 0 <= m < rows.len() && rows[m] == f;
        if m != j {
            if m < j {
                assert(rows[m].0 != rows[j].0);
            } else {
                assert(rows[j].0 != rows[m].0);
            }
        }
    }
    lemma_fetch_all(db, ps, root, ids, fuel);
    let fetched = fetch_rows(db, ps, root, ids, fuel).unwrap();
    assert forall|r: RowView| fetched.contains(r) <==> kept.contains(r) by {
        if fetched.contains(r) {
            let i = choose|i: int| 0 <= i < fetched.len() && fetched[i] == r;
            assert(row_by_rowid(db, ps, root, ids[i], fuel) == Ok::<_, DbError>(find_row(rows, ids[i]).unwrap()));
        }
        if kept.contains(r) {
            lemma_keep_subset(rows, pos, pk, lit, r);
            let k = choose|k: int| 0 <= k < kept.len() && kept[k] == r;
            assert(kept[k].0 == r.0);
            assert(ids.contains(r.0));
            let i = choose|i: int| 0 <= i < ids.len() && ids[i] == r.0;
            assert(row_by_rowid(db, ps, root, ids[i], fuel) == Ok::<_, DbError>(find_row(rows, ids[i]).unwrap()));
            let f = fetched[i];
            assert(kept.contains(f));
            lemma_keep_subset(rows, pos, pk, lit, f);
            let a = choose|a: int| 0 <= a < rows.len() && rows[a] == f;
            let b = choose|b: int| 0 <= b < rows.len() && rows[b] == r;
            lemma_find_present(rows, ids[i]);
            if a != b {
                if a < b {
                    assert(rows[a].0 != rows[b].0);
                } else {
                    assert(rows[b].0 != rows[a].0);
                }
            }
            assert(fetched[i] == r);
        }
    }
    assert(rows.no_duplicates()) by {
        assert forall|i: int, j: int| 0 <= i < rows.len() && 0 <= j < rows.len() && i != j implies rows[i]
            != rows[j] by {
            if i < j {
                assert(rows[i].0 != rows[j].0);
            } else {
                assert(rows[j].0 != rows[i].0);
            }
        }
    }
    lemma_keep_no_duplicates(rows, pos, pk, lit);
    assert(fetched.no_duplicates()) by {
        assert forall|i: int, j: int| 0 <= i < fetched.len() && 0 <= j < fetched.len() && i != j implies fetched[i]
            != fetched[j] by {
            assert(row_by_rowid(db, ps, root, ids[i], fuel) == Ok::<_, DbError>(find_row(rows, ids[i]).unwrap()));
            assert(row_by_rowid(db, ps, root, ids[j], fuel) == Ok::<_, DbError>(find_row(rows, ids[j]).unwrap()));
            assert(ids.contains(ids[i]) && ids.contains(ids[j]));
            let k1 = choose|k: int| 0 <= k < kept.len() && (#[trigger] kept[k]).0 == ids[i];
            let k2 = choose|k: int| 0 <= k < kept.len() && (#[trigger] kept[k]).0 == ids[j];
            lemma_keep_subset(rows, pos, pk, lit, kept[k1]);
            lemma_keep_subset(rows, pos, pk, lit, kept[k2]);
            let a1 = choose|a: int| 0 <= a < rows.len() && rows[a] == kept[k1];
            let a2 = choose|a: int| 0 <= a < rows.len() && rows[a] == kept[k2];
            assert(rows[a1].0 == ids[i]);
            assert(rows[a2].0 == ids[j]);
            lemma_find_present(rows, ids[i]);
            lemma_find_present(rows, ids[j]);
        }
    }
    lemma_same_multiset(fetched, kept);
}

} // verus!
