//! Facts about selections from sequences: what a selection keeps, and what
//! it leaves as it was.

use vstd::prelude::*;

verus! {

/// Every row that a selection keeps is a row of the table and meets the
/// condition, and every row of the table that meets it is kept.
pub proof fn lemma_filter_rows<T>(rows: Seq<T>, wanted: spec_fn(T) -> bool)
    ensures
        forall|i: int|
            0 <= i < rows.filter(wanted).len() ==> wanted(#[trigger] rows.filter(wanted)[i])
                && rows.contains(rows.filter(wanted)[i]),
        forall|i: int|
            0 <= i < rows.len() && wanted(#[trigger] rows[i]) ==> rows.filter(wanted).contains(
                rows[i],
            ),
    decreases rows.len(),
{
    reveal(Seq::filter);
    if rows.len() > 0 {
        let front = rows.drop_last();
        let last = rows.last();
        lemma_filter_rows(front, wanted);
        let kept = rows.filter(wanted);
        assert forall|i: int| 0 <= i < kept.len() implies wanted(#[trigger] kept[i])
            && rows.contains(kept[i]) by {
            if i < front.filter(wanted).len() {
                let j = choose|j: int| 0 <= j < front.len() && front[j] == front.filter(wanted)[i];
                assert(rows[j] == kept[i]);
            } else {
                assert(rows[rows.len() - 1] == kept[i]);
            }
        }
        assert forall|i: int| 0 <= i < rows.len() && wanted(#[trigger] rows[i]) implies kept.contains(
            rows[i],
        ) by {
            if i < front.len() {
                assert(front[i] == rows[i]);
                let j = choose|j: int|
                    0 <= j < front.filter(wanted).len() && front.filter(wanted)[j] == front[i];
                assert(kept[j] == rows[i]);
            } else {
                assert(kept[kept.len() - 1] == rows[i]);
            }
        }
    }
}

/// Two rows of a selection stand in the table in the same order: where the
/// rows of a table differ pairwise in some respect, so do the rows kept.
pub proof fn lemma_filter_keeps_apart<T>(
    rows: Seq<T>,
    wanted: spec_fn(T) -> bool,
    apart: spec_fn(T, T) -> bool,
)
    requires
        forall|i: int, j: int|
            0 <= i < j < rows.len() ==> apart(#[trigger] rows[i], #[trigger] rows[j]),
    ensures
        forall|i: int, j: int|
            0 <= i < j < rows.filter(wanted).len() ==> apart(
                #[trigger] rows.filter(wanted)[i],
                #[trigger] rows.filter(wanted)[j],
            ),
    decreases rows.len(),
{
    reveal(Seq::filter);
    if rows.len() > 0 {
        let front = rows.drop_last();
        let last = rows.last();
        assert forall|i: int, j: int| 0 <= i < j < front.len() implies apart(
            #[trigger] front[i],
            #[trigger] front[j],
        ) by {
            assert(front[i] == rows[i] && front[j] == rows[j]);
        }
        lemma_filter_keeps_apart(front, wanted, apart);
        lemma_filter_rows(front, wanted);
        let kept = rows.filter(wanted);
        assert forall|i: int, j: int| 0 <= i < j < kept.len() implies apart(
            #[trigger] kept[i],
            #[trigger] kept[j],
        ) by {
            if j < front.filter(wanted).len() {
                assert(kept[i] == front.filter(wanted)[i]);
                assert(kept[j] == front.filter(wanted)[j]);
            } else {
                assert(kept[i] == front.filter(wanted)[i]);
                let a = choose|a: int| 0 <= a < front.len() && front[a] == front.filter(wanted)[i];
                assert(rows[a] == kept[i]);
                assert(rows[rows.len() - 1] == kept[j]);
            }
        }
    }
}

/// A selection that every row meets keeps the table as it is.
pub proof fn lemma_filter_all<T>(rows: Seq<T>, wanted: spec_fn(T) -> bool)
    requires
        forall|i: int| 0 <= i < rows.len() ==> wanted(#[trigger] rows[i]),
    ensures
        rows.filter(wanted) == rows,
    decreases rows.len(),
{
    reveal(Seq::filter);
    if rows.len() > 0 {
        let front = rows.drop_last();
        assert forall|i: int| 0 <= i < front.len() implies wanted(#[trigger] front[i]) by {
            assert(front[i] == rows[i]);
        }
        lemma_filter_all(front, wanted);
        assert(front.push(rows.last()) =~= rows);
    } else {
        assert(rows.filter(wanted) =~= rows);
    }
}

/// A selection that some row does not meet keeps fewer rows than the table
/// has.
pub proof fn lemma_filter_some<T>(rows: Seq<T>, wanted: spec_fn(T) -> bool, k: int)
    requires
        0 <= k < rows.len(),
        !wanted(rows[k]),
    ensures
        rows.filter(wanted).len() < rows.len(),
    decreases rows.len(),
{
    reveal(Seq::filter);
    let front = rows.drop_last();
    front.lemma_filter_len(wanted);
    if k < rows.len() - 1 {
        assert(front[k] == rows[k]);
        lemma_filter_some(front, wanted, k);
    }
}

/// Selecting from a selection, by the same condition, changes nothing.
pub proof fn lemma_filter_twice<T>(rows: Seq<T>, wanted: spec_fn(T) -> bool)
    ensures
        rows.filter(wanted).filter(wanted) == rows.filter(wanted),
{
    lemma_filter_rows(rows, wanted);
    lemma_filter_all(rows.filter(wanted), wanted);
}

/// Rows appended to a table that all fail a condition change nothing in
/// what the condition selects.
pub proof fn lemma_filter_appended<T>(start: Seq<T>, whole: Seq<T>, wanted: spec_fn(T) -> bool)
    requires
        start.len() <= whole.len(),
        forall|i: int| 0 <= i < start.len() ==> #[trigger] whole[i] == start[i],
        forall|i: int| start.len() <= i < whole.len() ==> !wanted(#[trigger] whole[i]),
    ensures
        whole.filter(wanted) == start.filter(wanted),
    decreases whole.len(),
{
    reveal(Seq::filter);
    if whole.len() == start.len() {
        assert(whole =~= start);
    } else {
        let front = whole.drop_last();
        assert forall|i: int| 0 <= i < start.len() implies #[trigger] front[i] == start[i] by {
            assert(front[i] == whole[i]);
        }
        assert forall|i: int| start.len() <= i < front.len() implies !wanted(
            #[trigger] front[i],
        ) by {
            assert(front[i] == whole[i]);
        }
        lemma_filter_appended(start, front, wanted);
        assert(!wanted(whole[whole.len() - 1]));
    }
}

/// A selection that all values but one meet drops that value.
pub proof fn lemma_filter_drops_one<T>(rows: Seq<T>, wanted: spec_fn(T) -> bool, k: int)
    requires
        0 <= k < rows.len(),
        !wanted(rows[k]),
        forall|i: int| 0 <= i < rows.len() && i != k ==> wanted(#[trigger] rows[i]),
    ensures
        rows.filter(wanted) == rows.remove(k),
    decreases rows.len(),
{
    reveal(Seq::filter);
    let front = rows.drop_last();
    if k == rows.len() - 1 {
        assert forall|i: int| 0 <= i < front.len() implies wanted(#[trigger] front[i]) by {
            assert(front[i] == rows[i]);
        }
        lemma_filter_all(front, wanted);
        assert(front =~= rows.remove(k));
    } else {
        assert(front[k] == rows[k]);
        assert forall|i: int| 0 <= i < front.len() && i != k implies wanted(
            #[trigger] front[i],
        ) by {
            assert(front[i] == rows[i]);
        }
        lemma_filter_drops_one(front, wanted, k);
        assert(wanted(rows[rows.len() - 1]));
        assert(front.remove(k).push(rows.last()) =~= rows.remove(k));
    }
}

/// Selecting from a selection selects by both conditions.
pub proof fn lemma_filter_filter<T>(
    rows: Seq<T>,
    first: spec_fn(T) -> bool,
    second: spec_fn(T) -> bool,
    both: spec_fn(T) -> bool,
)
    requires
        forall|row: T| #[trigger] both(row) == (first(row) && second(row)),
    ensures
        rows.filter(first).filter(second) == rows.filter(both),
    decreases rows.len(),
{
    reveal(Seq::filter);
    if rows.len() > 0 {
        let front = rows.drop_last();
        lemma_filter_filter(front, first, second, both);
        if first(rows.last()) {
            front.filter(first).lemma_filter_push(rows.last(), second);
        }
    } else {
        assert(rows.filter(first) =~= rows);
    }
}

/// A selection from a sequence without repetition is without repetition.
pub proof fn lemma_filter_no_duplicates<T>(rows: Seq<T>, wanted: spec_fn(T) -> bool)
    requires
        rows.no_duplicates(),
    ensures
        rows.filter(wanted).no_duplicates(),
{
    lemma_filter_keeps_apart(rows, wanted, |a: T, b: T| a != b);
}

} // verus!
