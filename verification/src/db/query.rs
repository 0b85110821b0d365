use vstd::prelude::*;

verus! {

/// The views of the rows of a table, in table order.
pub open spec fn views<T: View>(rows: Seq<T>) -> Seq<T::V> {
    rows.map_values(|row: T| row@)
}

/// The view of what an optional value holds.
pub open spec fn inner_view<T: View>(value: Option<T>) -> Option<T::V> {
    match value {
        Some(inner) => Some(inner@),
        None => None,
    }
}

/// Index of the first wanted row at or after `from`.
pub open spec fn first_match_from<T>(rows: Seq<T>, wanted: spec_fn(T) -> bool, from: int) -> Option<int>
    decreases rows.len() - from,
{
    if from < 0 || from >= rows.len() {
        None
    } else if wanted(rows[from]) {
        Some(from)
    } else {
        first_match_from(rows, wanted, from + 1)
    }
}

/// Index of the first wanted row of the table.
pub open spec fn first_match<T>(rows: Seq<T>, wanted: spec_fn(T) -> bool) -> Option<int> {
    first_match_from(rows, wanted, 0)
}

/// Index of the last wanted row below `upto`.
pub open spec fn last_match_below<T>(rows: Seq<T>, wanted: spec_fn(T) -> bool, upto: int) -> Option<int>
    decreases upto,
{
    if upto <= 0 || upto > rows.len() {
        None
    } else if wanted(rows[upto - 1]) {
        Some(upto - 1)
    } else {
        last_match_below(rows, wanted, upto - 1)
    }
}

/// Index of the last wanted row of the table.
pub open spec fn last_match<T>(rows: Seq<T>, wanted: spec_fn(T) -> bool) -> Option<int> {
    last_match_below(rows, wanted, rows.len() as int)
}

/// Some row of the table is wanted.
pub open spec fn some_match<T>(rows: Seq<T>, wanted: spec_fn(T) -> bool) -> bool {
    exists|i: int| 0 <= i < rows.len() && wanted(#[trigger] rows[i])
}

/// What `first_match_from` returns is the least wanted index from `from` on.
pub proof fn lemma_first_match_from<T>(rows: Seq<T>, wanted: spec_fn(T) -> bool, from: int)
    requires
        0 <= from <= rows.len(),
    ensures
        match first_match_from(rows, wanted, from) {
            Some(i) => {
                &&& from <= i < rows.len()
                &&& wanted(rows[i])
                &&& forall|j: int| from <= j < i ==> !wanted(#[trigger] rows[j])
            },
            None => forall|j: int| from <= j < rows.len() ==> !wanted(#[trigger] rows[j]),
        },
    decreases rows.len() - from,
{
    if from < rows.len() && !wanted(rows[from]) {
        lemma_first_match_from(rows, wanted, from + 1);
    }
}

/// What `first_match` returns is the least wanted index.
pub proof fn lemma_first_match<T>(rows: Seq<T>, wanted: spec_fn(T) -> bool)
    ensures
        match first_match(rows, wanted) {
            Some(i) => {
                &&& 0 <= i < rows.len()
                &&& wanted(rows[i])
                &&& forall|j: int| 0 <= j < i ==> !wanted(#[trigger] rows[j])
            },
            None => forall|j: int| 0 <= j < rows.len() ==> !wanted(#[trigger] rows[j]),
        },
        first_match(rows, wanted).is_some() == some_match(rows, wanted),
{
    lemma_first_match_from(rows, wanted, 0);
}

/// What `last_match_below` returns is the greatest wanted index below `upto`.
pub proof fn lemma_last_match_below<T>(rows: Seq<T>, wanted: spec_fn(T) -> bool, upto: int)
    requires
        0 <= upto <= rows.len(),
    ensures
        match last_match_below(rows, wanted, upto) {
            Some(i) => {
                &&& 0 <= i < upto
                &&& wanted(rows[i])
                &&& forall|j: int| i < j < upto ==> !wanted(#[trigger] rows[j])
            },
            None => forall|j: int| 0 <= j < upto ==> !wanted(#[trigger] rows[j]),
        },
    decreases upto,
{
    if upto > 0 && !wanted(rows[upto - 1]) {
        lemma_last_match_below(rows, wanted, upto - 1);
    }
}

/// A row appended to a table is found first only where no earlier row is wanted.
pub proof fn lemma_first_match_push<T>(rows: Seq<T>, wanted: spec_fn(T) -> bool, row: T)
    ensures
        first_match(rows.push(row), wanted) == match first_match(rows, wanted) {
            Some(i) => Some(i),
            None => if wanted(row) {
                Some(rows.len() as int)
            } else {
                None
            },
        },
{
    lemma_first_match(rows, wanted);
    lemma_first_match(rows.push(row), wanted);
    let longer = rows.push(row);
    assert(forall|j: int| 0 <= j < rows.len() ==> longer[j] == rows[j]);
    match first_match(rows, wanted) {
        Some(i) => {
            assert(wanted(longer[i]));
            let k = first_match(longer, wanted).unwrap();
            if k < i {
                assert(!wanted(rows[k]));
            }
        },
        None => {
            if wanted(row) {
                assert(wanted(longer[rows.len() as int]));
                let k = first_match(longer, wanted).unwrap();
                if k < rows.len() {
                    assert(!wanted(rows[k]));
                }
            } else {
                if first_match(longer, wanted).is_some() {
                    let k = first_match(longer, wanted).unwrap();
                    if k < rows.len() {
                        assert(!wanted(rows[k]));
                    }
                }
            }
        },
    }
}

/// Every row of the table has the property.
pub open spec fn each<T>(rows: Seq<T>, holds: spec_fn(T) -> bool) -> bool {
    forall|i: int| 0 <= i < rows.len() ==> holds(#[trigger] rows[i])
}

/// Every row of the table stands in the relation to every later row.
pub open spec fn pairwise<T>(rows: Seq<T>, related: spec_fn(T, T) -> bool) -> bool {
    forall|i: int, j: int| 0 <= i < j < rows.len() ==> related(#[trigger] rows[i], #[trigger] rows[j])
}

/// The last wanted row of a table with a row appended is that row where it
/// is wanted, and the last wanted row of the table otherwise.
pub proof fn lemma_last_match_push<T>(rows: Seq<T>, wanted: spec_fn(T) -> bool, row: T)
    ensures
        last_match(rows.push(row), wanted) == if wanted(row) {
            Some(rows.len() as int)
        } else {
            last_match(rows, wanted)
        },
{
    let longer = rows.push(row);
    if !wanted(row) {
        lemma_last_match_same(rows, longer, wanted, rows.len() as int);
    }
}

/// Below a bound up to which two tables agree they have the same last wanted
/// row.
pub proof fn lemma_last_match_same<T>(a: Seq<T>, b: Seq<T>, wanted: spec_fn(T) -> bool, upto: int)
    requires
        0 <= upto <= a.len(),
        upto <= b.len(),
        forall|i: int| 0 <= i < upto ==> a[i] == b[i],
    ensures
        last_match_below(a, wanted, upto) == last_match_below(b, wanted, upto),
    decreases upto,
{
    if upto > 0 {
        lemma_last_match_same(a, b, wanted, upto - 1);
    }
}

/// A table with a row appended has a wanted row where the table has one or
/// the row is wanted.
pub proof fn lemma_some_match_push<T>(rows: Seq<T>, wanted: spec_fn(T) -> bool, row: T)
    ensures
        some_match(rows.push(row), wanted) == (some_match(rows, wanted) || wanted(row)),
{
    let longer = rows.push(row);
    if some_match(rows, wanted) {
        let i = choose|i: int| 0 <= i < rows.len() && wanted(#[trigger] rows[i]);
        assert(wanted(longer[i]));
    }
    if wanted(row) {
        assert(wanted(longer[rows.len() as int]));
    }
    if some_match(longer, wanted) {
        let i = choose|i: int| 0 <= i < longer.len() && wanted(#[trigger] longer[i]);
        if i < rows.len() {
            assert(wanted(rows[i]));
        }
    }
}

/// What filtering keeps: wanted rows of the table, and every one of them.
pub proof fn lemma_filter_members<T>(rows: Seq<T>, wanted: spec_fn(T) -> bool)
    ensures
        forall|k: int|
            0 <= k < rows.filter(wanted).len() ==> wanted(#[trigger] rows.filter(wanted)[k])
                && rows.contains(rows.filter(wanted)[k]),
        forall|i: int| 0 <= i < rows.len() && wanted(rows[i]) ==> rows.filter(wanted).contains(#[trigger] rows[i]),
        some_match(rows, wanted) == (rows.filter(wanted).len() > 0),
{
    let kept = rows.filter(wanted);
    assert forall|k: int| 0 <= k < kept.len() implies wanted(#[trigger] kept[k]) && rows.contains(
        kept[k],
    ) by {
        rows.lemma_filter_pred(wanted, k);
        assert(kept.contains(kept[k]));
        rows.lemma_filter_contains_rev(wanted, kept[k]);
    }
    assert forall|i: int| 0 <= i < rows.len() && wanted(rows[i]) implies kept.contains(
        #[trigger] rows[i],
    ) by {
        rows.lemma_filter_contains(wanted, i);
    }
    if some_match(rows, wanted) {
        let i = choose|i: int| 0 <= i < rows.len() && wanted(#[trigger] rows[i]);
        assert(kept.contains(rows[i]));
    }
    if kept.len() > 0 {
        assert(wanted(kept[0]) && rows.contains(kept[0]));
        let i = choose|i: int| 0 <= i < rows.len() && rows[i] == kept[0];
        assert(wanted(rows[i]));
    }
}

/// Two tests that agree on every row of a table keep the same rows.
pub proof fn lemma_filter_same<T>(rows: Seq<T>, one: spec_fn(T) -> bool, other: spec_fn(T) -> bool)
    requires
        forall|i: int| 0 <= i < rows.len() ==> one(#[trigger] rows[i]) == other(rows[i]),
    ensures
        rows.filter(one) == rows.filter(other),
    decreases rows.len(),
{
    reveal(Seq::filter);
    if rows.len() > 0 {
        let front = rows.drop_last();
        assert forall|i: int| 0 <= i < front.len() implies one(#[trigger] front[i]) == other(
            front[i],
        ) by {
            assert(front[i] == rows[i]);
        }
        lemma_filter_same(front, one, other);
        assert(one(rows[rows.len() - 1]) == other(rows[rows.len() - 1]));
    }
}

/// Filtering keeps a property that every row has.
pub proof fn lemma_filter_each<T>(rows: Seq<T>, wanted: spec_fn(T) -> bool, holds: spec_fn(T) -> bool)
    requires
        each(rows, holds),
    ensures
        each(rows.filter(wanted), holds),
{
    lemma_filter_members(rows, wanted);
    let kept = rows.filter(wanted);
    assert forall|k: int| 0 <= k < kept.len() implies holds(#[trigger] kept[k]) by {
        assert(rows.contains(kept[k]));
        let i = choose|i: int| 0 <= i < rows.len() && rows[i] == kept[k];
        assert(holds(rows[i]));
    }
}

/// Filtering keeps a relation in which every row stands to every later row.
pub proof fn lemma_filter_pairwise<T>(rows: Seq<T>, wanted: spec_fn(T) -> bool, related: spec_fn(T, T) -> bool)
    requires
        pairwise(rows, related),
    ensures
        pairwise(rows.filter(wanted), related),
    decreases rows.len(),
{
    reveal(Seq::filter);
    if rows.len() > 0 {
        let front = rows.drop_last();
        let last = rows.last();
        assert forall|i: int, j: int| 0 <= i < j < front.len() implies related(
            #[trigger] front[i],
            #[trigger] front[j],
        ) by {
            assert(front[i] == rows[i] && front[j] == rows[j]);
        }
        lemma_filter_pairwise(front, wanted, related);
        lemma_filter_members(front, wanted);
        let kept = front.filter(wanted);
        if wanted(last) {
            let all = kept.push(last);
            assert forall|i: int, j: int| 0 <= i < j < all.len() implies related(
                #[trigger] all[i],
                #[trigger] all[j],
            ) by {
                if j < kept.len() {
                    assert(related(kept[i], kept[j]));
                } else {
                    assert(front.contains(kept[i]));
                    let k = choose|k: int| 0 <= k < front.len() && front[k] == kept[i];
                    assert(related(rows[k], rows[rows.len() - 1]));
                }
            }
        }
    }
}

/// A test that at most one row of a table passes keeps at most one row.
pub proof fn lemma_filter_at_most_one<T>(rows: Seq<T>, wanted: spec_fn(T) -> bool)
    requires
        forall|i: int, j: int|
            0 <= i < j < rows.len() ==> !(wanted(#[trigger] rows[i]) && wanted(#[trigger] rows[j])),
    ensures
        rows.filter(wanted).len() <= 1,
    decreases rows.len(),
{
    reveal(Seq::filter);
    if rows.len() > 0 {
        let front = rows.drop_last();
        assert forall|i: int, j: int| 0 <= i < j < front.len() implies !(wanted(
            #[trigger] front[i],
        ) && wanted(#[trigger] front[j])) by {
            assert(front[i] == rows[i] && front[j] == rows[j]);
        }
        lemma_filter_at_most_one(front, wanted);
        if wanted(rows.last()) {
            lemma_filter_members(front, wanted);
            if some_match(front, wanted) {
                let i = choose|i: int| 0 <= i < front.len() && wanted(#[trigger] front[i]);
                assert(wanted(rows[i]) && wanted(rows[rows.len() - 1]));
            }
        }
    }
}

/// The rows that pass both tests.
pub open spec fn both<T>(one: spec_fn(T) -> bool, other: spec_fn(T) -> bool) -> spec_fn(T) -> bool {
    |row: T| one(row) && other(row)
}

/// Filtering twice keeps the rows that pass both tests.
pub proof fn lemma_filter_twice<T>(rows: Seq<T>, one: spec_fn(T) -> bool, other: spec_fn(T) -> bool)
    ensures
        rows.filter(one).filter(other) == rows.filter(both(one, other)),
    decreases rows.len(),
{
    reveal(Seq::filter);
    if rows.len() > 0 {
        let front = rows.drop_last();
        let last = rows.last();
        lemma_filter_twice(front, one, other);
        assert(front.push(last) =~= rows);
        front.lemma_filter_push(last, one);
        front.lemma_filter_push(last, both(one, other));
        if one(last) {
            front.filter(one).lemma_filter_push(last, other);
        }
    } else {
        assert(rows.filter(one) =~= rows);
    }
}

/// Where filtering keeps every wanted row, the first wanted row of what is
/// kept is the first wanted row of the table.
pub proof fn lemma_first_match_kept<T>(rows: Seq<T>, stays: spec_fn(T) -> bool, wanted: spec_fn(T) -> bool)
    requires
        forall|i: int| 0 <= i < rows.len() && wanted(#[trigger] rows[i]) ==> stays(rows[i]),
    ensures
        match first_match(rows, wanted) {
            Some(i) => first_match(rows.filter(stays), wanted) matches Some(k) && rows.filter(
                stays,
            )[k] == rows[i],
            None => first_match(rows.filter(stays), wanted).is_none(),
        },
    decreases rows.len(),
{
    reveal(Seq::filter);
    if rows.len() > 0 {
        let front = rows.drop_last();
        let last = rows.last();
        assert forall|i: int| 0 <= i < front.len() && wanted(#[trigger] front[i]) implies stays(
            front[i],
        ) by {
            assert(front[i] == rows[i]);
        }
        lemma_first_match_kept(front, stays, wanted);
        assert(front.push(last) =~= rows);
        lemma_first_match_push(front, wanted, last);
        front.lemma_filter_push(last, stays);
        lemma_first_match(front, wanted);
        lemma_first_match(front.filter(stays), wanted);
        if stays(last) {
            lemma_first_match_push(front.filter(stays), wanted, last);
        } else {
            assert(!wanted(rows[rows.len() - 1]));
        }
    } else {
        assert(rows.filter(stays) =~= rows);
    }
}

} // verus!
