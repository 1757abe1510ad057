//! Tables as lists of rows: finding, removing, counting and ordering rows, and
//! what each of these keeps.
use vstd::prelude::*;

use crate::text::{less, less_is_total, less_is_transitive, opt_view, str_eq, text_less};

verus! {

/// Whether no two rows share a key.
pub open spec fn unique<T>(rows: Seq<T>, key: spec_fn(T) -> Seq<char>) -> bool {
    forall|i: int, j: int|
        0 <= i < j < rows.len() ==> key(#[trigger] rows[i]) != key(#[trigger] rows[j])
}

/// Whether each row of `b` stands in the relation to the row of `a` in its place.
pub open spec fn changed<T>(a: Seq<T>, b: Seq<T>, rel: spec_fn(T, T) -> bool) -> bool {
    a.len() == b.len() && forall|i: int| 0 <= i < a.len() ==> rel(a[i], #[trigger] b[i])
}

/// The number of rows that the condition holds of.
pub open spec fn count<T>(rows: Seq<T>, p: spec_fn(T) -> bool) -> nat {
    rows.filter(p).len()
}

/// The first row that the condition holds of.
pub open spec fn first<T>(rows: Seq<T>, p: spec_fn(T) -> bool) -> Option<T>
    decreases rows.len(),
{
    if rows.len() == 0 {
        None
    } else if p(rows[0]) {
        Some(rows[0])
    } else {
        first(rows.skip(1), p)
    }
}

/// How many of the `n` places come before the first one that the condition fails at:
/// all of them where it fails at none.
pub open spec fn lead(n: nat, p: spec_fn(int) -> bool) -> nat
    decreases n,
{
    if n == 0 {
        0
    } else {
        let before = lead((n - 1) as nat, p);
        if before == n - 1 && p(n - 1) {
            n
        } else {
            before
        }
    }
}

/// The places before the first one that the condition fails at are those before
/// which it holds throughout.
pub proof fn lemma_lead(n: nat, p: spec_fn(int) -> bool, i: nat)
    requires
        i <= n,
        forall|j: int| 0 <= j < i ==> #[trigger] p(j),
        i < n ==> !p(i as int),
    ensures
        lead(n, p) == i,
    decreases n,
{
    if n > 0 {
        if i == n {
            lemma_lead((n - 1) as nat, p, (n - 1) as nat);
        } else {
            lemma_lead((n - 1) as nat, p, i);
        }
    }
}

/// The first row that the condition holds of is the one before which it holds
/// of none.
pub proof fn lemma_first<T>(rows: Seq<T>, p: spec_fn(T) -> bool, i: int)
    requires
        0 <= i < rows.len(),
        p(rows[i]),
        forall|j: int| 0 <= j < i ==> !p(#[trigger] rows[j]),
    ensures
        first(rows, p) == Some(rows[i]),
    decreases i,
{
    if i > 0 {
        assert(!p(rows[0]));
        assert forall|j: int| 0 <= j < i - 1 implies !p(#[trigger] rows.skip(1)[j]) by {
            assert(rows.skip(1)[j] == rows[j + 1]);
        }
        lemma_first(rows.skip(1), p, i - 1);
    }
}

/// Where the condition holds of no row there is no first one.
pub proof fn lemma_first_none<T>(rows: Seq<T>, p: spec_fn(T) -> bool)
    requires
        forall|j: int| 0 <= j < rows.len() ==> !p(#[trigger] rows[j]),
    ensures
        first(rows, p) is None,
    decreases rows.len(),
{
    if rows.len() > 0 {
        assert(!p(rows[0]));
        assert forall|j: int| 0 <= j < rows.skip(1).len() implies !p(
            #[trigger] rows.skip(1)[j],
        ) by {
            assert(rows.skip(1)[j] == rows[j + 1]);
        }
        lemma_first_none(rows.skip(1), p);
    }
}

/// The first row that the condition holds of is a row that it holds of; there
/// is none only where it holds of none.
pub proof fn lemma_first_holds<T>(rows: Seq<T>, p: spec_fn(T) -> bool)
    ensures
        match first(rows, p) {
            Some(row) => p(row) && exists|i: int| 0 <= i < rows.len() && #[trigger] rows[i] == row,
            None => forall|j: int| 0 <= j < rows.len() ==> !p(#[trigger] rows[j]),
        },
    decreases rows.len(),
{
    if rows.len() > 0 {
        if p(rows[0]) {
        } else {
            lemma_first_holds(rows.skip(1), p);
            match first(rows.skip(1), p) {
                Some(row) => {
                    let i = choose|i: int|
                        0 <= i < rows.skip(1).len() && #[trigger] rows.skip(1)[i] == row;
                    assert(rows[i + 1] == row);
                },
                None => {
                    assert forall|j: int| 0 <= j < rows.len() implies !p(#[trigger] rows[j]) by {
                        if j > 0 {
                            assert(!p(rows.skip(1)[j - 1]));
                        }
                    }
                },
            }
        }
    }
}

/// Rows that are kept have distinct keys where all had.
pub proof fn lemma_filter_unique<T>(
    rows: Seq<T>,
    key: spec_fn(T) -> Seq<char>,
    p: spec_fn(T) -> bool,
)
    requires
        unique(rows, key),
    ensures
        unique(rows.filter(p), key),
    decreases rows.len(),
{
    reveal(Seq::filter);
    if rows.len() > 0 {
        let init = rows.drop_last();
        lemma_filter_unique(init, key, p);
        let kept = init.filter(p);
        assert forall|i: int| 0 <= i < kept.len() implies key(#[trigger] kept[i]) != key(
            rows.last(),
        ) by {
            assert(kept.contains(kept[i]));
            init.lemma_filter_contains_rev(p, kept[i]);
            let k = choose|k: int| 0 <= k < init.len() && init[k] == kept[i];
            assert(key(rows[k]) != key(rows[rows.len() - 1]));
        }
    }
}

/// What holds of each two rows, in their order, holds of each two that are kept.
pub proof fn lemma_filter_pairs<T>(
    rows: Seq<T>,
    p: spec_fn(T) -> bool,
    rel: spec_fn(T, T) -> bool,
)
    requires
        forall|i: int, j: int|
            0 <= i < j < rows.len() ==> rel(#[trigger] rows[i], #[trigger] rows[j]),
    ensures
        forall|i: int, j: int|
            0 <= i < j < rows.filter(p).len() ==> rel(
                #[trigger] rows.filter(p)[i],
                #[trigger] rows.filter(p)[j],
            ),
    decreases rows.len(),
{
    reveal(Seq::filter);
    if rows.len() > 0 {
        let init = rows.drop_last();
        lemma_filter_pairs(init, p, rel);
        let kept = init.filter(p);
        assert forall|i: int| 0 <= i < kept.len() implies rel(#[trigger] kept[i], rows.last()) by {
            assert(kept.contains(kept[i]));
            init.lemma_filter_contains_rev(p, kept[i]);
            let k = choose|k: int| 0 <= k < init.len() && init[k] == kept[i];
            assert(rel(rows[k], rows[rows.len() - 1]));
        }
    }
}

/// What holds of each row holds of each that is kept.
pub proof fn lemma_filter_all<T>(rows: Seq<T>, p: spec_fn(T) -> bool, q: spec_fn(T) -> bool)
    requires
        forall|i: int| 0 <= i < rows.len() ==> q(#[trigger] rows[i]),
    ensures
        forall|i: int|
            0 <= i < rows.filter(p).len() ==> q(#[trigger] rows.filter(p)[i]) && p(
                rows.filter(p)[i],
            ),
{
    let kept = rows.filter(p);
    assert forall|i: int| 0 <= i < kept.len() implies q(#[trigger] kept[i]) && p(kept[i]) by {
        assert(kept.contains(kept[i]));
        rows.lemma_filter_contains_rev(p, kept[i]);
        rows.lemma_filter_pred(p, i);
    }
}

/// A row that the condition holds of is kept.
pub proof fn lemma_filter_keeps<T>(rows: Seq<T>, p: spec_fn(T) -> bool, i: int)
    requires
        0 <= i < rows.len(),
        p(rows[i]),
    ensures
        rows.filter(p).contains(rows[i]),
{
    rows.lemma_filter_contains(p, i);
}

/// One more row: it is kept where the condition holds of it.
pub proof fn lemma_filter_push<T>(rows: Seq<T>, row: T, p: spec_fn(T) -> bool)
    ensures
        rows.push(row).filter(p) == (if p(row) {
            rows.filter(p).push(row)
        } else {
            rows.filter(p)
        }),
{
    reveal(Seq::filter);
    assert(rows.push(row).drop_last() =~= rows);
}

proof fn lemma_filter_take<T>(rows: Seq<T>, p: spec_fn(T) -> bool, i: int)
    requires
        0 <= i < rows.len(),
    ensures
        rows.take(i + 1).filter(p) == (if p(rows[i]) {
            rows.take(i).filter(p).push(rows[i])
        } else {
            rows.take(i).filter(p)
        }),
{
    assert(rows.take(i + 1) =~= rows.take(i).push(rows[i]));
    lemma_filter_push(rows.take(i), rows[i], p);
}

/// The rows before the last one that is known to be kept are no fewer.
pub proof fn lemma_count_bound<T>(rows: Seq<T>, p: spec_fn(T) -> bool)
    ensures
        count(rows, p) <= rows.len(),
    decreases rows.len(),
{
    reveal(Seq::filter);
    if rows.len() > 0 {
        lemma_count_bound(rows.drop_last(), p);
    }
}

/// Where rows change and the condition never starts to hold, the count does
/// not grow.
pub proof fn lemma_count_shrinks<T>(a: Seq<T>, b: Seq<T>, p: spec_fn(T) -> bool)
    requires
        a.len() == b.len(),
        forall|i: int| 0 <= i < a.len() && p(#[trigger] b[i]) ==> p(a[i]),
    ensures
        count(b, p) <= count(a, p),
    decreases a.len(),
{
    reveal(Seq::filter);
    if a.len() > 0 {
        lemma_count_shrinks(a.drop_last(), b.drop_last(), p);
        assert(p(b[b.len() - 1]) ==> p(a[b.len() - 1]));
    }
}

/// Rows for which the condition holds at the same places are as many.
pub proof fn lemma_count_same<T>(a: Seq<T>, b: Seq<T>, p: spec_fn(T) -> bool)
    requires
        a.len() == b.len(),
        forall|i: int| 0 <= i < a.len() ==> p(#[trigger] b[i]) == p(a[i]),
    ensures
        count(b, p) == count(a, p),
{
    lemma_count_shrinks(a, b, p);
    assert forall|i: int| 0 <= i < b.len() && p(#[trigger] a[i]) implies p(b[i]) by {
        assert(p(b[i]) == p(a[i]));
    }
    lemma_count_shrinks(b, a, p);
}

/// Where one row stops to meet the condition and no other changes, the count
/// falls by one.
pub proof fn lemma_count_drops<T>(rows: Seq<T>, i: int, row: T, p: spec_fn(T) -> bool)
    requires
        0 <= i < rows.len(),
        p(rows[i]),
        !p(row),
    ensures
        count(rows.update(i, row), p) == count(rows, p) - 1,
    decreases rows.len(),
{
    reveal(Seq::filter);
    let new = rows.update(i, row);
    if i == rows.len() - 1 {
        assert(new.drop_last() =~= rows.drop_last());
    } else {
        assert(new.drop_last() =~= rows.drop_last().update(i, row));
        lemma_count_drops(rows.drop_last(), i, row, p);
    }
}

/// Rows that are removed do not make the count grow.
pub proof fn lemma_count_filter<T>(rows: Seq<T>, keep: spec_fn(T) -> bool, p: spec_fn(T) -> bool)
    ensures
        count(rows.filter(keep), p) <= count(rows, p),
    decreases rows.len(),
{
    reveal(Seq::filter);
    if rows.len() > 0 {
        let init = rows.drop_last();
        lemma_count_filter(init, keep, p);
        lemma_filter_push(init.filter(keep), rows.last(), p);
    }
}

/// The first row that the condition holds of.
pub(crate) fn find<T, F: Fn(&T) -> bool>(rows: &Vec<T>, f: F, Ghost(p): Ghost<spec_fn(T) -> bool>) -> (r:
    Option<usize>)
    requires
        forall|t: &T| #[trigger] call_requires(f, (t,)),
        forall|t: &T, b: bool| call_ensures(f, (t,), b) ==> b == p(*t),
    ensures
        match r {
            Some(i) => i < rows@.len() && p(rows@[i as int]) && first(rows@, p) == Some(
                rows@[i as int],
            ) && forall|j: int| 0 <= j < i ==> !p(#[trigger] rows@[j]),
            None => first(rows@, p) is None && forall|j: int|
                0 <= j < rows@.len() ==> !p(#[trigger] rows@[j]),
        },
{
    let mut i: usize = 0;
    while i < rows.len()
        invariant
            i <= rows@.len(),
            forall|t: &T| #[trigger] call_requires(f, (t,)),
            forall|t: &T, b: bool| call_ensures(f, (t,), b) ==> b == p(*t),
            forall|j: int| 0 <= j < i ==> !p(#[trigger] rows@[j]),
        decreases rows@.len() - i,
    {
        if f(&rows[i]) {
            proof {
                lemma_first(rows@, p, i as int);
            }
            return Some(i);
        }
        i += 1;
    }
    proof {
        lemma_first_none(rows@, p);
    }
    None
}

/// Removes the rows that the condition does not hold of.
pub(crate) fn retain<T, F: Fn(&T) -> bool>(rows: &mut Vec<T>, f: F, Ghost(p): Ghost<spec_fn(T) -> bool>)
    requires
        forall|t: &T| #[trigger] call_requires(f, (t,)),
        forall|t: &T, b: bool| call_ensures(f, (t,), b) ==> b == p(*t),
    ensures
        final(rows)@ == old(rows)@.filter(p),
{
    let ghost all = rows@;
    let ghost mut k: int = 0;
    let mut i: usize = 0;
    proof {
        reveal(Seq::filter);
        assert(all.take(0).filter(p) + all.skip(0) =~= all);
    }
    while i < rows.len()
        invariant
            0 <= k <= all.len(),
            forall|t: &T| #[trigger] call_requires(f, (t,)),
            forall|t: &T, b: bool| call_ensures(f, (t,), b) ==> b == p(*t),
            i == all.take(k).filter(p).len(),
            rows@ == all.take(k).filter(p) + all.skip(k),
        decreases all.len() - k,
    {
        proof {
            assert(rows@.len() == i + (all.len() - k));
            assert(rows@[i as int] == all[k]);
            lemma_filter_take(all, p, k);
        }
        if f(&rows[i]) {
            i += 1;
            proof {
                assert(all.take(k).filter(p).push(all[k]) + all.skip(k + 1) =~= rows@);
            }
        } else {
            let ghost before = rows@;
            let _ = rows.remove(i);
            proof {
                assert(rows@ =~= all.take(k).filter(p) + all.skip(k + 1));
            }
        }
        proof {
            k = k + 1;
        }
    }
    proof {
        assert(k == all.len());
        assert(all.take(k) =~= all);
        assert(all.skip(k) =~= Seq::<T>::empty());
        assert(all.filter(p) + Seq::<T>::empty() =~= all.filter(p));
    }
}

/// How many rows the condition holds of.
pub(crate) fn count_rows<T, F: Fn(&T) -> bool>(
    rows: &Vec<T>,
    f: F,
    Ghost(p): Ghost<spec_fn(T) -> bool>,
) -> (r: usize)
    requires
        forall|t: &T| #[trigger] call_requires(f, (t,)),
        forall|t: &T, b: bool| call_ensures(f, (t,), b) ==> b == p(*t),
    ensures
        r == count(rows@, p),
{
    let mut n: usize = 0;
    let mut i: usize = 0;
    proof {
        reveal(Seq::filter);
    }
    assert(rows@.take(0).filter(p).len() == 0);
    while i < rows.len()
        invariant
            i <= rows@.len(),
            forall|t: &T| #[trigger] call_requires(f, (t,)),
            forall|t: &T, b: bool| call_ensures(f, (t,), b) ==> b == p(*t),
            n == rows@.take(i as int).filter(p).len(),
            n <= i,
        decreases rows@.len() - i,
    {
        proof {
            lemma_filter_take(rows@, p, i as int);
        }
        if f(&rows[i]) {
            n += 1;
        }
        i += 1;
    }
    assert(rows@.take(i as int) =~= rows@);
    n
}

/// Whether the optional text is that text.
pub fn opt_is(value: &Option<String>, text: &str) -> (r: bool)
    ensures
        r == (opt_view(*value) == Some(text@)),
{
    match value {
        Some(s) => str_eq(s.as_str(), text),
        None => false,
    }
}

/// Whether both optional texts are equal.
pub fn opt_eq(a: &Option<String>, b: &Option<String>) -> (r: bool)
    ensures
        r == (opt_view(*a) == opt_view(*b)),
{
    match a {
        Some(s) => opt_is(b, s.as_str()),
        None => b.is_none(),
    }
}

// ---------------------------------------------------------------------------
// Order

/// What rows are ordered by: two numbers, then a text.
pub struct SortKey {
    pub first: i128,
    pub second: i128,
    pub text: String,
}

impl View for SortKey {
    type V = (int, int, Seq<char>);

    open spec fn view(&self) -> (int, int, Seq<char>) {
        (self.first as int, self.second as int, self.text@)
    }
}

/// Whether `a` comes strictly before `b`; `down` lets greater texts come first.
pub open spec fn precedes(a: (int, int, Seq<char>), b: (int, int, Seq<char>), down: bool) -> bool {
    a.0 < b.0 || (a.0 == b.0 && (a.1 < b.1 || (a.1 == b.1 && (if down {
        less(b.2, a.2)
    } else {
        less(a.2, b.2)
    }))))
}

/// Whether the positions are those of the rows that the condition holds of,
/// each once, in the order of their keys.
pub open spec fn is_selection<T>(
    rows: Seq<T>,
    p: spec_fn(T) -> bool,
    key: spec_fn(T) -> (int, int, Seq<char>),
    down: bool,
    picks: Seq<usize>,
) -> bool {
    &&& picks.no_duplicates()
    &&& forall|k: int|
        0 <= k < picks.len() ==> (#[trigger] picks[k]) < rows.len() && p(rows[picks[k] as int])
    &&& forall|i: int|
        0 <= i < rows.len() && p(#[trigger] rows[i]) ==> exists|k: int|
            0 <= k < picks.len() && #[trigger] picks[k] == i
    &&& forall|k: int, l: int|
        0 <= k < l < picks.len() ==> !precedes(
            key(rows[(#[trigger] picks[l]) as int]),
            key(rows[(#[trigger] picks[k]) as int]),
            down,
        )
}

fn key_before(a: &SortKey, b: &SortKey, down: bool) -> (r: bool)
    ensures
        r == precedes(a@, b@, down),
{
    if a.first != b.first {
        return a.first < b.first;
    }
    if a.second != b.second {
        return a.second < b.second;
    }
    if down {
        text_less(b.text.as_str(), a.text.as_str())
    } else {
        text_less(a.text.as_str(), b.text.as_str())
    }
}

proof fn lemma_not_before_transitive(
    a: (int, int, Seq<char>),
    b: (int, int, Seq<char>),
    c: (int, int, Seq<char>),
    down: bool,
)
    requires
        !precedes(b, a, down),
        !precedes(c, b, down),
    ensures
        !precedes(c, a, down),
{
    less_is_total(a.2, b.2);
    less_is_total(b.2, c.2);
    less_is_total(a.2, c.2);
    if less(a.2, b.2) && less(b.2, c.2) {
        less_is_transitive(a.2, b.2, c.2);
    }
    if less(c.2, b.2) && less(b.2, a.2) {
        less_is_transitive(c.2, b.2, a.2);
    }
}

proof fn lemma_before_asymmetric(
    a: (int, int, Seq<char>),
    b: (int, int, Seq<char>),
    down: bool,
)
    requires
        precedes(a, b, down),
    ensures
        !precedes(b, a, down),
{
    less_is_total(a.2, b.2);
}

proof fn lemma_insert_pick<T>(
    rows: Seq<T>,
    p: spec_fn(T) -> bool,
    key: spec_fn(T) -> (int, int, Seq<char>),
    down: bool,
    i: usize,
    picks: Seq<usize>,
    at: int,
)
    requires
        i < rows.len(),
        p(rows[i as int]),
        0 <= at <= picks.len(),
        is_selection(rows.take(i as int), p, key, down, picks),
        forall|a: int|
            at <= a < picks.len() ==> precedes(
                key(rows[i as int]),
                key(rows[(#[trigger] picks[a]) as int]),
                down,
            ),
        at > 0 ==> !precedes(key(rows[i as int]), key(rows[picks[at - 1] as int]), down),
    ensures
        is_selection(rows.take(i + 1), p, key, down, picks.insert(at, i)),
{
    let old_rows = rows.take(i as int);
    let new_rows = rows.take(i + 1);
    let new = picks.insert(at, i);
    assert forall|k: int| 0 <= k < new.len() implies (#[trigger] new[k]) < new_rows.len() && p(
        new_rows[new[k] as int],
    ) by {
        if k < at {
            assert(new[k] == picks[k]);
            assert(old_rows[picks[k] as int] == new_rows[picks[k] as int]);
        } else if k > at {
            assert(new[k] == picks[k - 1]);
            assert(old_rows[picks[k - 1] as int] == new_rows[picks[k - 1] as int]);
        }
    }
    assert forall|a: int, b: int| 0 <= a < new.len() && 0 <= b < new.len() && a != b implies new[a]
        != new[b] by {
        let x = if a > at {
            a - 1
        } else {
            a
        };
        let y = if b > at {
            b - 1
        } else {
            b
        };
        if a == at {
            assert(new[b] == picks[y]);
        } else if b == at {
            assert(new[a] == picks[x]);
        } else {
            assert(new[a] == picks[x]);
            assert(new[b] == picks[y]);
        }
    }
    assert forall|j: int| 0 <= j < new_rows.len() && p(#[trigger] new_rows[j]) implies exists|
        k: int,
    | 0 <= k < new.len() && #[trigger] new[k] == j by {
        if j == i {
            assert(new[at] == i);
        } else {
            assert(old_rows[j] == new_rows[j]);
            let k = choose|k: int| 0 <= k < picks.len() && #[trigger] picks[k] == j;
            if k < at {
                assert(new[k] == j);
            } else {
                assert(new[k + 1] == j);
            }
        }
    }
    assert forall|a: int, b: int| 0 <= a < b < new.len() implies !precedes(
        key(new_rows[(#[trigger] new[b]) as int]),
        key(new_rows[(#[trigger] new[a]) as int]),
        down,
    ) by {
        let x = if a > at {
            a - 1
        } else {
            a
        };
        let y = if b > at {
            b - 1
        } else {
            b
        };
        if a != at {
            assert(new[a] == picks[x]);
            assert(old_rows[picks[x] as int] == new_rows[picks[x] as int]);
        }
        if b != at {
            assert(new[b] == picks[y]);
            assert(old_rows[picks[y] as int] == new_rows[picks[y] as int]);
        }
        if a == at {
            lemma_before_asymmetric(key(rows[i as int]), key(rows[picks[y] as int]), down);
        } else if b == at && a < at - 1 {
            let m = picks[at - 1];
            assert(old_rows[m as int] == rows[m as int]);
            lemma_not_before_transitive(
                key(rows[picks[a] as int]),
                key(rows[m as int]),
                key(rows[i as int]),
                down,
            );
        }
    }
}

/// The positions of the rows that the condition holds of, in the order of
/// their keys; rows with equal keys keep their places.
pub(crate) fn select<T, F: Fn(&T) -> bool, K: Fn(&T) -> SortKey>(
    rows: &Vec<T>,
    f: F,
    k: K,
    down: bool,
    Ghost(p): Ghost<spec_fn(T) -> bool>,
    Ghost(key): Ghost<spec_fn(T) -> (int, int, Seq<char>)>,
) -> (r: Vec<usize>)
    requires
        forall|t: &T| #[trigger] call_requires(f, (t,)),
        forall|t: &T, b: bool| call_ensures(f, (t,), b) ==> b == p(*t),
        forall|t: &T| #[trigger] call_requires(k, (t,)),
        forall|t: &T, s: SortKey| call_ensures(k, (t,), s) ==> s@ == key(*t),
    ensures
        is_selection(rows@, p, key, down, r@),
{
    let mut r: Vec<usize> = Vec::new();
    let mut keys: Vec<SortKey> = Vec::new();
    let mut i: usize = 0;
    while i < rows.len()
        invariant
            i <= rows@.len(),
            forall|t: &T| #[trigger] call_requires(f, (t,)),
            forall|t: &T, b: bool| call_ensures(f, (t,), b) ==> b == p(*t),
            forall|t: &T| #[trigger] call_requires(k, (t,)),
            forall|t: &T, s: SortKey| call_ensures(k, (t,), s) ==> s@ == key(*t),
            is_selection(rows@.take(i as int), p, key, down, r@),
            keys@.len() == r@.len(),
            forall|a: int|
                0 <= a < r@.len() ==> (#[trigger] keys@[a])@ == key(rows@[r@[a] as int]),
        decreases rows@.len() - i,
    {
        if f(&rows[i]) {
            let one = k(&rows[i]);
            let ghost old_r = r@;
            let ghost old_keys = keys@;
            let mut at: usize = r.len();
            while at > 0 && key_before(&one, &keys[at - 1], down)
                invariant
                    at <= r@.len(),
                    keys@.len() == r@.len(),
                    forall|a: int|
                        0 <= a < r@.len() ==> (#[trigger] keys@[a])@ == key(rows@[r@[a] as int]),
                    forall|a: int|
                        at <= a < r@.len() ==> precedes(
                            one@,
                            key(rows@[(#[trigger] r@[a]) as int]),
                            down,
                        ),
                decreases at,
            {
                assert(keys@[at - 1]@ == key(rows@[r@[at - 1] as int]));
                at -= 1;
            }
            proof {
                if at > 0 {
                    assert(keys@[at - 1]@ == key(rows@[r@[at - 1] as int]));
                }
                lemma_insert_pick(rows@, p, key, down, i, r@, at as int);
            }
            r.insert(at, i);
            keys.insert(at, one);
            proof {
                assert forall|a: int| 0 <= a < r@.len() implies (#[trigger] keys@[a])@ == key(
                    rows@[r@[a] as int],
                ) by {
                    if a < at {
                        assert(keys@[a] == old_keys[a] && r@[a] == old_r[a]);
                    } else if a > at {
                        assert(keys@[a] == old_keys[a - 1] && r@[a] == old_r[a - 1]);
                    }
                }
            }
        } else {
            proof {
                let a = rows@.take(i as int);
                let b = rows@.take(i + 1);
                assert forall|j: int| 0 <= j < b.len() && p(#[trigger] b[j]) implies exists|k: int|
                    0 <= k < r@.len() && #[trigger] r@[k] == j by {
                    assert(b[j] == rows@[j]);
                    assert(a[j] == b[j]);
                }
                assert forall|x: int| 0 <= x < r@.len() implies (#[trigger] r@[x]) < b.len() && p(
                    b[r@[x] as int],
                ) by {
                    assert(a[r@[x] as int] == b[r@[x] as int]);
                }
                assert forall|x: int, y: int| 0 <= x < y < r@.len() implies !precedes(
                    key(b[(#[trigger] r@[y]) as int]),
                    key(b[(#[trigger] r@[x]) as int]),
                    down,
                ) by {
                    assert(a[r@[x] as int] == b[r@[x] as int]);
                    assert(a[r@[y] as int] == b[r@[y] as int]);
                }
            }
        }
        i += 1;
    }
    assert(rows@.take(i as int) =~= rows@);
    r
}

/// A row that the condition holds of and that no such row comes before.
pub(crate) fn least<T, F: Fn(&T) -> bool, K: Fn(&T) -> SortKey>(
    rows: &Vec<T>,
    f: F,
    k: K,
    Ghost(p): Ghost<spec_fn(T) -> bool>,
    Ghost(key): Ghost<spec_fn(T) -> (int, int, Seq<char>)>,
) -> (r: Option<usize>)
    requires
        forall|t: &T| #[trigger] call_requires(f, (t,)),
        forall|t: &T, b: bool| call_ensures(f, (t,), b) ==> b == p(*t),
        forall|t: &T| #[trigger] call_requires(k, (t,)),
        forall|t: &T, s: SortKey| call_ensures(k, (t,), s) ==> s@ == key(*t),
    ensures
        match r {
            Some(i) => i < rows@.len() && p(rows@[i as int]) && forall|j: int|
                0 <= j < rows@.len() && p(#[trigger] rows@[j]) ==> !precedes(
                    key(rows@[j]),
                    key(rows@[i as int]),
                    false,
                ),
            None => forall|j: int| 0 <= j < rows@.len() ==> !p(#[trigger] rows@[j]),
        },
{
    let picks = select(rows, f, k, false, Ghost(p), Ghost(key));
    if picks.len() == 0 {
        assert forall|j: int| 0 <= j < rows@.len() implies !p(#[trigger] rows@[j]) by {
            if p(rows@[j]) {
                let x = choose|x: int| 0 <= x < picks@.len() && #[trigger] picks@[x] == j;
                assert(false);
            }
        }
        return None;
    }
    proof {
        let i = picks@[0];
        assert forall|j: int| 0 <= j < rows@.len() && p(#[trigger] rows@[j]) implies !precedes(
            key(rows@[j]),
            key(rows@[i as int]),
            false,
        ) by {
            let x = choose|x: int| 0 <= x < picks@.len() && #[trigger] picks@[x] == j;
            if x == 0 {
                less_is_total(key(rows@[j]).2, key(rows@[j]).2);
            } else {
                assert(!precedes(
                    key(rows@[picks@[x] as int]),
                    key(rows@[picks@[0] as int]),
                    false,
                ));
            }
        }
    }
    Some(picks[0])
}

} // verus!
