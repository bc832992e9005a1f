//! Stable ordering of rows by an integer key.
use vstd::prelude::*;

use crate::model;

verus! {

/// A row with a position: smaller keys come first, component by component.
pub trait Ranked: View + Sized {
    /// The key of a row, read off its model.
    spec fn key(m: Self::V) -> (int, int, int);

    /// Whether this row may stand before `other`.
    fn not_after(&self, other: &Self) -> (b: bool)
        ensures
            b == key_le(Self::key(self@), Self::key(other@)),
    ;
}

/// The order of keys, component by component.
pub open spec fn key_le(a: (int, int, int), b: (int, int, int)) -> bool {
    ||| a.0 < b.0
    ||| a.0 == b.0 && a.1 < b.1
    ||| a.0 == b.0 && a.1 == b.1 && a.2 <= b.2
}

/// A row put behind the last row that may stand before it.
pub open spec fn placed<T: Ranked>(s: Seq<T::V>, x: T::V) -> Seq<T::V>
    decreases s.len(),
{
    if s.len() == 0 || key_le(T::key(s.last()), T::key(x)) {
        s.push(x)
    } else {
        placed::<T>(s.drop_last(), x).push(s.last())
    }
}

/// The rows in the order of their keys; rows with equal keys keep the order
/// in which they came.
pub open spec fn arranged<T: Ranked>(s: Seq<T::V>) -> Seq<T::V>
    decreases s.len(),
{
    if s.len() == 0 {
        s
    } else {
        placed::<T>(arranged::<T>(s.drop_last()), s.last())
    }
}

/// No row stands before one with a smaller key.
pub open spec fn in_order<T: Ranked>(s: Seq<T::V>) -> bool {
    forall|i: int, j: int| 0 <= i < j < s.len() ==> key_le(T::key(#[trigger] s[i]), T::key(#[trigger] s[j]))
}

/// Put one more row into rows that were arranged before.
pub fn place<T: Ranked>(rows: &mut Vec<T>, x: T)
    ensures
        model::views(final(rows)@) == placed::<T>(model::views(old(rows)@), x@),
{
    let mut at: usize = rows.len();
    let ghost s = model::views(rows@);
    let ghost before = rows@;
    while at > 0 && !rows[at - 1].not_after(&x)
        invariant
            at <= rows@.len(),
            rows@ == before,
            s == model::views(rows@),
            forall|j: int| at <= j < s.len() ==> !key_le(T::key(#[trigger] s[j]), T::key(x@)),
        decreases at,
    {
        at = at - 1;
    }
    proof {
        lemma_placed_at::<T>(s, x@, at as int);
        assert(model::views(before.insert(at as int, x)) =~= s.insert(at as int, x@));
    }
    rows.insert(at, x);
}

proof fn lemma_placed_at<T: Ranked>(s: Seq<T::V>, x: T::V, at: int)
    requires
        0 <= at <= s.len(),
        at > 0 ==> key_le(T::key(s[at - 1]), T::key(x)),
        forall|j: int| at <= j < s.len() ==> !key_le(T::key(#[trigger] s[j]), T::key(x)),
    ensures
        placed::<T>(s, x) == s.insert(at, x),
    decreases s.len(),
{
    if at == s.len() {
        assert(s.insert(at, x) =~= s.push(x));
    } else {
        let front = s.drop_last();
        assert(!key_le(T::key(s[s.len() - 1]), T::key(x)));
        lemma_placed_at::<T>(front, x, at);
        assert(front.insert(at, x).push(s.last()) =~= s.insert(at, x));
    }
}

proof fn lemma_placed<T: Ranked>(s: Seq<T::V>, x: T::V)
    ensures
        placed::<T>(s, x).to_multiset() == s.to_multiset().insert(x),
        placed::<T>(s, x).len() == s.len() + 1,
        forall|i: int| 0 <= i < placed::<T>(s, x).len() ==> (#[trigger] placed::<T>(s, x)[i] == x
            || s.contains(placed::<T>(s, x)[i])),
        in_order::<T>(s) ==> in_order::<T>(placed::<T>(s, x)),
    decreases s.len(),
{
    broadcast use vstd::seq_lib::group_to_multiset_ensures;

    let p = placed::<T>(s, x);
    if s.len() == 0 || key_le(T::key(s.last()), T::key(x)) {
        assert forall|i: int| 0 <= i < p.len() implies (#[trigger] p[i] == x || s.contains(p[i])) by {
            if i < s.len() {
                assert(s[i] == p[i]);
            }
        }
        if in_order::<T>(s) {
            assert forall|i: int, j: int| 0 <= i < j < p.len() implies key_le(
                T::key(#[trigger] p[i]),
                T::key(#[trigger] p[j]),
            ) by {
                if j == s.len() {
                    if i < s.len() - 1 {
                        assert(key_le(T::key(s[i]), T::key(s[s.len() - 1])));
                    }
                } else {
                    assert(key_le(T::key(s[i]), T::key(s[j])));
                }
            }
        }
    } else {
        let front = s.drop_last();
        let q = placed::<T>(front, x);
        lemma_placed::<T>(front, x);
        assert(s =~= front.push(s.last()));
        assert(q.push(s.last()).to_multiset() =~= q.to_multiset().insert(s.last()));
        assert(s.to_multiset() =~= front.to_multiset().insert(s.last()));
        assert(p.to_multiset() =~= s.to_multiset().insert(x));
        assert forall|i: int| 0 <= i < p.len() implies (#[trigger] p[i] == x || s.contains(p[i])) by {
            if i < q.len() {
                assert(q[i] == p[i]);
                if q[i] != x {
                    let k = choose|k: int| 0 <= k < front.len() && front[k] == q[i];
                    assert(s[k] == p[i]);
                }
            } else {
                assert(s[s.len() - 1] == p[i]);
            }
        }
        if in_order::<T>(s) {
            assert(in_order::<T>(front)) by {
                assert forall|i: int, j: int| 0 <= i < j < front.len() implies key_le(
                    T::key(#[trigger] front[i]),
                    T::key(#[trigger] front[j]),
                ) by {
                    assert(key_le(T::key(s[i]), T::key(s[j])));
                }
            }
            assert forall|i: int, j: int| 0 <= i < j < p.len() implies key_le(
                T::key(#[trigger] p[i]),
                T::key(#[trigger] p[j]),
            ) by {
                if j == q.len() {
                    assert(q[i] == p[i]);
                    if q[i] != x {
                        let k = choose|k: int| 0 <= k < front.len() && front[k] == q[i];
                        assert(key_le(T::key(s[k]), T::key(s[s.len() - 1])));
                    }
                } else {
                    assert(key_le(T::key(q[i]), T::key(q[j])));
                }
            }
        }
    }
}

/// Arranging loses no row, invents none, and leaves the rows in order.
pub proof fn law_arranged<T: Ranked>(s: Seq<T::V>)
    ensures
        arranged::<T>(s).to_multiset() == s.to_multiset(),
        arranged::<T>(s).len() == s.len(),
        in_order::<T>(arranged::<T>(s)),
    decreases s.len(),
{
    broadcast use vstd::seq_lib::group_to_multiset_ensures;

    if s.len() > 0 {
        let front = s.drop_last();
        law_arranged::<T>(front);
        lemma_placed::<T>(arranged::<T>(front), s.last());
        assert(s =~= front.push(s.last()));
        assert(s.to_multiset() =~= front.to_multiset().insert(s.last()));
    }
}

/// Arranging is stable: the rows with one key come out in the order in which
/// they went in.
pub proof fn law_arranging_is_stable<T: Ranked>(
    s: Seq<T::V>,
    pick: spec_fn(T::V) -> bool,
    key: (int, int, int),
)
    requires
        forall|x: T::V| #[trigger] pick(x) ==> T::key(x) == key,
    ensures
        arranged::<T>(s).filter(pick) == s.filter(pick),
    decreases s.len(),
{
    reveal(Seq::filter);
    if s.len() > 0 {
        let front = s.drop_last();
        law_arranging_is_stable::<T>(front, pick, key);
        lemma_placed_filter::<T>(arranged::<T>(front), s.last(), pick, key);
    }
}

proof fn lemma_placed_filter<T: Ranked>(
    s: Seq<T::V>,
    x: T::V,
    pick: spec_fn(T::V) -> bool,
    key: (int, int, int),
)
    requires
        forall|y: T::V| #[trigger] pick(y) ==> T::key(y) == key,
    ensures
        placed::<T>(s, x).filter(pick) == (if pick(x) {
            s.filter(pick).push(x)
        } else {
            s.filter(pick)
        }),
    decreases s.len(),
{
    reveal(Seq::filter);
    if s.len() == 0 || key_le(T::key(s.last()), T::key(x)) {
        assert(s.push(x).drop_last() =~= s);
    } else {
        let front = s.drop_last();
        let q = placed::<T>(front, x);
        lemma_placed_filter::<T>(front, x, pick, key);
        assert(q.push(s.last()).drop_last() =~= q);
        assert(!(pick(x) && pick(s.last())));
    }
}

} // verus!
