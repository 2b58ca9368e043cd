//! Stable sorting.
//!
//! What the crate lists, it lists in a stated order, and things that the order does not tell
//! apart keep the order in which they came.

use vstd::prelude::*;

verus! {

/// `le` orders everything, up to ties.
pub open spec fn is_order<A>(le: spec_fn(A, A) -> bool) -> bool {
    &&& forall|a: A, b: A| #[trigger] le(a, b) || le(b, a)
    &&& forall|a: A, b: A, c: A| #[trigger] le(a, b) && #[trigger] le(b, c) ==> le(a, c)
}

/// Nothing in `s` comes before something that it should follow.
pub open spec fn is_sorted<A>(s: Seq<A>, le: spec_fn(A, A) -> bool) -> bool {
    forall|i: int, j: int| 0 <= i <= j < s.len() ==> #[trigger] le(s[i], s[j])
}

/// `s` with `x` added after everything in it that may stand before `x`, from the end.
pub open spec fn insert<A>(s: Seq<A>, x: A, le: spec_fn(A, A) -> bool) -> Seq<A>
    decreases s.len(),
{
    if s.len() == 0 || le(s.last(), x) {
        s.push(x)
    } else {
        insert(s.drop_last(), x, le).push(s.last())
    }
}

/// `s` in order; what the order does not tell apart stays as it was.
pub open spec fn sort<A>(s: Seq<A>, le: spec_fn(A, A) -> bool) -> Seq<A>
    decreases s.len(),
{
    if s.len() == 0 {
        s
    } else {
        insert(sort(s.drop_last(), le), s.last(), le)
    }
}

proof fn lemma_insert_permutes<A>(s: Seq<A>, x: A, le: spec_fn(A, A) -> bool)
    ensures
        insert(s, x, le).to_multiset() == s.to_multiset().insert(x),
        insert(s, x, le).len() == s.len() + 1,
    decreases s.len(),
{
    broadcast use vstd::seq_lib::group_to_multiset_ensures;

    if s.len() > 0 && !le(s.last(), x) {
        lemma_insert_permutes(s.drop_last(), x, le);
        assert(s =~= s.drop_last().push(s.last()));
        assert(s.drop_last().to_multiset().insert(x).insert(s.last())
            =~= s.drop_last().to_multiset().insert(s.last()).insert(x));
    }
}

/// Sorting keeps what is sorted: nothing is lost, nothing is added.
pub proof fn lemma_sort_permutes<A>(s: Seq<A>, le: spec_fn(A, A) -> bool)
    ensures
        sort(s, le).to_multiset() == s.to_multiset(),
        sort(s, le).len() == s.len(),
    decreases s.len(),
{
    broadcast use vstd::seq_lib::group_to_multiset_ensures;

    if s.len() > 0 {
        lemma_sort_permutes(s.drop_last(), le);
        lemma_insert_permutes(sort(s.drop_last(), le), s.last(), le);
        assert(s =~= s.drop_last().push(s.last()));
    }
}

proof fn lemma_insert_bounded<A>(s: Seq<A>, x: A, le: spec_fn(A, A) -> bool, top: A)
    requires
        forall|i: int| 0 <= i < s.len() ==> le(#[trigger] s[i], top),
        le(x, top),
    ensures
        forall|i: int| 0 <= i < insert(s, x, le).len() ==> le(#[trigger] insert(s, x, le)[i], top),
    decreases s.len(),
{
    if s.len() > 0 && !le(s.last(), x) {
        lemma_insert_bounded(s.drop_last(), x, le, top);
        let head = insert(s.drop_last(), x, le);
        assert forall|i: int| 0 <= i < insert(s, x, le).len() implies le(
            #[trigger] insert(s, x, le)[i],
            top,
        ) by {
            if i < head.len() {
                assert(insert(s, x, le)[i] == head[i]);
            }
        }
    }
}

proof fn lemma_insert_sorted<A>(s: Seq<A>, x: A, le: spec_fn(A, A) -> bool)
    requires
        is_order(le),
        is_sorted(s, le),
    ensures
        is_sorted(insert(s, x, le), le),
    decreases s.len(),
{
    let r = insert(s, x, le);
    if s.len() == 0 || le(s.last(), x) {
        assert forall|i: int, j: int| 0 <= i <= j < r.len() implies #[trigger] le(r[i], r[j]) by {
            assert(le(x, x));
            if j == s.len() && i < j {
                assert(le(s[i], s[s.len() - 1]));
            }
        }
    } else {
        let last = s.last();
        assert(is_sorted(s.drop_last(), le)) by {
            assert forall|i: int, j: int| 0 <= i <= j < s.len() - 1 implies #[trigger] le(
                s.drop_last()[i],
                s.drop_last()[j],
            ) by {
                assert(le(s[i], s[j]));
            }
        }
        lemma_insert_sorted(s.drop_last(), x, le);
        assert(le(x, last));
        assert forall|i: int| 0 <= i < s.drop_last().len() implies le(
            #[trigger] s.drop_last()[i],
            last,
        ) by {
            assert(le(s[i], s[s.len() - 1]));
        }
        lemma_insert_bounded(s.drop_last(), x, le, last);
        let head = insert(s.drop_last(), x, le);
        assert forall|i: int, j: int| 0 <= i <= j < r.len() implies #[trigger] le(r[i], r[j]) by {
            assert(le(last, last));
            if j < head.len() {
                assert(le(head[i], head[j]));
            } else if i < head.len() {
                assert(le(head[i], last));
            }
        }
    }
}

/// What comes out of sorting is in order.
pub proof fn lemma_sort_sorts<A>(s: Seq<A>, le: spec_fn(A, A) -> bool)
    requires
        is_order(le),
    ensures
        is_sorted(sort(s, le), le),
    decreases s.len(),
{
    if s.len() > 0 {
        lemma_sort_sorts(s.drop_last(), le);
        lemma_insert_sorted(sort(s.drop_last(), le), s.last(), le);
    }
}

/// The order does not tell `a` and `b` apart.
pub open spec fn ties<A>(a: A, b: A, le: spec_fn(A, A) -> bool) -> bool {
    le(a, b) && le(b, a)
}

proof fn lemma_insert_stable<A>(s: Seq<A>, x: A, le: spec_fn(A, A) -> bool, a: A)
    requires
        is_order(le),
    ensures
        insert(s, x, le).filter(|y: A| ties(y, a, le)) == (if ties(x, a, le) {
            s.filter(|y: A| ties(y, a, le)).push(x)
        } else {
            s.filter(|y: A| ties(y, a, le))
        }),
    decreases s.len(),
{
    reveal(Seq::filter);
    let r = insert(s, x, le);
    if s.len() == 0 || le(s.last(), x) {
        assert(r.drop_last() =~= s);
    } else {
        let last = s.last();
        lemma_insert_stable(s.drop_last(), x, le, a);
        assert(r.drop_last() =~= insert(s.drop_last(), x, le));
        if ties(x, a, le) && ties(last, a, le) {
            assert(le(last, a) && le(a, x));
        }
    }
}

/// Sorting is stable: of the things that tie with `a`, the same ones stand in the same order
/// before and after.
pub proof fn lemma_sort_stable<A>(s: Seq<A>, le: spec_fn(A, A) -> bool, a: A)
    requires
        is_order(le),
    ensures
        sort(s, le).filter(|y: A| ties(y, a, le)) == s.filter(|y: A| ties(y, a, le)),
    decreases s.len(),
{
    reveal(Seq::filter);
    if s.len() > 0 {
        lemma_sort_stable(s.drop_last(), le, a);
        lemma_insert_stable(sort(s.drop_last(), le), s.last(), le, a);
    }
}

/// What can be put in order.
pub trait Ranked: View + Sized {
    /// `a` may stand before `b`.
    spec fn may_precede(a: Self::V, b: Self::V) -> bool;

    /// Whether `self` may stand before `other`.
    fn precedes(&self, other: &Self) -> (r: bool)
        ensures
            r == Self::may_precede(self@, other@),
    ;
}

/// The order of a type, as a function.
pub open spec fn ranking<T: Ranked>() -> spec_fn(T::V, T::V) -> bool {
    |a: T::V, b: T::V| T::may_precede(a, b)
}

/// What the members of a list hold.
pub open spec fn views<T: View>(s: Seq<T>) -> Seq<T::V> {
    s.map_values(|x: T| x@)
}

/// The list in order.
pub fn sorted<T: Ranked>(v: Vec<T>) -> (r: Vec<T>)
    ensures
        views(r@) == sort(views(v@), ranking::<T>()),
{
    let ghost all = views(v@);
    let mut out: Vec<T> = Vec::new();
    assert(views(out@) =~= sort(all.take(0), ranking::<T>()));
    for x in it: v
        invariant
            it.seq() == v@,
            all == views(v@),
            views(out@) == sort(all.take(it.index()), ranking::<T>()),
    {
        let ghost le = ranking::<T>();
        let ghost before = out@;
        let ghost k = it.index();
        proof {
            assert(all.take(k + 1).drop_last() =~= all.take(k));
            assert(all.take(k + 1).last() == x@);
        }
        let mut i = out.len();
        assert(views(out@).take(i as int) =~= views(out@));
        assert(insert(views(out@), x@, le) =~= insert(views(out@).take(i as int), x@, le)
            + views(out@).skip(i as int));
        while i > 0 && !out[i - 1].precedes(&x)
            invariant
                i <= out@.len(),
                le == ranking::<T>(),
                insert(views(out@), x@, le) == insert(views(out@).take(i as int), x@, le)
                    + views(out@).skip(i as int),
            decreases i,
        {
            proof {
                let s = views(out@);
                let head = s.take(i as int);
                assert(head.last() == out@[i - 1]@);
                assert(head.drop_last() =~= s.take(i - 1));
                assert(insert(head, x@, le) == insert(s.take(i - 1), x@, le).push(s[i - 1]));
                assert(insert(s.take(i - 1), x@, le).push(s[i - 1]) + s.skip(i as int) =~= insert(
                    s.take(i - 1),
                    x@,
                    le,
                ) + s.skip(i - 1));
            }
            i -= 1;
        }
        proof {
            let s = views(out@);
            let head = s.take(i as int);
            if i > 0 {
                assert(head.last() == out@[i - 1]@);
            }
            assert(insert(head, x@, le) == head.push(x@));
        }
        out.insert(i, x);
        proof {
            assert(views(out@) =~= views(before).take(i as int).push(x@) + views(before).skip(
                i as int,
            ));
        }
    }
    assert(all.take(v@.len() as int) =~= all);
    out
}

/// The things of `part` stand in `whole` in the same order.
pub open spec fn is_part_of<A>(part: Seq<A>, whole: Seq<A>) -> bool {
    exists|at: Seq<int>| #[trigger] picks(part, whole, at)
}

/// `at` says where in `whole` the things of `part` stand, one behind the other.
pub open spec fn picks<A>(part: Seq<A>, whole: Seq<A>, at: Seq<int>) -> bool {
    &&& at.len() == part.len()
    &&& forall|i: int| 0 <= i < at.len() ==> 0 <= #[trigger] at[i] < whole.len()
    &&& forall|i: int| 0 <= i < at.len() ==> part[i] == whole[#[trigger] at[i]]
    &&& forall|i: int, j: int| 0 <= i < j < at.len() ==> #[trigger] at[i] < #[trigger] at[j]
}

/// What a filter keeps stays in order.
pub proof fn lemma_filter_is_part<A>(s: Seq<A>, keep: spec_fn(A) -> bool)
    ensures
        is_part_of(s.filter(keep), s),
    decreases s.len(),
{
    reveal(Seq::filter);
    if s.len() == 0 {
        assert(picks(s.filter(keep), s, Seq::empty()));
    } else {
        let rest = s.drop_last();
        lemma_filter_is_part(rest, keep);
        let at = choose|at: Seq<int>| #[trigger] picks(rest.filter(keep), rest, at);
        let n = s.len() - 1;
        if keep(s.last()) {
            let more = at.push(n);
            assert forall|i: int| 0 <= i < more.len() implies 0 <= #[trigger] more[i] < s.len() by {
                if i < at.len() {
                    assert(more[i] == at[i]);
                }
            }
            assert forall|i: int| 0 <= i < more.len() implies s.filter(keep)[i]
                == s[#[trigger] more[i]] by {
                if i < at.len() {
                    assert(more[i] == at[i]);
                    assert(rest.filter(keep)[i] == rest[at[i]]);
                }
            }
            assert(picks(s.filter(keep), s, more));
        } else {
            assert(picks(s.filter(keep), s, at));
        }
    }
}

/// Where the things that a filter keeps stand: each of them, and nothing else.
pub proof fn lemma_filter_positions<A>(s: Seq<A>, keep: spec_fn(A) -> bool) -> (at: Seq<int>)
    ensures
        picks(s.filter(keep), s, at),
        forall|i: int| 0 <= i < at.len() ==> keep(s[#[trigger] at[i]]),
        forall|j: int| 0 <= j < s.len() && keep(#[trigger] s[j]) ==> at.contains(j),
    decreases s.len(),
{
    reveal(Seq::filter);
    if s.len() == 0 {
        Seq::empty()
    } else {
        let rest = s.drop_last();
        let before = lemma_filter_positions(rest, keep);
        let n = s.len() - 1;
        let at = if keep(s.last()) {
            before.push(n)
        } else {
            before
        };
        assert forall|i: int| 0 <= i < at.len() implies 0 <= #[trigger] at[i] < s.len() && keep(
            s[at[i]],
        ) && s.filter(keep)[i] == s[at[i]] by {
            if i < before.len() {
                assert(at[i] == before[i]);
                assert(rest.filter(keep)[i] == rest[before[i]]);
            }
        }
        assert forall|i: int, j: int| 0 <= i < j < at.len() implies #[trigger] at[i]
            < #[trigger] at[j] by {
            assert(at[i] == before[i]);
            if j < before.len() {
                assert(at[j] == before[j]);
            }
        }
        assert forall|j: int| 0 <= j < s.len() && keep(#[trigger] s[j]) implies at.contains(j) by {
            if j < n {
                assert(rest[j] == s[j]);
                let i = choose|i: int| 0 <= i < before.len() && before[i] == j;
                assert(at[i] == j);
            } else {
                assert(at[at.len() - 1] == j);
            }
        }
        at
    }
}

} // verus!
