//! Stable sorting by an order of one's own.

use vstd::prelude::*;

verus! {

/// Values that come in an order, which may leave some of them level.
pub trait Ranked: View + Sized {
    /// Whether `a` comes strictly before `b`.
    spec fn precedes(a: Self::V, b: Self::V) -> bool;

    /// Nothing comes before itself.
    proof fn precedes_irreflexive(a: Self::V)
        ensures
            !Self::precedes(a, a),
    ;

    /// What comes before `b` or level with it comes so before `c` too, where
    /// `b` does.
    proof fn precedes_negatively_transitive(a: Self::V, b: Self::V, c: Self::V)
        requires
            !Self::precedes(b, a),
            !Self::precedes(c, b),
        ensures
            !Self::precedes(c, a),
    ;

    /// Two values do not both come before each other.
    proof fn precedes_asymmetric(a: Self::V, b: Self::V)
        requires
            Self::precedes(a, b),
        ensures
            !Self::precedes(b, a),
    ;

    /// Whether `self` comes strictly before `other`.
    fn is_before(&self, other: &Self) -> (r: bool)
        ensures
            r == Self::precedes(self@, other@),
    ;
}

/// The views of the elements of `s`.
pub open spec fn views<T: View>(s: Seq<T>) -> Seq<T::V> {
    Seq::new(s.len(), |i: int| s[i]@)
}

/// `x` put into `s` behind everything that it does not come before.
pub open spec fn put_in<T: Ranked>(s: Seq<T::V>, x: T::V) -> Seq<T::V>
    decreases s.len(),
{
    if s.len() == 0 || !T::precedes(x, s.last()) {
        s.push(x)
    } else {
        put_in::<T>(s.drop_last(), x).push(s.last())
    }
}

/// The elements of `s` in order; what is level stays in the order of `s`.
pub open spec fn in_order<T: Ranked>(s: Seq<T::V>) -> Seq<T::V>
    decreases s.len(),
{
    if s.len() == 0 {
        Seq::empty()
    } else {
        put_in::<T>(in_order::<T>(s.drop_last()), s.last())
    }
}

/// Whether no element of `s` comes before an earlier one.
pub open spec fn is_in_order<T: Ranked>(s: Seq<T::V>) -> bool {
    forall|i: int, j: int| 0 <= i < j < s.len() ==> !T::precedes(#[trigger] s[j], #[trigger] s[i])
}

proof fn lemma_put_in<T: Ranked>(s: Seq<T::V>, x: T::V)
    requires
        is_in_order::<T>(s),
    ensures
        is_in_order::<T>(put_in::<T>(s, x)),
        put_in::<T>(s, x).to_multiset() == s.to_multiset().insert(x),
        put_in::<T>(s, x).len() == s.len() + 1,
    decreases s.len(),
{
    broadcast use vstd::seq_lib::group_to_multiset_ensures;

    let r = put_in::<T>(s, x);
    if s.len() == 0 || !T::precedes(x, s.last()) {
        assert forall|i: int, j: int| 0 <= i < j < r.len() implies !T::precedes(
            #[trigger] r[j],
            #[trigger] r[i],
        ) by {
            if j == s.len() {
                if i < s.len() - 1 {
                    assert(!T::precedes(s[s.len() - 1], s[i]));
                    T::precedes_negatively_transitive(s[i], s.last(), x);
                }
            } else {
                assert(!T::precedes(s[j], s[i]));
            }
        }
    } else {
        let init = s.drop_last();
        assert(is_in_order::<T>(init)) by {
            assert forall|i: int, j: int| 0 <= i < j < init.len() implies !T::precedes(
                #[trigger] init[j],
                #[trigger] init[i],
            ) by {
                assert(!T::precedes(s[j], s[i]));
            }
        }
        lemma_put_in::<T>(init, x);
        let p = put_in::<T>(init, x);
        assert(s =~= init.push(s.last()));
        assert(r.to_multiset() =~= s.to_multiset().insert(x));
        assert forall|i: int, j: int| 0 <= i < j < r.len() implies !T::precedes(
            #[trigger] r[j],
            #[trigger] r[i],
        ) by {
            if j == p.len() {
                lemma_put_in_members::<T>(init, x, i);
                if p[i] == x {
                    T::precedes_asymmetric(x, s.last());
                } else {
                    let k = choose|k: int| 0 <= k < init.len() && init[k] == p[i];
                    assert(!T::precedes(s[s.len() - 1], s[k]));
                }
            } else {
                assert(!T::precedes(p[j], p[i]));
            }
        }
    }
}

proof fn lemma_put_in_members<T: Ranked>(s: Seq<T::V>, x: T::V, i: int)
    requires
        0 <= i < put_in::<T>(s, x).len(),
    ensures
        put_in::<T>(s, x)[i] == x || exists|k: int|
            0 <= k < s.len() && s[k] == put_in::<T>(s, x)[i],
    decreases s.len(),
{
    if s.len() == 0 || !T::precedes(x, s.last()) {
        if i < s.len() {
            assert(s[i] == put_in::<T>(s, x)[i]);
        }
    } else {
        let p = put_in::<T>(s.drop_last(), x);
        if i < p.len() {
            lemma_put_in_members::<T>(s.drop_last(), x, i);
            if p[i] != x {
                let k = choose|k: int| 0 <= k < s.drop_last().len() && s.drop_last()[k] == p[i];
                assert(s[k] == put_in::<T>(s, x)[i]);
            }
        } else {
            assert(s[s.len() - 1] == put_in::<T>(s, x)[i]);
        }
    }
}

/// Sorting puts in order, and neither adds nor loses anything.
pub proof fn lemma_in_order<T: Ranked>(s: Seq<T::V>)
    ensures
        is_in_order::<T>(in_order::<T>(s)),
        in_order::<T>(s).to_multiset() == s.to_multiset(),
        in_order::<T>(s).len() == s.len(),
    decreases s.len(),
{
    broadcast use vstd::seq_lib::group_to_multiset_ensures;

    if s.len() > 0 {
        lemma_in_order::<T>(s.drop_last());
        lemma_put_in::<T>(in_order::<T>(s.drop_last()), s.last());
        assert(s =~= s.drop_last().push(s.last()));
    } else {
        assert(s =~= Seq::<T::V>::empty());
    }
}

/// What holds the same elements as often holds each one of them.
pub proof fn lemma_same_elements<A>(s: Seq<A>, t: Seq<A>, i: int) -> (k: int)
    requires
        s.to_multiset() == t.to_multiset(),
        0 <= i < s.len(),
    ensures
        0 <= k < t.len(),
        t[k] == s[i],
{
    broadcast use vstd::seq_lib::group_to_multiset_ensures;

    assert(s.contains(s[i]));
    assert(t.to_multiset().count(s[i]) > 0);
    assert(t.contains(s[i]));
    choose|k: int| 0 <= k < t.len() && t[k] == s[i]
}

/// Sorting keeps everything, each as often as it was there, puts nothing
/// before what it comes behind, and leaves what is level with `a` in the order
/// in which it came.
pub proof fn law_sorting<T: Ranked>(s: Seq<T::V>, a: T::V)
    ensures
        in_order::<T>(s).to_multiset() == s.to_multiset(),
        forall|i: int, j: int|
            0 <= i < j < s.len() ==> !T::precedes(
                #[trigger] in_order::<T>(s)[j],
                #[trigger] in_order::<T>(s)[i],
            ),
        in_order::<T>(s).filter(|y: T::V| !T::precedes(y, a) && !T::precedes(a, y)) == s.filter(
            |y: T::V| !T::precedes(y, a) && !T::precedes(a, y),
        ),
    decreases s.len(),
{
    let level = |y: T::V| !T::precedes(y, a) && !T::precedes(a, y);
    lemma_in_order::<T>(s);
    reveal(Seq::filter);
    if s.len() > 0 {
        law_sorting::<T>(s.drop_last(), a);
        lemma_in_order::<T>(s.drop_last());
        lemma_put_in_keeps_level::<T>(in_order::<T>(s.drop_last()), s.last(), a);
    }
}

proof fn lemma_put_in_keeps_level<T: Ranked>(s: Seq<T::V>, x: T::V, a: T::V)
    requires
        is_in_order::<T>(s),
    ensures
        put_in::<T>(s, x).filter(|y: T::V| !T::precedes(y, a) && !T::precedes(a, y)) == (if
        !T::precedes(x, a) && !T::precedes(a, x) {
            s.filter(|y: T::V| !T::precedes(y, a) && !T::precedes(a, y)).push(x)
        } else {
            s.filter(|y: T::V| !T::precedes(y, a) && !T::precedes(a, y))
        }),
    decreases s.len(),
{
    let level = |y: T::V| !T::precedes(y, a) && !T::precedes(a, y);
    reveal(Seq::filter);
    if s.len() == 0 || !T::precedes(x, s.last()) {
        assert(s.push(x).drop_last() =~= s);
    } else {
        let init = s.drop_last();
        assert(is_in_order::<T>(init)) by {
            assert forall|i: int, j: int| 0 <= i < j < init.len() implies !T::precedes(
                #[trigger] init[j],
                #[trigger] init[i],
            ) by {
                assert(!T::precedes(s[j], s[i]));
            }
        }
        lemma_put_in_keeps_level::<T>(init, x, a);
        let p = put_in::<T>(init, x);
        assert(p.push(s.last()).drop_last() =~= p);
        if level(x) && level(s.last()) {
            T::precedes_negatively_transitive(s.last(), a, x);
        }
    }
}

proof fn lemma_put_in_at<T: Ranked>(s: Seq<T::V>, x: T::V, p: int)
    requires
        0 <= p <= s.len(),
        p == 0 || !T::precedes(x, s[p - 1]),
        forall|j: int| p <= j < s.len() ==> T::precedes(x, #[trigger] s[j]),
    ensures
        put_in::<T>(s, x) == s.insert(p, x),
    decreases s.len(),
{
    if p == s.len() {
        assert(s.insert(p, x) =~= s.push(x));
    } else {
        assert(T::precedes(x, s[s.len() - 1]));
        assert forall|j: int| p <= j < s.drop_last().len() implies T::precedes(
            x,
            #[trigger] s.drop_last()[j],
        ) by {
            assert(T::precedes(x, s[j]));
        }
        lemma_put_in_at::<T>(s.drop_last(), x, p);
        assert(s.drop_last().insert(p, x).push(s.last()) =~= s.insert(p, x));
    }
}

/// Where a value is put: behind everything that it does not come before.
pub proof fn lemma_put_in_place<T: Ranked>(s: Seq<T::V>, x: T::V) -> (p: int)
    requires
        is_in_order::<T>(s),
    ensures
        0 <= p <= s.len(),
        put_in::<T>(s, x) == s.insert(p, x),
        forall|j: int| p <= j < s.len() ==> T::precedes(x, #[trigger] s[j]),
        p > 0 ==> !T::precedes(x, s[p - 1]),
    decreases s.len(),
{
    if s.len() == 0 || !T::precedes(x, s.last()) {
        assert(s.insert(s.len() as int, x) =~= s.push(x));
        s.len() as int
    } else {
        let init = s.drop_last();
        assert forall|i: int, j: int| 0 <= i < j < init.len() implies !T::precedes(
            #[trigger] init[j],
            #[trigger] init[i],
        ) by {
            assert(!T::precedes(s[j], s[i]));
        }
        let p = lemma_put_in_place::<T>(init, x);
        assert(init.insert(p, x).push(s.last()) =~= s.insert(p, x));
        assert forall|j: int| p <= j < s.len() implies T::precedes(x, #[trigger] s[j]) by {
            if j < init.len() {
                assert(T::precedes(x, init[j]));
            }
        }
        p
    }
}

/// Puts `v` in order. What is level keeps its order.
pub fn sort_stably<T: Ranked>(v: Vec<T>) -> (out: Vec<T>)
    ensures
        views(out@) == in_order::<T>(views(v@)),
{
    let ghost all = views(v@);
    let mut out: Vec<T> = Vec::new();
    assert(views(out@) =~= in_order::<T>(all.take(0)));
    for x in it: v
        invariant
            all == views(it.seq()),
            views(out@) == in_order::<T>(all.take(it.index())),
    {
        let ghost n: int = it.index();
        let ghost before = views(out@);
        let mut p: usize = out.len();
        while p > 0 && x.is_before(&out[p - 1])
            invariant
                p <= out@.len(),
                before == views(out@),
                forall|j: int| p <= j < before.len() ==> T::precedes(x@, #[trigger] before[j]),
            decreases p,
        {
            p -= 1;
        }
        proof {
            lemma_put_in_at::<T>(before, x@, p as int);
        }
        out.insert(p, x);
        assert(views(out@) =~= before.insert(p as int, x@));
        assert(all.take(n + 1).drop_last() =~= all.take(n));
        assert(all.take(n + 1).last() == x@);
    }
    assert(all.take(all.len() as int) =~= all);
    out
}

/// What is kept of a sequence stands in it, and was to be kept.
pub proof fn lemma_kept_from<A>(s: Seq<A>, p: spec_fn(A) -> bool, k: int) -> (i: int)
    requires
        0 <= k < s.filter(p).len(),
    ensures
        0 <= i < s.len(),
        s[i] == s.filter(p)[k],
        p(s[i]),
    decreases s.len(),
{
    reveal(Seq::filter);
    let before = s.drop_last().filter(p);
    if k < before.len() {
        lemma_kept_from(s.drop_last(), p, k)
    } else {
        s.len() - 1
    }
}

} // verus!
