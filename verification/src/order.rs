//! Orders: stable sorting by source position, and the elements of a set in order.
use vstd::prelude::*;

use crate::collections::{views, Key, KeySet};
use crate::text::{less, lex_less, lex_less_irreflexive, lex_less_total, lex_less_transitive};

verus! {

/// Something that points at a place in the source.
pub trait Located: View + Sized {
    /// The byte offset that a value points at.
    spec fn offset_of(v: Self::V) -> nat;

    /// The byte offset.
    fn offset(&self) -> (r: usize)
        ensures
            r == Self::offset_of(self@),
    ;
}

/// Where `x` goes so that it comes before everything that does not come before it.
pub open spec fn slot<A>(s: Seq<A>, key: spec_fn(A) -> nat, x: A) -> int
    decreases s.len(),
{
    if s.len() == 0 || key(x) <= key(s[0]) {
        0
    } else {
        1 + slot(s.drop_first(), key, x)
    }
}

/// The elements in ascending order of their keys; of two with the same key the
/// one that came first stays first.
pub open spec fn stable_sorted<A>(s: Seq<A>, key: spec_fn(A) -> nat) -> Seq<A>
    decreases s.len(),
{
    if s.len() == 0 {
        s
    } else {
        let rest = stable_sorted(s.drop_first(), key);
        rest.insert(slot(rest, key, s[0]), s[0])
    }
}

/// The keys ascend.
pub open spec fn ascending<A>(s: Seq<A>, key: spec_fn(A) -> nat) -> bool {
    forall|i: int, j: int| 0 <= i <= j < s.len() ==> key(#[trigger] s[i]) <= key(#[trigger] s[j])
}

proof fn slot_splits<A>(s: Seq<A>, key: spec_fn(A) -> nat, x: A)
    requires
        ascending(s, key),
    ensures
        0 <= slot(s, key, x) <= s.len(),
        forall|i: int| 0 <= i < slot(s, key, x) ==> key(#[trigger] s[i]) < key(x),
        forall|i: int| slot(s, key, x) <= i < s.len() ==> key(x) <= key(#[trigger] s[i]),
    decreases s.len(),
{
    if s.len() == 0 {
    } else if key(x) <= key(s[0]) {
    } else {
        let t = s.drop_first();
        assert(ascending(t, key)) by {
            assert forall|i: int, j: int| 0 <= i <= j < t.len() implies key(#[trigger] t[i])
                <= key(#[trigger] t[j]) by {
                assert(t[i] == s[i + 1] && t[j] == s[j + 1]);
            }
        }
        slot_splits(t, key, x);
        assert forall|i: int| 0 <= i < slot(s, key, x) implies key(#[trigger] s[i]) < key(x) by {
            if i > 0 {
                assert(s[i] == t[i - 1]);
            }
        }
        assert forall|i: int| slot(s, key, x) <= i < s.len() implies key(x) <= key(
            #[trigger] s[i],
        ) by {
            assert(s[i] == t[i - 1]);
        }
    }
}

/// Sorting puts the elements in ascending order and neither drops nor adds any.
pub proof fn sorting_orders_and_keeps<A>(s: Seq<A>, key: spec_fn(A) -> nat)
    ensures
        ascending(stable_sorted(s, key), key),
        stable_sorted(s, key).to_multiset() == s.to_multiset(),
        stable_sorted(s, key).len() == s.len(),
    decreases s.len(),
{
    broadcast use vstd::seq_lib::group_to_multiset_ensures;

    if s.len() > 0 {
        let t = s.drop_first();
        sorting_orders_and_keeps(t, key);
        let rest = stable_sorted(t, key);
        slot_splits(rest, key, s[0]);
        let k = slot(rest, key, s[0]);
        let r = rest.insert(k, s[0]);
        assert(s =~= seq![s[0]] + t);
        vstd::seq_lib::lemma_multiset_commutative(seq![s[0]], t);
        assert(r.to_multiset() =~= rest.to_multiset().insert(s[0])) by {
            let a = rest.take(k);
            let b = rest.skip(k);
            assert(rest =~= a + b);
            assert(r =~= a + seq![s[0]] + b);
            vstd::seq_lib::lemma_multiset_commutative(a + seq![s[0]], b);
            vstd::seq_lib::lemma_multiset_commutative(a, seq![s[0]]);
            vstd::seq_lib::lemma_multiset_commutative(a, b);
            assert(seq![s[0]] =~= Seq::empty().push(s[0]));
        }
        assert(seq![s[0]] =~= Seq::empty().push(s[0]));
        assert(s.to_multiset() =~= t.to_multiset().insert(s[0]));
    }
}

/// Elements that are already in order stay where they are.
pub proof fn sorting_keeps_sorted<A>(s: Seq<A>, key: spec_fn(A) -> nat)
    requires
        ascending(s, key),
    ensures
        stable_sorted(s, key) == s,
    decreases s.len(),
{
    if s.len() > 0 {
        let t = s.drop_first();
        assert(ascending(t, key)) by {
            assert forall|i: int, j: int| 0 <= i <= j < t.len() implies key(#[trigger] t[i])
                <= key(#[trigger] t[j]) by {
                assert(t[i] == s[i + 1] && t[j] == s[j + 1]);
            }
        }
        sorting_keeps_sorted(t, key);
        if t.len() > 0 {
            assert(t[0] == s[1]);
            assert(key(s[0]) <= key(s[1]));
        }
        assert(slot(t, key, s[0]) == 0);
        assert(t.insert(0, s[0]) =~= s);
    }
}

/// The key of a value by what it stands for.
pub open spec fn by_offset<T: Located>() -> spec_fn(T::V) -> nat {
    |v: T::V| T::offset_of(v)
}

/// Sorts by source position; of two at the same place the first stays first.
pub fn sort_by_offset<T: Located>(items: Vec<T>) -> (r: Vec<T>)
    ensures
        views(r@) == stable_sorted(views(items@), by_offset::<T>()),
{
    let ghost all = views(items@);
    let ghost key = by_offset::<T>();
    let mut left = items;
    let mut out: Vec<T> = Vec::new();
    assert(all.skip(all.len() as int) =~= Seq::<T::V>::empty());
    assert(views(out@) =~= Seq::<T::V>::empty());
    while left.len() > 0
        invariant
            left@.len() <= all.len(),
            key == by_offset::<T>(),
            views(left@) == all.take(left@.len() as int),
            views(out@) == stable_sorted(all.skip(left@.len() as int), key),
        decreases left@.len(),
    {
        let ghost n = left@.len() as int;
        let ghost before = left@;
        let ghost sofar = views(out@);
        match left.pop() {
            None => {},
            Some(x) => {
                proof {
                    assert(views(before)[n - 1] == x@);
                    assert(all[n - 1] == x@);
                    assert(all.skip(n - 1).drop_first() =~= all.skip(n));
                    assert(all.skip(n - 1)[0] == x@);
                    assert(views(left@) =~= all.take(n - 1));
                    assert(sofar.skip(0) =~= sofar);
                }
                let at = x.offset();
                let mut k: usize = 0;
                while k < out.len() && out[k].offset() < at
                    invariant
                        k <= out@.len(),
                        sofar == views(out@),
                        key == by_offset::<T>(),
                        at == key(x@),
                        slot(sofar, key, x@) == k + slot(sofar.skip(k as int), key, x@),
                    decreases out@.len() - k,
                {
                    assert(sofar.skip(k as int)[0] == out@[k as int]@);
                    assert(sofar.skip(k as int).drop_first() =~= sofar.skip(k as int + 1));
                    k = k + 1;
                }
                proof {
                    if k < out@.len() {
                        assert(sofar.skip(k as int)[0] == out@[k as int]@);
                    }
                    assert(slot(sofar, key, x@) == k);
                }
                let ghost o = out@;
                out.insert(k, x);
                assert(views(out@) =~= sofar.insert(k as int, x@));
            },
        }
    }
    assert(all.skip(0) =~= all);
    out
}

// ─── Elements of a set in order ────────────────────────────────────────────

/// Values with a strict total order.
pub trait Ranked: Key {
    /// `a` comes before `b`.
    spec fn before(a: Self::V, b: Self::V) -> bool;

    /// Whether this value comes before another.
    fn is_before(&self, other: &Self) -> (r: bool)
        ensures
            r == Self::before(self@, other@),
    ;

    /// Nothing comes before itself.
    proof fn irreflexive(a: Self::V)
        ensures
            !Self::before(a, a),
    ;

    /// The order is transitive.
    proof fn transitive(a: Self::V, b: Self::V, c: Self::V)
        requires
            Self::before(a, b),
            Self::before(b, c),
        ensures
            Self::before(a, c),
    ;

    /// Of two different values one comes before the other.
    proof fn total(a: Self::V, b: Self::V)
        ensures
            a == b || Self::before(a, b) || Self::before(b, a),
    ;
}

impl Ranked for String {
    open spec fn before(a: Seq<char>, b: Seq<char>) -> bool {
        lex_less(a, b)
    }

    fn is_before(&self, other: &String) -> (r: bool) {
        less(self.as_str(), other.as_str())
    }

    proof fn irreflexive(a: Seq<char>) {
        lex_less_irreflexive(a);
    }

    proof fn transitive(a: Seq<char>, b: Seq<char>, c: Seq<char>) {
        lex_less_transitive(a, b, c);
    }

    proof fn total(a: Seq<char>, b: Seq<char>) {
        lex_less_total(a, b);
    }
}

/// Each value comes before the next.
pub open spec fn ranked<T: Ranked>(q: Seq<T::V>) -> bool {
    forall|i: int, j: int| 0 <= i < j < q.len() ==> T::before(#[trigger] q[i], #[trigger] q[j])
}

/// The elements of a set in order.
pub open spec fn in_order<T: Ranked>(s: Set<T::V>) -> Seq<T::V> {
    choose|q: Seq<T::V>| ranked::<T>(q) && q.to_set() == s
}

proof fn ranked_distinct<T: Ranked>(q: Seq<T::V>)
    requires
        ranked::<T>(q),
    ensures
        q.no_duplicates(),
{
    assert forall|i: int, j: int| 0 <= i < q.len() && 0 <= j < q.len() && i != j implies q[i]
        != q[j] by {
        if q[i] == q[j] {
            T::irreflexive(q[i]);
            if i < j {
                assert(T::before(q[i], q[j]));
            } else {
                assert(T::before(q[j], q[i]));
            }
        }
    }
}

proof fn tail_contains<A>(p: Seq<A>, x: A)
    requires
        p.len() > 0,
        p.no_duplicates(),
    ensures
        p.drop_first().contains(x) == (p.contains(x) && x != p[0]),
{
    let t = p.drop_first();
    if t.contains(x) {
        let i = choose|i: int| 0 <= i < t.len() && t[i] == x;
        assert(p[i + 1] == x);
    }
    if p.contains(x) && x != p[0] {
        let i = choose|i: int| 0 <= i < p.len() && p[i] == x;
        assert(t[i - 1] == x);
    }
}

/// A set has only one order.
pub proof fn one_order<T: Ranked>(p: Seq<T::V>, q: Seq<T::V>)
    requires
        ranked::<T>(p),
        ranked::<T>(q),
        p.to_set() == q.to_set(),
    ensures
        p == q,
    decreases p.len(),
{
    ranked_distinct::<T>(p);
    ranked_distinct::<T>(q);
    p.unique_seq_to_set();
    q.unique_seq_to_set();
    if p.len() == 0 {
        assert(p =~= q);
    } else {
        assert(p.to_set().contains(p[0]));
        assert(q.to_set().contains(q[0]));
        let i = choose|i: int| 0 <= i < q.len() && q[i] == p[0];
        let j = choose|j: int| 0 <= j < p.len() && p[j] == q[0];
        if i > 0 {
            assert(T::before(q[0], q[i]));
            if j > 0 {
                assert(T::before(p[0], p[j]));
                T::transitive(p[0], q[0], p[0]);
            }
            T::irreflexive(p[0]);
        }
        assert(p[0] == q[0]);
        let p1 = p.drop_first();
        let q1 = q.drop_first();
        assert forall|a: int, b: int| 0 <= a < b < p1.len() implies T::before(
            #[trigger] p1[a],
            #[trigger] p1[b],
        ) by {
            assert(T::before(p[a + 1], p[b + 1]));
        }
        assert forall|a: int, b: int| 0 <= a < b < q1.len() implies T::before(
            #[trigger] q1[a],
            #[trigger] q1[b],
        ) by {
            assert(T::before(q[a + 1], q[b + 1]));
        }
        assert(p1.to_set() =~= q1.to_set()) by {
            assert forall|x: T::V| p1.contains(x) == q1.contains(x) by {
                tail_contains(p, x);
                tail_contains(q, x);
                assert(p.contains(x) == p.to_set().contains(x));
                assert(q.contains(x) == q.to_set().contains(x));
            }
        }
        one_order::<T>(p1, q1);
        assert(p =~= seq![p[0]] + p1);
        assert(q =~= seq![q[0]] + q1);
    }
}

/// A finite set can be put in order.
pub proof fn finite_sets_have_an_order<T: Ranked>(s: Set<T::V>)
    requires
        s.finite(),
    ensures
        exists|q: Seq<T::V>| ranked::<T>(q) && q.to_set() == s,
    decreases s.len(),
{
    if s.len() == 0 {
        s.lemma_len0_is_empty();
        let q = Seq::<T::V>::empty();
        assert(q.to_set() =~= s);
        assert(ranked::<T>(q));
    } else {
        let x = s.choose();
        let rest = s.remove(x);
        finite_sets_have_an_order::<T>(rest);
        let q = choose|q: Seq<T::V>| ranked::<T>(q) && q.to_set() == rest;
        let k = rank_slot::<T>(q, x);
        rank_slot_facts::<T>(q, x);
        assert(!q.contains(x)) by {
            assert(q.contains(x) == q.to_set().contains(x));
        }
        let r = q.insert(k, x);
        assert forall|a: int, b: int| 0 <= a < b < r.len() implies T::before(
            #[trigger] r[a],
            #[trigger] r[b],
        ) by {
            if k < q.len() {
                T::total(q[k], x);
                assert(q.contains(q[k]));
            }
            if b < k {
                assert(T::before(q[a], q[b]));
            } else if b == k {
                assert(T::before(q[a], x));
            } else if a < k {
                assert(T::before(q[a], q[b - 1]));
            } else if a == k {
                if b - 1 > k {
                    assert(T::before(q[k], q[b - 1]));
                    T::transitive(x, q[k], q[b - 1]);
                }
            } else {
                assert(T::before(q[a - 1], q[b - 1]));
            }
        }
        assert(r.to_set() =~= s) by {
            assert forall|y: T::V| r.contains(y) == s.contains(y) by {
                if r.contains(y) {
                    let a = choose|a: int| 0 <= a < r.len() && r[a] == y;
                    if a != k {
                        let b = if a < k {
                            a
                        } else {
                            a - 1
                        };
                        assert(q[b] == y);
                        assert(q.to_set().contains(y));
                    }
                }
                if s.contains(y) {
                    if y == x {
                        assert(r[k] == y);
                    } else {
                        assert(q.to_set().contains(y));
                        let b = choose|b: int| 0 <= b < q.len() && q[b] == y;
                        let a = if b < k {
                            b
                        } else {
                            b + 1
                        };
                        assert(r[a] == y);
                    }
                }
            }
        }
        assert(ranked::<T>(r));
    }
}

/// How many leading values come before `x`.
spec fn rank_slot<T: Ranked>(q: Seq<T::V>, x: T::V) -> int
    decreases q.len(),
{
    if q.len() == 0 || !T::before(q[0], x) {
        0
    } else {
        1 + rank_slot::<T>(q.drop_first(), x)
    }
}

proof fn rank_slot_facts<T: Ranked>(q: Seq<T::V>, x: T::V)
    ensures
        0 <= rank_slot::<T>(q, x) <= q.len(),
        forall|i: int| 0 <= i < rank_slot::<T>(q, x) ==> T::before(
            #[trigger] q[i],
            x,
        ),
        rank_slot::<T>(q, x) < q.len() ==> !T::before(q[rank_slot::<T>(q, x)], x),
    decreases q.len(),
{
    if q.len() > 0 && T::before(q[0], x) {
        let t = q.drop_first();
        rank_slot_facts::<T>(t, x);
        assert forall|i: int| 0 <= i < rank_slot::<T>(q, x) implies T::before(
            #[trigger] q[i],
            x,
        ) by {
            if i > 0 {
                assert(t[i - 1] == q[i]);
            }
        }
    }
}

/// The elements of a set in order.
pub fn sorted_elements<T: Ranked>(set: &KeySet<T>) -> (r: Vec<T>)
    ensures
        views(r@) == in_order::<T>(set@),
        ranked::<T>(views(r@)),
        views(r@).to_set() == set@,
{
    let items = set.items();
    let ghost all = views(items@);
    let mut out: Vec<T> = Vec::new();
    let mut i: usize = 0;
    assert(views(out@) =~= Seq::<T::V>::empty());
    while i < items.len()
        invariant
            i <= items@.len(),
            all == views(items@),
            all.no_duplicates(),
            ranked::<T>(views(out@)),
            forall|x: T::V|
                views(out@).contains(x) <==> exists|j: int| 0 <= j < i && #[trigger] all[j] == x,
        decreases items@.len() - i,
    {
        let x = items[i].copy();
        let ghost q = views(out@);
        assert(all[i as int] == x@);
        assert(!q.contains(x@));
        let mut k: usize = 0;
        while k < out.len() && out[k].is_before(&x)
            invariant
                k <= out@.len(),
                q == views(out@),
                forall|j: int| 0 <= j < k ==> T::before(#[trigger] q[j], x@),
            decreases out@.len() - k,
        {
            k = k + 1;
        }
        out.insert(k, x);
        proof {
            let r = views(out@);
            assert(r =~= q.insert(k as int, x@));
            if k < q.len() {
                assert(q.contains(q[k as int]));
                T::total(q[k as int], x@);
                assert(T::before(x@, q[k as int]));
            }
            assert forall|a: int, b: int| 0 <= a < b < r.len() implies T::before(
                #[trigger] r[a],
                #[trigger] r[b],
            ) by {
                if b < k {
                    assert(T::before(q[a], q[b]));
                } else if b == k {
                    assert(T::before(q[a], x@));
                } else if a < k {
                    assert(T::before(q[a], q[b - 1]));
                } else if a == k {
                    if b - 1 > k {
                        assert(T::before(q[k as int], q[b - 1]));
                        T::transitive(x@, q[k as int], q[b - 1]);
                    }
                } else {
                    assert(T::before(q[a - 1], q[b - 1]));
                }
            }
            assert forall|y: T::V| r.contains(y) <==> exists|j: int|
                0 <= j < i + 1 && #[trigger] all[j] == y by {
                if r.contains(y) {
                    let a = choose|a: int| 0 <= a < r.len() && r[a] == y;
                    if a != k {
                        let b = if a < k {
                            a
                        } else {
                            a - 1
                        };
                        assert(q[b] == y);
                        assert(q.contains(y));
                        let j = choose|j: int| 0 <= j < i && #[trigger] all[j] == y;
                        assert(all[j] == y);
                    } else {
                        assert(all[i as int] == y);
                    }
                }
                if exists|j: int| 0 <= j < i + 1 && #[trigger] all[j] == y {
                    let j = choose|j: int| 0 <= j < i + 1 && #[trigger] all[j] == y;
                    if j == i {
                        assert(r[k as int] == y);
                    } else {
                        assert(q.contains(y));
                        let b = choose|b: int| 0 <= b < q.len() && q[b] == y;
                        let a = if b < k {
                            b
                        } else {
                            b + 1
                        };
                        assert(r[a] == y);
                    }
                }
            }
        }
        i = i + 1;
    }
    proof {
        let r = views(out@);
        assert(r.to_set() =~= set@) by {
            assert forall|x: T::V| r.contains(x) == set@.contains(x) by {
                if r.contains(x) {
                    let j = choose|j: int| 0 <= j < i && #[trigger] all[j] == x;
                    assert(all.contains(x));
                }
                if set@.contains(x) {
                    let j = choose|j: int| 0 <= j < all.len() && all[j] == x;
                    assert(all[j] == x);
                }
            }
        }
        one_order::<T>(r, in_order::<T>(set@));
    }
    out
}

/// Sorting leaves elements of one key in the order in which they came.
pub proof fn sorting_is_stable<A>(s: Seq<A>, key: spec_fn(A) -> nat, k: nat)
    ensures
        stable_sorted(s, key).filter(|x: A| key(x) == k) == s.filter(|x: A| key(x) == k),
    decreases s.len(),
{
    let alike = |x: A| key(x) == k;
    if s.len() > 0 {
        let t = s.drop_first();
        let x = s[0];
        sorting_is_stable(t, key, k);
        sorting_orders_and_keeps(t, key);
        let rest = stable_sorted(t, key);
        slot_splits(rest, key, x);
        let at = slot(rest, key, x);
        let low = rest.take(at);
        let high = rest.skip(at);
        assert(rest =~= low + high);
        assert(rest.insert(at, x) =~= low + (seq![x] + high));
        assert(s =~= seq![x] + t);
        filter_of_both(low, high, alike);
        filter_of_both(low, seq![x] + high, alike);
        filter_of_both(seq![x], high, alike);
        filter_of_both(seq![x], t, alike);
        if alike(x) {
            assert forall|i: int| 0 <= i < low.len() implies !alike(#[trigger] low[i]) by {
                assert(key(rest[i]) < key(x));
            }
            filter_of_none(low, alike);
            assert(low.filter(alike) + (seq![x].filter(alike) + high.filter(alike)) =~= seq![
                x,
            ].filter(alike) + (low.filter(alike) + high.filter(alike)));
        } else {
            assert forall|i: int| 0 <= i < seq![x].len() implies !alike(
                #[trigger] seq![x][i],
            ) by {}
            filter_of_none(seq![x], alike);
            assert(low.filter(alike) + (seq![x].filter(alike) + high.filter(alike))
                =~= low.filter(alike) + high.filter(alike));
            assert(seq![x].filter(alike) + t.filter(alike) =~= t.filter(alike));
        }
    } else {
        reveal(Seq::filter);
    }
}

proof fn filter_of_both<A>(a: Seq<A>, b: Seq<A>, keep: spec_fn(A) -> bool)
    ensures
        (a + b).filter(keep) =~= a.filter(keep) + b.filter(keep),
    decreases b.len(),
{
    reveal(Seq::filter);
    if b.len() == 0 {
        assert(a + b =~= a);
    } else {
        filter_of_both(a, b.drop_last(), keep);
        assert((a + b).drop_last() =~= a + b.drop_last());
        assert((a + b).last() == b.last());
    }
}

proof fn filter_of_none<A>(a: Seq<A>, keep: spec_fn(A) -> bool)
    requires
        forall|i: int| 0 <= i < a.len() ==> !keep(#[trigger] a[i]),
    ensures
        a.filter(keep) =~= Seq::empty(),
    decreases a.len(),
{
    reveal(Seq::filter);
    if a.len() > 0 {
        assert(!keep(a[a.len() - 1]));
        let front = a.drop_last();
        assert forall|i: int| 0 <= i < front.len() implies !keep(#[trigger] front[i]) by {
            assert(front[i] == a[i]);
        }
        filter_of_none(front, keep);
    }
}

} // verus!
