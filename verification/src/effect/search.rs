//! Depth-first search for circles in a finite graph.
//!
//! The nodes are numbered, and the search takes them, and the successors of
//! each, in ascending order.
use vstd::prelude::*;

verus! {

// ─── Model ─────────────────────────────────────────────────────────────────

/// A finite graph: `edge` on the nodes below `n`.
pub ghost struct Graph {
    pub n: nat,
    pub edge: spec_fn(int, int) -> bool,
}

/// How far the search is.
pub ghost struct Search {
    /// The nodes whose successors have all been visited, in the order in which
    /// that came about.
    pub finished: Seq<int>,
    /// The circles found.
    pub cycles: Seq<Seq<int>>,
}

/// The first place of a value.
pub open spec fn place(s: Seq<int>, x: int) -> int
    decreases s.len(),
{
    if s.len() == 0 || s[0] == x {
        0
    } else {
        1 + place(s.drop_first(), x)
    }
}

/// The place of the least value.
pub open spec fn least_place(c: Seq<int>) -> int
    decreases c.len(),
{
    if c.len() <= 1 {
        0
    } else {
        let k = least_place(c.drop_last());
        if c.last() < c[k] {
            c.len() - 1
        } else {
            k
        }
    }
}

/// The circle told from its least member on.
pub open spec fn canonical(c: Seq<int>) -> Seq<int> {
    c.skip(least_place(c)) + c.take(least_place(c))
}

impl Search {
    /// Nothing visited yet.
    pub open spec fn start() -> Search {
        Search { finished: Seq::empty(), cycles: Seq::empty() }
    }

    /// The path leads back to `x`, which lies on it: a circle, told once.
    pub open spec fn found(self, path: Seq<int>, x: int) -> Search {
        let c = canonical(path.skip(place(path, x)));
        if self.cycles.contains(c) {
            self
        } else {
            Search { cycles: self.cycles.push(c), ..self }
        }
    }

    /// All successors of `x` have been visited.
    pub open spec fn finish(self, x: int) -> Search {
        Search { finished: self.finished.push(x), ..self }
    }
}

/// Visits a node that the path has led to.
pub open spec fn visit(g: Graph, path: Seq<int>, s: Search, node: int) -> Search
    decreases g.n - path.len(), 0nat,
{
    if path.len() >= g.n {
        s
    } else {
        visit_successors(g, path.push(node), s, node, g.n).finish(node)
    }
}

/// Visits the successors below `k` of the last node on the path.
pub open spec fn visit_successors(g: Graph, path: Seq<int>, s: Search, node: int, k: nat) -> Search
    decreases g.n - path.len(), k,
{
    if k == 0 {
        s
    } else {
        let s1 = visit_successors(g, path, s, node, (k - 1) as nat);
        let next = k - 1;
        if !(g.edge)(node, next) {
            s1
        } else if path.contains(next) {
            s1.found(path, next)
        } else if s1.finished.contains(next) {
            s1
        } else {
            visit(g, path, s1, next)
        }
    }
}

/// Visits the nodes below `k` that no earlier visit has reached.
pub open spec fn visit_all(g: Graph, k: nat) -> Search
    decreases k,
{
    if k == 0 {
        Search::start()
    } else {
        let s = visit_all(g, (k - 1) as nat);
        if s.finished.contains(k - 1) {
            s
        } else {
            visit(g, Seq::empty(), s, k - 1)
        }
    }
}

/// The circles that the search finds.
pub open spec fn cycles(g: Graph) -> Seq<Seq<int>> {
    visit_all(g, g.n).cycles
}

// ─── What the search finds ─────────────────────────────────────────────────

/// The node at `i` has an edge to the next.
pub open spec fn steps(g: Graph, w: Seq<int>, i: int) -> bool {
    (g.edge)(w[i], w[i + 1])
}

/// Each node has an edge to the next.
pub open spec fn is_walk(g: Graph, w: Seq<int>) -> bool {
    &&& forall|i: int| 0 <= i < w.len() ==> 0 <= #[trigger] w[i] < g.n
    &&& forall|i: int| 0 <= i < w.len() - 1 ==> #[trigger] steps(g, w, i)
}

/// A walk from a node back to it.
pub open spec fn is_circle(g: Graph, c: Seq<int>) -> bool {
    &&& c.len() > 0
    &&& is_walk(g, c)
    &&& (g.edge)(c.last(), c[0])
}

/// A circle without repetitions, told from its least member on.
pub open spec fn is_reported_circle(g: Graph, c: Seq<int>) -> bool {
    &&& is_circle(g, c)
    &&& c.no_duplicates()
    &&& forall|i: int| 0 <= i < c.len() ==> c[0] <= #[trigger] c[i]
}

/// The graph has no circle.
pub open spec fn is_acyclic(g: Graph) -> bool {
    forall|c: Seq<int>| !is_circle(g, c)
}

/// Every circle found is one, and none is told twice.
spec fn sound(g: Graph, s: Search) -> bool {
    &&& forall|i: int| 0 <= i < s.cycles.len() ==> is_reported_circle(g, #[trigger] s.cycles[i])
    &&& s.cycles.no_duplicates()
}

/// The path is a walk without repetitions.
spec fn on_path(g: Graph, path: Seq<int>) -> bool {
    is_walk(g, path) && path.no_duplicates()
}

proof fn place_found(s: Seq<int>, x: int)
    requires
        s.contains(x),
    ensures
        0 <= place(s, x) < s.len(),
        s[place(s, x)] == x,
    decreases s.len(),
{
    let i = choose|i: int| 0 <= i < s.len() && s[i] == x;
    if s[0] != x {
        assert(s.drop_first()[i - 1] == x);
        place_found(s.drop_first(), x);
    }
}

proof fn least_place_found(c: Seq<int>)
    requires
        c.len() > 0,
    ensures
        0 <= least_place(c) < c.len(),
        forall|i: int| 0 <= i < c.len() ==> c[least_place(c)] <= #[trigger] c[i],
    decreases c.len(),
{
    if c.len() > 1 {
        let front = c.drop_last();
        least_place_found(front);
        assert forall|i: int| 0 <= i < c.len() implies c[least_place(c)] <= #[trigger] c[i] by {
            if i < front.len() {
                assert(front[i] == c[i]);
            }
        }
    }
}

/// Where the member at `i` of a circle of `m`, told from place `k` on, stands.
spec fn turned(i: int, k: int, m: int) -> int {
    if i + k < m {
        i + k
    } else {
        i + k - m
    }
}

proof fn canonical_members(c: Seq<int>)
    requires
        c.len() > 0,
    ensures
        canonical(c).len() == c.len(),
        0 <= least_place(c) < c.len(),
        forall|i: int|
            0 <= i < c.len() ==> #[trigger] canonical(c)[i] == c[turned(
                i,
                least_place(c),
                c.len() as int,
            )],
{
    least_place_found(c);
}

proof fn canonical_reported(g: Graph, c: Seq<int>)
    requires
        is_circle(g, c),
        c.no_duplicates(),
    ensures
        is_reported_circle(g, canonical(c)),
{
    canonical_members(c);
    least_place_found(c);
    let k = least_place(c);
    let r = canonical(c);
    let m = c.len() as int;
    assert forall|i: int| 0 <= i < r.len() implies 0 <= #[trigger] r[i] < g.n by {
        assert(r[i] == c[turned(i, k, m)]);
    }
    assert forall|i: int| 0 <= i < r.len() - 1 implies #[trigger] steps(g, r, i) by {
        let a = turned(i, k, m);
        assert(r[i] == c[a]);
        assert(r[i + 1] == c[turned(i + 1, k, m)]);
        if a + 1 < m {
            assert(steps(g, c, a));
        }
    }
    assert(r[0] == c[k]);
    assert(r[m - 1] == c[turned(m - 1, k, m)]);
    if k > 0 {
        assert(steps(g, c, k - 1));
    }
    assert forall|i: int| 0 <= i < r.len() implies r[0] <= #[trigger] r[i] by {
        assert(r[i] == c[turned(i, k, m)]);
    }
    assert forall|i: int, j: int| 0 <= i < r.len() && 0 <= j < r.len() && i != j implies r[i]
        != r[j] by {
        assert(r[i] == c[turned(i, k, m)]);
        assert(r[j] == c[turned(j, k, m)]);
    }
}

proof fn canonical_contains(c: Seq<int>, i: int)
    requires
        0 <= i < c.len(),
    ensures
        canonical(c).contains(c[i]),
{
    canonical_members(c);
    let k = least_place(c);
    let j = if i >= k {
        i - k
    } else {
        i - k + c.len()
    };
    assert(canonical(c)[j] == c[turned(j, k, c.len() as int)]);
}

/// Both nodes lie on the circle.
pub open spec fn lies_on(c: Seq<int>, a: int, b: int) -> bool {
    c.contains(a) && c.contains(b)
}

/// Both nodes lie on one circle that has been found.
spec fn on_reported(s: Search, a: int, b: int) -> bool {
    exists|k: int| 0 <= k < s.cycles.len() && lies_on(#[trigger] s.cycles[k], a, b)
}

proof fn found_sound(g: Graph, path: Seq<int>, s: Search, x: int)
    requires
        sound(g, s),
        on_path(g, path),
        path.contains(x),
        (g.edge)(path.last(), x),
    ensures
        sound(g, s.found(path, x)),
        on_reported(s.found(path, x), path.last(), x),
{
    place_found(path, x);
    let p = place(path, x);
    let c = path.skip(p);
    assert(c[0] == x);
    assert(c.last() == path.last());
    assert forall|i: int| 0 <= i < c.len() - 1 implies #[trigger] steps(g, c, i) by {
        assert(steps(g, path, i + p));
    }
    canonical_reported(g, c);
    canonical_contains(c, 0);
    canonical_contains(c, c.len() - 1);
    let t = s.found(path, x);
    if s.cycles.contains(canonical(c)) {
        let i = choose|i: int| 0 <= i < s.cycles.len() && s.cycles[i] == canonical(c);
        assert(lies_on(t.cycles[i], path.last(), x));
    } else {
        assert(t.cycles[s.cycles.len() as int] == canonical(c));
        assert(lies_on(t.cycles[s.cycles.len() as int], path.last(), x));
        assert forall|i: int| 0 <= i < t.cycles.len() implies is_reported_circle(
            g,
            #[trigger] t.cycles[i],
        ) by {
            if i < s.cycles.len() {
                assert(t.cycles[i] == s.cycles[i]);
            }
        }
        assert(t.cycles.no_duplicates()) by {
            assert forall|i: int, j: int|
                0 <= i < t.cycles.len() && 0 <= j < t.cycles.len() && i != j implies t.cycles[i]
                != t.cycles[j] by {
                if i < s.cycles.len() && j < s.cycles.len() {
                    assert(s.cycles[i] != s.cycles[j]);
                } else if i < s.cycles.len() {
                    assert(s.cycles.contains(s.cycles[i]));
                } else if j < s.cycles.len() {
                    assert(s.cycles.contains(s.cycles[j]));
                }
            }
        }
    }
}

/// Every edge from a finished node leads to a node that finished before it, or
/// lies on a circle that has been found.
spec fn well_finished(g: Graph, s: Search) -> bool {
    forall|i: int, v: int|
        #![trigger (g.edge)(s.finished[i], v)]
        0 <= i < s.finished.len() && 0 <= v < g.n && (g.edge)(s.finished[i], v)
            ==> s.finished.take(i).contains(v) || on_reported(s, s.finished[i], v)
}

/// The later search has seen all that the earlier one had.
spec fn goes_on(s: Search, t: Search) -> bool {
    &&& s.finished.len() <= t.finished.len()
    &&& t.finished.take(s.finished.len() as int) == s.finished
    &&& s.cycles.len() <= t.cycles.len()
    &&& t.cycles.take(s.cycles.len() as int) == s.cycles
}

proof fn goes_on_reported(s: Search, t: Search, a: int, b: int)
    requires
        goes_on(s, t),
        on_reported(s, a, b),
    ensures
        on_reported(t, a, b),
{
    let k = choose|k: int| 0 <= k < s.cycles.len() && lies_on(#[trigger] s.cycles[k], a, b);
    assert(t.cycles.take(s.cycles.len() as int)[k] == s.cycles[k]);
    assert(lies_on(t.cycles[k], a, b));
}

proof fn goes_on_contains(s: Search, t: Search, x: int)
    requires
        goes_on(s, t),
        s.finished.contains(x),
    ensures
        t.finished.contains(x),
{
    let i = choose|i: int| 0 <= i < s.finished.len() && s.finished[i] == x;
    assert(t.finished.take(s.finished.len() as int)[i] == x);
    assert(t.finished[i] == x);
}

proof fn goes_on_transitive(s: Search, t: Search, u: Search)
    requires
        goes_on(s, t),
        goes_on(t, u),
    ensures
        goes_on(s, u),
{
    assert(u.finished.take(s.finished.len() as int) =~= t.finished.take(
        s.finished.len() as int,
    )) by {
        assert forall|i: int| 0 <= i < s.finished.len() implies u.finished[i]
            == t.finished[i] by {
            assert(u.finished.take(t.finished.len() as int)[i] == t.finished[i]);
        }
    }
    assert(u.cycles.take(s.cycles.len() as int) =~= t.cycles.take(s.cycles.len() as int)) by {
        assert forall|i: int| 0 <= i < s.cycles.len() implies u.cycles[i] == t.cycles[i] by {
            assert(u.cycles.take(t.cycles.len() as int)[i] == t.cycles[i]);
        }
    }
}

proof fn visit_facts(g: Graph, path: Seq<int>, s: Search, node: int)
    requires
        sound(g, s),
        on_path(g, path.push(node)),
        path.len() < g.n,
    ensures
        sound(g, visit(g, path, s, node)),
        goes_on(s, visit(g, path, s, node)),
        visit(g, path, s, node).finished.contains(node),
        well_finished(g, s) ==> well_finished(g, visit(g, path, s, node)),
    decreases g.n - path.len(), 0nat,
{
    let p = path.push(node);
    successors_facts(g, p, s, node, g.n);
    let s1 = visit_successors(g, p, s, node, g.n);
    let t = s1.finish(node);
    assert(t.finished.take(s.finished.len() as int) =~= s.finished) by {
        assert(t.finished.take(s.finished.len() as int) =~= s1.finished.take(
            s.finished.len() as int,
        ));
    }
    assert(t.finished[s1.finished.len() as int] == node);
    if well_finished(g, s) {
        assert forall|i: int, v: int|
            #![trigger (g.edge)(t.finished[i], v)]
            0 <= i < t.finished.len() && 0 <= v < g.n && (g.edge)(
                t.finished[i],
                v,
            ) implies t.finished.take(i).contains(v) || on_reported(t, t.finished[i], v) by {
            if i < s1.finished.len() {
                assert((g.edge)(s1.finished[i], v));
                assert(t.finished.take(i) =~= s1.finished.take(i));
                if on_reported(s1, s1.finished[i], v) {
                    let k = choose|k: int|
                        0 <= k < s1.cycles.len() && lies_on(
                            #[trigger] s1.cycles[k],
                            s1.finished[i],
                            v,
                        );
                    assert(lies_on(t.cycles[k], t.finished[i], v));
                }
            } else {
                assert(t.finished.take(i) =~= s1.finished);
                assert((g.edge)(node, v));
                if on_reported(s1, node, v) {
                    let k = choose|k: int|
                        0 <= k < s1.cycles.len() && lies_on(#[trigger] s1.cycles[k], node, v);
                    assert(lies_on(t.cycles[k], t.finished[i], v));
                }
            }
        }
    }
}

proof fn successors_facts(g: Graph, path: Seq<int>, s: Search, node: int, k: nat)
    requires
        sound(g, s),
        on_path(g, path),
        path.len() > 0,
        path.last() == node,
        path.len() <= g.n,
        k <= g.n,
    ensures
        sound(g, visit_successors(g, path, s, node, k)),
        goes_on(s, visit_successors(g, path, s, node, k)),
        forall|v: int|
            #![trigger (g.edge)(node, v)]
            0 <= v < k && (g.edge)(node, v) ==> visit_successors(
                g,
                path,
                s,
                node,
                k,
            ).finished.contains(v) || on_reported(
                visit_successors(g, path, s, node, k),
                node,
                v,
            ),
        well_finished(g, s) ==> well_finished(g, visit_successors(g, path, s, node, k)),
    decreases g.n - path.len(), k,
{
    if k == 0 {
        assert(s.finished.take(s.finished.len() as int) =~= s.finished);
        assert(s.cycles.take(s.cycles.len() as int) =~= s.cycles);
    } else {
        successors_facts(g, path, s, node, (k - 1) as nat);
        let s1 = visit_successors(g, path, s, node, (k - 1) as nat);
        let next = k - 1;
        let t = visit_successors(g, path, s, node, k);
        assert(s1.finished.take(s1.finished.len() as int) =~= s1.finished);
        assert(s1.cycles.take(s1.cycles.len() as int) =~= s1.cycles);
        if !(g.edge)(node, next) {
        } else if path.contains(next) {
            found_sound(g, path, s1, next);
            assert(t.cycles.take(s1.cycles.len() as int) =~= s1.cycles);
            assert(goes_on(s1, t));
            if well_finished(g, s) {
                assert forall|i: int, v: int|
                    #![trigger (g.edge)(t.finished[i], v)]
                    0 <= i < t.finished.len() && 0 <= v < g.n && (g.edge)(
                        t.finished[i],
                        v,
                    ) implies t.finished.take(i).contains(v) || on_reported(
                    t,
                    t.finished[i],
                    v,
                ) by {
                    assert((g.edge)(s1.finished[i], v));
                    if on_reported(s1, s1.finished[i], v) {
                        goes_on_reported(s1, t, s1.finished[i], v);
                    }
                }
            }
        } else if s1.finished.contains(next) {
        } else {
            let longer = path.push(next);
            assert(on_path(g, longer)) by {
                assert forall|i: int| 0 <= i < longer.len() - 1 implies #[trigger] steps(
                    g,
                    longer,
                    i,
                ) by {
                    if i < path.len() - 1 {
                        assert(steps(g, path, i));
                    }
                }
                assert forall|i: int, j: int|
                    0 <= i < longer.len() && 0 <= j < longer.len() && i != j implies longer[i]
                    != longer[j] by {
                    if i < path.len() {
                        assert(path.contains(path[i]));
                    }
                    if j < path.len() {
                        assert(path.contains(path[j]));
                    }
                }
            }
            distinct_bound(longer, g.n);
            visit_facts(g, path, s1, next);
        }
        goes_on_transitive(s, s1, t);
        assert forall|v: int|
            #![trigger (g.edge)(node, v)]
            0 <= v < k && (g.edge)(node, v) implies t.finished.contains(v) || on_reported(
            t,
            node,
            v,
        ) by {
            if v < k - 1 {
                if s1.finished.contains(v) {
                    goes_on_contains(s1, t, v);
                } else {
                    goes_on_reported(s1, t, node, v);
                }
            }
        }
    }
}

/// Distinct numbers below `n` are at most `n` many.
pub proof fn distinct_bound(s: Seq<int>, n: nat)
    requires
        s.no_duplicates(),
        forall|i: int| 0 <= i < s.len() ==> 0 <= #[trigger] s[i] < n,
    ensures
        s.len() <= n,
{
    s.unique_seq_to_set();
    let range = vstd::set_lib::set_int_range(0, n as int);
    vstd::set_lib::lemma_int_range(0, n as int);
    assert(s.to_set().subset_of(range)) by {
        assert forall|x: int| s.to_set().contains(x) implies range.contains(x) by {
            let i = choose|i: int| 0 <= i < s.len() && s[i] == x;
            assert(0 <= s[i] < n);
        }
    }
    vstd::set_lib::lemma_len_subset(s.to_set(), range);
}

proof fn visit_all_facts(g: Graph, k: nat)
    requires
        k <= g.n,
    ensures
        sound(g, visit_all(g, k)),
        forall|v: int| 0 <= v < k ==> visit_all(g, k).finished.contains(v),
        well_finished(g, visit_all(g, k)),
    decreases k,
{
    if k > 0 {
        visit_all_facts(g, (k - 1) as nat);
        let s = visit_all(g, (k - 1) as nat);
        let t = visit_all(g, k);
        if !s.finished.contains(k - 1) {
            let single = Seq::<int>::empty().push(k - 1);
            assert(on_path(g, single));
            visit_facts(g, Seq::empty(), s, k - 1);
            assert forall|v: int| 0 <= v < k implies t.finished.contains(v) by {
                if v < k - 1 {
                    goes_on_contains(s, t, v);
                }
            }
        }
    }
}

/// Every circle that is reported is a circle of the graph, has no repetitions,
/// starts at its least member and is reported once.
pub proof fn reported_circles_are_circles(g: Graph)
    ensures
        forall|i: int| 0 <= i < cycles(g).len() ==> is_reported_circle(g, #[trigger] cycles(g)[i]),
        cycles(g).no_duplicates(),
{
    visit_all_facts(g, g.n);
}

/// The place behind `i` on a circle of `m`.
pub open spec fn next_place(i: int, m: int) -> int {
    if i + 1 < m {
        i + 1
    } else {
        0
    }
}

/// The member at `i` and the next one lie on one of the reported circles.
pub open spec fn step_is_reported(found: Seq<Seq<int>>, c: Seq<int>, i: int) -> bool {
    exists|k: int|
        0 <= k < found.len() && lies_on(
            #[trigger] found[k],
            c[i],
            c[next_place(i, c.len() as int)],
        )
}

/// Of every circle two neighbours lie on one of the reported circles.
pub proof fn every_circle_meets_a_report(g: Graph, c: Seq<int>)
    requires
        is_circle(g, c),
    ensures
        exists|i: int| 0 <= i < c.len() && #[trigger] step_is_reported(cycles(g), c, i),
{
    visit_all_facts(g, g.n);
    let s = visit_all(g, g.n);
    assert(0 <= c[0] < g.n);
    assert(s.finished.contains(c[0]));
    let i = choose|i: int| 0 <= i < s.finished.len() && s.finished[i] == c[0];
    descend(g, s, c, 0, i);
    let m = choose|m: int| 0 <= m < c.len() && #[trigger] step_is_reported(s.cycles, c, m);
    assert(step_is_reported(cycles(g), c, m));
}

/// A circle is reported exactly where the graph has one.
pub proof fn reports_none_iff_acyclic(g: Graph)
    ensures
        cycles(g).len() == 0 <==> is_acyclic(g),
{
    reported_circles_are_circles(g);
    if cycles(g).len() == 0 {
        assert forall|c: Seq<int>| !is_circle(g, c) by {
            if is_circle(g, c) {
                every_circle_meets_a_report(g, c);
            }
        }
    } else {
        assert(is_circle(g, cycles(g)[0]));
    }
}

/// Round a circle the nodes cannot all have finished before their predecessors.
proof fn descend(g: Graph, s: Search, c: Seq<int>, at: int, i: int)
    requires
        well_finished(g, s),
        is_circle(g, c),
        0 <= at < c.len(),
        0 <= i < s.finished.len(),
        s.finished[i] == c[at],
    ensures
        exists|m: int| 0 <= m < c.len() && #[trigger] step_is_reported(s.cycles, c, m),
    decreases i,
{
    let next = next_place(at, c.len() as int);
    assert((g.edge)(c[at], c[next])) by {
        if at + 1 < c.len() {
            assert(steps(g, c, at));
        }
    }
    assert(0 <= c[next] < g.n);
    assert((g.edge)(s.finished[i], c[next]));
    if on_reported(s, c[at], c[next]) {
        assert(step_is_reported(s.cycles, c, at));
    } else {
        let earlier = s.finished.take(i);
        assert(earlier.contains(c[next]));
        let j = choose|j: int| 0 <= j < earlier.len() && earlier[j] == c[next];
        descend(g, s, c, next, j);
    }
}

// ─── The search ────────────────────────────────────────────────────────────

/// Numbers as mathematical integers.
pub open spec fn ints(v: Seq<usize>) -> Seq<int> {
    Seq::new(v.len(), |i: int| v[i] as int)
}

/// Sequences of numbers as mathematical values.
pub open spec fn all_ints(vs: Seq<Vec<usize>>) -> Seq<Seq<int>> {
    Seq::new(vs.len(), |i: int| ints(vs[i]@))
}

/// The links are a square table.
pub open spec fn is_table(links: Seq<Vec<bool>>) -> bool {
    forall|i: int| 0 <= i < links.len() ==> (#[trigger] links[i])@.len() == links.len()
}

/// The graph that a table of links describes.
pub open spec fn graph_of(links: Seq<Vec<bool>>) -> Graph {
    Graph {
        n: links.len(),
        edge: |i: int, j: int| 0 <= i < links.len() && 0 <= j < links.len() && links[i]@[j],
    }
}

/// The colours tell which nodes are on the path and which have finished.
spec fn colours_tell(color: Seq<u8>, path: Seq<int>, s: Search, n: nat) -> bool {
    &&& color.len() == n
    &&& forall|j: int| 0 <= j < n ==> ((#[trigger] color[j]) == 1 <==> path.contains(j))
    &&& forall|j: int| 0 <= j < n ==> ((#[trigger] color[j]) == 2 <==> s.finished.contains(j))
}

/// The first place of a value that is there.
fn find_place(path: &Vec<usize>, x: usize) -> (r: usize)
    requires
        ints(path@).contains(x as int),
    ensures
        r == place(ints(path@), x as int),
        r < path@.len(),
{
    let ghost all = ints(path@);
    let n: usize = path.len();
    let mut i: usize = 0;
    assert(all.skip(0) =~= all);
    proof {
        place_found(all, x as int);
    }
    while path[i] != x
        invariant
            i < n == path@.len(),
            all == ints(path@),
            all.skip(i as int).contains(x as int),
            place(all, x as int) == i + place(all.skip(i as int), x as int),
        decreases path@.len() - i,
    {
        let ghost rest = all.skip(i as int);
        proof {
            let k = choose|k: int| 0 <= k < rest.len() && rest[k] == x as int;
            assert(rest[0] != x as int);
            assert(rest.drop_first() =~= all.skip(i as int + 1));
            assert(all.skip(i as int + 1)[k - 1] == x as int);
        }
        i = i + 1;
    }
    assert(all.skip(i as int)[0] == x as int);
    i
}

/// The circle that starts at place `from`, told from its least member on.
pub fn canonicalise_cycle(cycle: &Vec<usize>, from: usize) -> (r: Vec<usize>)
    requires
        from <= cycle@.len(),
    ensures
        ints(r@) == canonical(ints(cycle@).skip(from as int)),
{
    let ghost c = ints(cycle@).skip(from as int);
    let n: usize = cycle.len();
    if from == n {
        let nothing: Vec<usize> = Vec::new();
        assert(ints(nothing@) =~= canonical(c));
        return nothing;
    }
    let mut least: usize = from;
    let mut i: usize = from + 1;
    while i < n
        invariant
            from < i <= n == cycle@.len(),
            from <= least < i,
            c == ints(cycle@).skip(from as int),
            least - from == least_place(c.take(i - from)),
        decreases n - i,
    {
        proof {
            assert(c.take(i + 1 - from).drop_last() =~= c.take(i - from));
            assert(c.take(i + 1 - from).last() == cycle@[i as int]);
            assert(c.take(i + 1 - from)[least - from] == cycle@[least as int]);
        }
        if cycle[i] < cycle[least] {
            least = i;
        }
        i = i + 1;
    }
    assert(c.take(i - from) =~= c);
    let mut out: Vec<usize> = Vec::new();
    let mut k: usize = least;
    assert(ints(out@) =~= c.subrange(least - from, least - from));
    while k < n
        invariant
            from <= least <= k <= n == cycle@.len(),
            c == ints(cycle@).skip(from as int),
            ints(out@) == c.subrange(least - from, k - from),
        decreases n - k,
    {
        let ghost before = ints(out@);
        out.push(cycle[k]);
        assert(ints(out@) =~= before.push(cycle@[k as int] as int));
        assert(ints(out@) =~= c.subrange(least - from, k + 1 - from));
        k = k + 1;
    }
    let ghost first = ints(out@);
    assert(first =~= c.skip(least - from));
    let mut m: usize = from;
    assert(ints(out@) =~= first + c.take(0));
    while m < least
        invariant
            from <= m <= least < n == cycle@.len(),
            c == ints(cycle@).skip(from as int),
            ints(out@) == first + c.take(m - from),
        decreases least - m,
    {
        let ghost before = ints(out@);
        out.push(cycle[m]);
        assert(ints(out@) =~= before.push(cycle@[m as int] as int));
        assert(ints(out@) =~= first + c.take(m + 1 - from));
        m = m + 1;
    }
    out
}

fn same_numbers(a: &Vec<usize>, b: &Vec<usize>) -> (r: bool)
    ensures
        r == (ints(a@) == ints(b@)),
{
    if a.len() != b.len() {
        assert(ints(a@).len() != ints(b@).len());
        return false;
    }
    let mut i: usize = 0;
    while i < a.len()
        invariant
            i <= a@.len() == b@.len(),
            forall|j: int| 0 <= j < i ==> a@[j] == b@[j],
        decreases a@.len() - i,
    {
        if a[i] != b[i] {
            assert(ints(a@)[i as int] != ints(b@)[i as int]);
            return false;
        }
        i = i + 1;
    }
    assert(ints(a@) =~= ints(b@));
    true
}

/// Records a circle that has not been recorded yet.
fn record(found: &mut Vec<Vec<usize>>, cycle: Vec<usize>)
    ensures
        all_ints(final(found)@) == if all_ints(old(found)@).contains(ints(cycle@)) {
            all_ints(old(found)@)
        } else {
            all_ints(old(found)@).push(ints(cycle@))
        },
{
    let mut i: usize = 0;
    while i < found.len()
        invariant
            i <= found@.len(),
            found@ == old(found)@,
            forall|j: int| 0 <= j < i ==> ints((#[trigger] found@[j])@) != ints(cycle@),
        decreases found@.len() - i,
    {
        if same_numbers(&found[i], &cycle) {
            assert(all_ints(found@)[i as int] == ints(cycle@));
            return;
        }
        i = i + 1;
    }
    proof {
        if all_ints(found@).contains(ints(cycle@)) {
            let j = choose|j: int| 0 <= j < found@.len() && all_ints(found@)[j] == ints(cycle@);
            assert(ints(found@[j]@) == ints(cycle@));
        }
    }
    found.push(cycle);
    assert(all_ints(found@) =~= all_ints(old(found)@).push(ints(cycle@)));
}

/// Visits a node that the path has led to.
fn visit_node(
    links: &Vec<Vec<bool>>,
    color: &mut Vec<u8>,
    path: &mut Vec<usize>,
    found: &mut Vec<Vec<usize>>,
    node: usize,
    Ghost(s): Ghost<Search>,
) -> (r: Ghost<Search>)
    requires
        is_table(links@),
        node < links@.len(),
        colours_tell(old(color)@, ints(old(path)@), s, links@.len()),
        all_ints(old(found)@) == s.cycles,
        ints(old(path)@).no_duplicates(),
        forall|i: int| 0 <= i < old(path)@.len() ==> (#[trigger] old(path)@[i]) < links@.len(),
        !ints(old(path)@).contains(node as int),
        !s.finished.contains(node as int),
    ensures
        r@ == visit(graph_of(links@), ints(old(path)@), s, node as int),
        final(path)@ == old(path)@,
        colours_tell(final(color)@, ints(final(path)@), r@, links@.len()),
        all_ints(final(found)@) == r@.cycles,
    decreases links@.len() - old(path)@.len(),
{
    let ghost g = graph_of(links@);
    let ghost above = ints(path@);
    let ghost p = above.push(node as int);
    let ghost start = path@;
    let n: usize = links.len();
    color[node] = 1;
    path.push(node);
    proof {
        assert(ints(path@) =~= p);
        assert(p.no_duplicates()) by {
            assert forall|i: int, j: int| 0 <= i < p.len() && 0 <= j < p.len() && i != j implies p[i]
                != p[j] by {
                if i < above.len() {
                    assert(above.contains(above[i]));
                }
                if j < above.len() {
                    assert(above.contains(above[j]));
                }
            }
        }
        assert forall|i: int| 0 <= i < p.len() implies 0 <= #[trigger] p[i] < g.n by {
            if i < above.len() {
                assert(start[i] < links@.len());
            }
        }
        distinct_bound(p, g.n);
        assert forall|j: int| 0 <= j < n implies ((#[trigger] color@[j]) == 1 <==> p.contains(j)) by {
            contains_push(above, node as int, j);
        }
        assert(colours_tell(color@, p, s, n as nat));
    }
    let ghost mut now: Search = s;
    let mut k: usize = 0;
    while k < n
        invariant
            k <= n == links@.len(),
            node < n,
            g == graph_of(links@),
            is_table(links@),
            ints(path@) == p,
            path@ == start.push(node),
            start == old(path)@,
            p.no_duplicates(),
            p.len() <= n,
            p == above.push(node as int),
            above == ints(start),
            forall|i: int| 0 <= i < p.len() ==> 0 <= #[trigger] p[i] < n,
            now == visit_successors(g, p, s, node as int, k as nat),
            colours_tell(color@, p, now, n as nat),
            all_ints(found@) == now.cycles,
        decreases n - k,
    {
        proof {
            assert(links@[node as int]@.len() == n);
        }
        if links[node][k] {
            let c: u8 = color[k];
            if c == 1 {
                let from: usize = find_place(path, k);
                let cycle = canonicalise_cycle(path, from);
                record(found, cycle);
                proof {
                    now = now.found(p, k as int);
                }
            } else if c != 2 {
                proof {
                    assert forall|i: int| 0 <= i < path@.len() implies (#[trigger] path@[i])
                        < links@.len() by {
                        assert(p[i] == path@[i] as int);
                    }
                }
                let next = visit_node(links, color, path, found, k, Ghost(now));
                proof {
                    now = next@;
                }
            }
        }
        k = k + 1;
    }
    let _ = path.pop();
    color[node] = 2;
    let ghost done = now.finish(node as int);
    proof {
        assert(path@ =~= start);
        assert forall|j: int| 0 <= j < n implies ((#[trigger] color@[j]) == 1 <==> above.contains(
            j,
        )) by {
            contains_push(above, node as int, j);
        }
        assert forall|j: int| 0 <= j < n implies ((#[trigger] color@[j]) == 2
            <==> done.finished.contains(j)) by {
            contains_push(now.finished, node as int, j);
        }
    }
    Ghost(done)
}

proof fn contains_push(s: Seq<int>, x: int, y: int)
    ensures
        s.push(x).contains(y) == (s.contains(y) || x == y),
{
    if s.contains(y) {
        let i = choose|i: int| 0 <= i < s.len() && s[i] == y;
        assert(s.push(x)[i] == y);
    }
    if x == y {
        assert(s.push(x)[s.len() as int] == y);
    }
    if s.push(x).contains(y) {
        let i = choose|i: int| 0 <= i < s.push(x).len() && s.push(x)[i] == y;
        if i < s.len() {
            assert(s[i] == y);
        }
    }
}

/// The circles in the graph that a table of links describes.
pub fn find_circles(links: &Vec<Vec<bool>>) -> (r: Vec<Vec<usize>>)
    requires
        is_table(links@),
    ensures
        all_ints(r@) == cycles(graph_of(links@)),
{
    let ghost g = graph_of(links@);
    let n: usize = links.len();
    let mut color: Vec<u8> = Vec::new();
    let mut i: usize = 0;
    while i < n
        invariant
            i <= n,
            color@.len() == i,
            forall|j: int| 0 <= j < i ==> (#[trigger] color@[j]) == 0,
        decreases n - i,
    {
        color.push(0);
        i = i + 1;
    }
    let mut path: Vec<usize> = Vec::new();
    let mut found: Vec<Vec<usize>> = Vec::new();
    let ghost mut now: Search = Search::start();
    let mut k: usize = 0;
    assert(all_ints(found@) =~= Seq::<Seq<int>>::empty());
    assert(ints(path@) =~= Seq::<int>::empty());
    while k < n
        invariant
            k <= n == links@.len(),
            g == graph_of(links@),
            is_table(links@),
            path@.len() == 0,
            now == visit_all(g, k as nat),
            colours_tell(color@, ints(path@), now, n as nat),
            all_ints(found@) == now.cycles,
        decreases n - k,
    {
        assert(ints(path@) =~= Seq::<int>::empty());
        let c: u8 = color[k];
        if c != 2 {
            let next = visit_node(links, &mut color, &mut path, &mut found, k, Ghost(now));
            proof {
                now = next@;
            }
        }
        k = k + 1;
    }
    found
}

} // verus!
