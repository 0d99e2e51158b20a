//! The graph of `#>` calls, which must not lead in circles.
use vstd::prelude::*;

use crate::ast::Program;
use crate::collections::{entries_map, entry_keys, views, Key, KeyMap, KeySet};
use crate::effect::callable::{callable_display, callable_sort_key, CallableId, CallableView};
use crate::effect::direct::{collect_direct_profiles, program_effects, DirectProfile, DirectView};
use crate::effect::error::{EffectError, EffectErrorView};
use crate::effect::profile::{callees, calls};
use crate::effect::search::{
    all_ints, cycles, every_circle_meets_a_report, find_circles, graph_of, ints, is_circle,
    is_reported_circle, is_table, lies_on, next_place, reported_circles_are_circles,
    reports_none_iff_acyclic, step_is_reported, steps, Graph,
};
use crate::order::{finite_sets_have_an_order, in_order, ranked, sorted_elements, Ranked};
use crate::resolve::Resolution;
use crate::text::{less, lex_less, lex_less_irreflexive, lex_less_total, lex_less_transitive};

verus! {

// ─── Order of callables ────────────────────────────────────────────────────

/// The automaton of a transition; other callables have none.
pub open spec fn owner_of(id: CallableView) -> Seq<char> {
    match id {
        CallableView::Transition { automaton, .. } => automaton,
        _ => Seq::empty(),
    }
}

proof fn key_starts(a: CallableView)
    ensures
        a.sort_key().len() > 0,
        a.sort_key()[0] == match a {
            CallableView::Effect(_) => 'E',
            CallableView::Interrupt(_) => 'I',
            CallableView::Transition { .. } => 'T',
        },
{
    reveal_strlit("E:");
    reveal_strlit("I:");
    reveal_strlit("T:");
}

proof fn key_identifies(a: CallableView, b: CallableView)
    requires
        a.sort_key() == b.sort_key(),
        owner_of(a) == owner_of(b),
    ensures
        a == b,
{
    reveal_strlit("E:");
    reveal_strlit("I:");
    reveal_strlit("T:");
    key_starts(a);
    key_starts(b);
    match (a, b) {
        (CallableView::Effect(m), CallableView::Effect(n)) => {
            assert(a.sort_key().skip(2) =~= m);
            assert(b.sort_key().skip(2) =~= n);
        },
        (CallableView::Interrupt(m), CallableView::Interrupt(n)) => {
            assert(a.sort_key().skip(2) =~= m);
            assert(b.sort_key().skip(2) =~= n);
        },
        (
            CallableView::Transition { automaton, name: m },
            CallableView::Transition { automaton: other, name: n },
        ) => {
            let k = ("T:"@ + automaton + "::"@).len();
            assert(a.sort_key().skip(k as int) =~= m);
            assert(b.sort_key().skip(k as int) =~= n);
        },
        _ => {},
    }
}

impl Ranked for CallableId {
    open spec fn before(a: CallableView, b: CallableView) -> bool {
        lex_less(a.sort_key(), b.sort_key()) || (a.sort_key() == b.sort_key() && lex_less(
            owner_of(a),
            owner_of(b),
        ))
    }

    fn is_before(&self, other: &CallableId) -> (r: bool) {
        let a = callable_sort_key(self);
        let b = callable_sort_key(other);
        proof {
            lex_less_total(a@, b@);
            lex_less_irreflexive(a@);
        }
        if less(a.as_str(), b.as_str()) {
            true
        } else if less(b.as_str(), a.as_str()) {
            proof {
                if a@ == b@ {
                    lex_less_irreflexive(a@);
                }
            }
            false
        } else {
            let x = match self {
                CallableId::Transition { automaton, .. } => automaton.as_str(),
                _ => "",
            };
            let y = match other {
                CallableId::Transition { automaton, .. } => automaton.as_str(),
                _ => "",
            };
            proof {
                reveal_strlit("");
                assert(x@ =~= owner_of(self@));
                assert(y@ =~= owner_of(other@));
            }
            less(x, y)
        }
    }

    proof fn irreflexive(a: CallableView) {
        lex_less_irreflexive(a.sort_key());
        lex_less_irreflexive(owner_of(a));
    }

    proof fn transitive(a: CallableView, b: CallableView, c: CallableView) {
        if lex_less(a.sort_key(), b.sort_key()) && lex_less(b.sort_key(), c.sort_key()) {
            lex_less_transitive(a.sort_key(), b.sort_key(), c.sort_key());
        } else if a.sort_key() == b.sort_key() && b.sort_key() == c.sort_key() {
            lex_less_transitive(owner_of(a), owner_of(b), owner_of(c));
        }
    }

    proof fn total(a: CallableView, b: CallableView) {
        lex_less_total(a.sort_key(), b.sort_key());
        lex_less_total(owner_of(a), owner_of(b));
        if a.sort_key() == b.sort_key() && owner_of(a) == owner_of(b) {
            key_identifies(a, b);
        }
    }
}

// ─── Model ─────────────────────────────────────────────────────────────────

/// Who calls whom; only callables that call something.
pub open spec fn call_graph(direct: Map<CallableView, DirectView>) -> Map<
    CallableView,
    Set<CallableView>,
> {
    Map::new(
        |a: CallableView| exists|b: CallableView| calls(direct, a, b),
        |a: CallableView| Set::new(|b: CallableView| calls(direct, a, b)),
    )
}

/// The callables that call something, in order.
pub open spec fn callers(graph: Map<CallableView, Set<CallableView>>) -> Seq<CallableView> {
    in_order::<CallableId>(graph.dom())
}

/// The calls between numbered callables.
pub open spec fn numbered(
    graph: Map<CallableView, Set<CallableView>>,
    nodes: Seq<CallableView>,
) -> Graph {
    Graph {
        n: nodes.len(),
        edge: |i: int, j: int|
            0 <= i < nodes.len() && 0 <= j < nodes.len() && graph[nodes[i]].contains(nodes[j]),
    }
}

/// The callables of the given numbers.
pub open spec fn named(nodes: Seq<CallableView>, c: Seq<int>) -> Seq<CallableView> {
    Seq::new(c.len(), |i: int| nodes[c[i]])
}

/// The circles of calls that are reported.
pub open spec fn call_cycles(graph: Map<CallableView, Set<CallableView>>) -> Seq<
    Seq<CallableView>,
> {
    let nodes = callers(graph);
    let found = cycles(numbered(graph, nodes));
    Seq::new(found.len(), |k: int| named(nodes, found[k]))
}

/// The members as shown to the user, each with an arrow behind it.
pub open spec fn arrows(c: Seq<CallableView>) -> Seq<char>
    decreases c.len(),
{
    if c.len() == 0 {
        Seq::empty()
    } else {
        arrows(c.drop_last()) + "`"@ + c.last().display() + "` → "@
    }
}

/// The error for a circle: its members, and the way round back to the first.
pub open spec fn cycle_error(c: Seq<CallableView>) -> EffectErrorView {
    EffectErrorView::ProcCallCycle {
        cycle: Seq::new(c.len(), |i: int| c[i].display()),
        cycle_display: arrows(c) + "`"@ + c[0].display() + "`"@,
    }
}

/// The outcome of the extraction: the graph where no circle is found, else one
/// error for each.
pub open spec fn graph_outcome(program: Program, resolution: Resolution) -> Result<
    Map<CallableView, Set<CallableView>>,
    Seq<EffectErrorView>,
> {
    let graph = call_graph(program_effects(program, resolution));
    let found = call_cycles(graph);
    if found.len() == 0 {
        Ok(graph)
    } else {
        Err(Seq::new(found.len(), |k: int| cycle_error(found[k])))
    }
}

// ─── Laws ──────────────────────────────────────────────────────────────────

/// The member at `i` calls the next one.
pub open spec fn calls_next(
    graph: Map<CallableView, Set<CallableView>>,
    c: Seq<CallableView>,
    i: int,
) -> bool {
    graph[c[i]].contains(c[i + 1])
}

/// Each member calls the next, and the last the first.
pub open spec fn is_call_circle(
    graph: Map<CallableView, Set<CallableView>>,
    c: Seq<CallableView>,
) -> bool {
    &&& c.len() > 0
    &&& forall|i: int| 0 <= i < c.len() ==> graph.dom().contains(#[trigger] c[i])
    &&& forall|i: int| 0 <= i < c.len() - 1 ==> #[trigger] calls_next(graph, c, i)
    &&& graph[c.last()].contains(c[0])
}

/// The callers are all there, each once, in order.
proof fn callers_listed(graph: Map<CallableView, Set<CallableView>>)
    requires
        exists|q: Seq<CallableView>| ranked::<CallableId>(q) && q.to_set() == graph.dom(),
    ensures
        ranked::<CallableId>(callers(graph)),
        callers(graph).to_set() == graph.dom(),
        forall|i: int, j: int|
            0 <= i < callers(graph).len() && 0 <= j < callers(graph).len() && callers(graph)[i]
                == callers(graph)[j] ==> i == j,
{
    let q = callers(graph);
    assert forall|i: int, j: int| 0 <= i < q.len() && 0 <= j < q.len() && q[i] == q[j] implies i
        == j by {
        CallableId::irreflexive(q[i]);
        if i < j {
            assert(<CallableId as Ranked>::before(q[i], q[j]));
        }
        if j < i {
            assert(<CallableId as Ranked>::before(q[j], q[i]));
        }
    }
}

/// Every circle of calls that is reported is one: it has no repetitions, starts
/// with the member that comes first in order, and is reported once.
pub proof fn reported_call_circles(graph: Map<CallableView, Set<CallableView>>)
    requires
        graph.dom().finite(),
    ensures
        forall|k: int|
            0 <= k < call_cycles(graph).len() ==> {
                &&& is_call_circle(graph, #[trigger] call_cycles(graph)[k])
                &&& call_cycles(graph)[k].no_duplicates()
                &&& forall|i: int|
                    1 <= i < call_cycles(graph)[k].len() ==> <CallableId as Ranked>::before(
                        call_cycles(graph)[k][0],
                        #[trigger] call_cycles(graph)[k][i],
                    )
            },
        call_cycles(graph).no_duplicates(),
{
    finite_sets_have_an_order::<CallableId>(graph.dom());
    callers_listed(graph);
    let nodes = callers(graph);
    let g = numbered(graph, nodes);
    reported_circles_are_circles(g);
    let found = cycles(g);
    let named_cycles = call_cycles(graph);
    assert forall|k: int| 0 <= k < named_cycles.len() implies {
        &&& is_call_circle(graph, #[trigger] named_cycles[k])
        &&& named_cycles[k].no_duplicates()
        &&& forall|i: int|
            1 <= i < named_cycles[k].len() ==> <CallableId as Ranked>::before(
                named_cycles[k][0],
                #[trigger] named_cycles[k][i],
            )
    } by {
        let c = found[k];
        let d = named_cycles[k];
        assert(is_reported_circle(g, c));
        assert forall|i: int| 0 <= i < d.len() implies graph.dom().contains(#[trigger] d[i]) by {
            assert(0 <= c[i] < nodes.len());
            assert(nodes.to_set().contains(nodes[c[i]]));
        }
        assert forall|i: int| 0 <= i < d.len() - 1 implies #[trigger] calls_next(graph, d, i) by {
            assert(steps(g, c, i));
        }
        assert forall|i: int, j: int| 0 <= i < d.len() && 0 <= j < d.len() && i != j implies d[i]
            != d[j] by {
            assert(c[i] != c[j]);
            assert(0 <= c[i] < nodes.len() && 0 <= c[j] < nodes.len());
        }
        assert forall|i: int| 1 <= i < d.len() implies <CallableId as Ranked>::before(
            d[0],
            #[trigger] d[i],
        ) by {
            assert(0 <= c[i] < nodes.len() && 0 <= c[0]);
            assert(c[0] <= c[i] && c[0] != c[i]);
            assert(<CallableId as Ranked>::before(nodes[c[0]], nodes[c[i]]));
        }
    }
    assert forall|a: int, b: int|
        0 <= a < named_cycles.len() && 0 <= b < named_cycles.len() && a != b implies named_cycles[a]
        != named_cycles[b] by {
        assert(found[a] != found[b]);
        assert(is_reported_circle(g, found[a]) && is_reported_circle(g, found[b]));
        if named_cycles[a] == named_cycles[b] {
            assert(found[a].len() == named_cycles[a].len());
            assert(found[b].len() == named_cycles[b].len());
            assert forall|i: int| 0 <= i < found[a].len() implies found[a][i] == found[b][i] by {
                assert(0 <= found[a][i] < nodes.len() && 0 <= found[b][i] < nodes.len());
                assert(nodes[found[a][i]] == named_cycles[a][i]);
                assert(nodes[found[b][i]] == named_cycles[b][i]);
            }
            assert(found[a] =~= found[b]);
        }
    }
}

/// A circle of calls is reported exactly where the graph has one.
pub proof fn no_report_iff_no_call_circle(graph: Map<CallableView, Set<CallableView>>)
    requires
        graph.dom().finite(),
    ensures
        call_cycles(graph).len() == 0 <==> forall|c: Seq<CallableView>| !is_call_circle(graph, c),
{
    finite_sets_have_an_order::<CallableId>(graph.dom());
    callers_listed(graph);
    let nodes = callers(graph);
    let g = numbered(graph, nodes);
    reports_none_iff_acyclic(g);
    if call_cycles(graph).len() == 0 {
        assert forall|c: Seq<CallableView>| !is_call_circle(graph, c) by {
            if is_call_circle(graph, c) {
                let w = numbered_circle(graph, c);
                assert(is_circle(g, w));
            }
        }
    } else {
        reported_call_circles(graph);
        assert(is_call_circle(graph, call_cycles(graph)[0]));
    }
}

/// The numbers of the members of a circle of calls, and that they make a circle.
proof fn numbered_circle(
    graph: Map<CallableView, Set<CallableView>>,
    c: Seq<CallableView>,
) -> (w: Seq<int>)
    requires
        is_call_circle(graph, c),
        callers(graph).to_set() == graph.dom(),
    ensures
        is_circle(numbered(graph, callers(graph)), w),
        w.len() == c.len(),
        forall|i: int|
            0 <= i < c.len() ==> 0 <= #[trigger] w[i] < callers(graph).len() && callers(
                graph,
            )[w[i]] == c[i],
{
    let nodes = callers(graph);
    let g = numbered(graph, nodes);
    let w = Seq::new(
        c.len(),
        |i: int| choose|k: int| 0 <= k < nodes.len() && nodes[k] == c[i],
    );
    assert forall|i: int| 0 <= i < c.len() implies 0 <= #[trigger] w[i] < nodes.len()
        && nodes[w[i]] == c[i] by {
        assert(graph.dom().contains(c[i]));
        assert(nodes.to_set().contains(c[i]));
        assert(nodes.contains(c[i]));
    }
    assert forall|i: int| 0 <= i < w.len() - 1 implies #[trigger] steps(g, w, i) by {
        assert(calls_next(graph, c, i));
        assert(0 <= w[i] < nodes.len() && 0 <= w[i + 1] < nodes.len());
    }
    assert(0 <= w[0] < nodes.len() && 0 <= w[c.len() - 1] < nodes.len());
    w
}

/// Each callable calls the next, from `a` on up to `b`.
pub open spec fn is_call_chain(
    graph: Map<CallableView, Set<CallableView>>,
    w: Seq<CallableView>,
    a: CallableView,
    b: CallableView,
) -> bool {
    &&& w.len() > 0
    &&& w[0] == a
    &&& w.last() == b
    &&& forall|i: int| 0 <= i < w.len() - 1 ==> #[trigger] calls_next(graph, w, i)
}

/// Calls lead from `a` to `b`, in any number of steps.
pub open spec fn calls_lead(
    graph: Map<CallableView, Set<CallableView>>,
    a: CallableView,
    b: CallableView,
) -> bool {
    exists|w: Seq<CallableView>| is_call_chain(graph, w, a, b)
}

/// Calls lead from every member of either to every member of the other: all of
/// them belong to one strongly connected component.
pub open spec fn call_each_other(
    graph: Map<CallableView, Set<CallableView>>,
    c: Seq<CallableView>,
    d: Seq<CallableView>,
) -> bool {
    forall|i: int, j: int|
        #![trigger c[i], d[j]]
        0 <= i < c.len() && 0 <= j < d.len() ==> calls_lead(graph, c[i], d[j]) && calls_lead(
            graph,
            d[j],
            c[i],
        )
}

proof fn chains_join(
    graph: Map<CallableView, Set<CallableView>>,
    a: CallableView,
    b: CallableView,
    c: CallableView,
)
    requires
        calls_lead(graph, a, b),
        calls_lead(graph, b, c),
    ensures
        calls_lead(graph, a, c),
{
    let v = choose|w: Seq<CallableView>| is_call_chain(graph, w, a, b);
    let w = choose|w: Seq<CallableView>| is_call_chain(graph, w, b, c);
    let u = v + w.drop_first();
    assert forall|i: int| 0 <= i < u.len() - 1 implies #[trigger] calls_next(graph, u, i) by {
        if i < v.len() - 1 {
            assert(calls_next(graph, v, i));
        } else {
            assert(calls_next(graph, w, i - v.len() + 1));
        }
    }
    assert(u.last() == c) by {
        if w.len() == 1 {
            assert(u =~= v);
        }
    }
    assert(is_call_chain(graph, u, a, c));
}

proof fn calls_lead_round(
    graph: Map<CallableView, Set<CallableView>>,
    c: Seq<CallableView>,
    i: int,
    j: int,
)
    requires
        is_call_circle(graph, c),
        0 <= i < c.len(),
        0 <= j < c.len(),
    ensures
        calls_lead(graph, c[i], c[j]),
{
    if i <= j {
        let w = c.subrange(i, j + 1);
        assert forall|k: int| 0 <= k < w.len() - 1 implies #[trigger] calls_next(graph, w, k) by {
            assert(calls_next(graph, c, i + k));
        }
        assert(is_call_chain(graph, w, c[i], c[j]));
    } else {
        let w = c.skip(i) + c.take(j + 1);
        assert forall|k: int| 0 <= k < w.len() - 1 implies #[trigger] calls_next(graph, w, k) by {
            if i + k + 1 < c.len() {
                assert(calls_next(graph, c, i + k));
            } else if i + k >= c.len() {
                assert(calls_next(graph, c, i + k - c.len()));
            }
        }
        assert(is_call_chain(graph, w, c[i], c[j]));
    }
}

/// Of every circle of calls, the strongly connected component that it lies in
/// is reported: calls lead from its members to those of some reported circle
/// and back.
pub proof fn every_component_with_a_circle_is_reported(
    graph: Map<CallableView, Set<CallableView>>,
    c: Seq<CallableView>,
)
    requires
        graph.dom().finite(),
        is_call_circle(graph, c),
    ensures
        exists|k: int|
            0 <= k < call_cycles(graph).len() && call_each_other(
                graph,
                #[trigger] call_cycles(graph)[k],
                c,
            ),
{
    finite_sets_have_an_order::<CallableId>(graph.dom());
    callers_listed(graph);
    reported_call_circles(graph);
    let nodes = callers(graph);
    let g = numbered(graph, nodes);
    let found = cycles(g);
    let w = numbered_circle(graph, c);
    every_circle_meets_a_report(g, w);
    let m = choose|m: int| 0 <= m < w.len() && #[trigger] step_is_reported(found, w, m);
    let next = next_place(m, w.len() as int);
    let k = choose|k: int| 0 <= k < found.len() && lies_on(#[trigger] found[k], w[m], w[next]);
    let p = choose|p: int| 0 <= p < found[k].len() && found[k][p] == w[m];
    let d = call_cycles(graph)[k];
    assert(is_call_circle(graph, d));
    assert(d[p] == c[m]);
    assert forall|i: int, j: int|
        #![trigger d[i], c[j]]
        0 <= i < d.len() && 0 <= j < c.len() implies calls_lead(graph, d[i], c[j]) && calls_lead(
        graph,
        c[j],
        d[i],
    ) by {
        calls_lead_round(graph, d, i, p);
        calls_lead_round(graph, c, m, j);
        chains_join(graph, d[i], c[m], c[j]);
        calls_lead_round(graph, c, j, m);
        calls_lead_round(graph, d, p, i);
        chains_join(graph, c[j], c[m], d[i]);
    }
}

// ─── Data ──────────────────────────────────────────────────────────────────

/// Who calls whom.
#[derive(Debug, PartialEq, Eq)]
pub struct ProcCallGraph {
    edges: KeyMap<CallableId, KeySet<CallableId>>,
}

impl View for ProcCallGraph {
    type V = Map<CallableView, Set<CallableView>>;

    closed spec fn view(&self) -> Map<CallableView, Set<CallableView>> {
        self.edges@
    }
}

impl ProcCallGraph {
    /// The callables that a callable calls; `None` where it calls none.
    pub fn callees(&self, caller: &CallableId) -> (r: Option<&KeySet<CallableId>>)
        ensures
            match r {
                Some(s) => self@.dom().contains(caller@) && self@[caller@] == s@,
                None => !self@.dom().contains(caller@),
            },
    {
        self.edges.get(caller)
    }

    /// Every caller with its callees, once.
    pub fn all(&self) -> (r: &Vec<(CallableId, KeySet<CallableId>)>)
        ensures
            entries_map(r@) == self@,
            entry_keys(r@).no_duplicates(),
            entry_keys(r@).to_set() == self@.dom(),
    {
        self.edges.all()
    }

    /// How many callers there are.
    pub fn len(&self) -> (r: usize)
        ensures
            r == self@.dom().len(),
    {
        self.edges.len()
    }

    /// Whether nothing calls anything.
    pub fn is_empty(&self) -> (r: bool)
        ensures
            r == (self@.dom() == Set::<CallableView>::empty()),
    {
        self.edges.is_empty()
    }
}

impl Default for ProcCallGraph {
    fn default() -> (r: ProcCallGraph)
        ensures
            r@ == Map::<CallableView, Set<CallableView>>::empty(),
    {
        ProcCallGraph { edges: KeyMap::new() }
    }
}

// ─── Extraction ────────────────────────────────────────────────────────────

/// The callables at the given places.
fn callable_set(entries: &Vec<(CallableId, DirectProfile)>, places: &Vec<usize>) -> (r: KeySet<
    CallableId,
>)
    requires
        forall|k: int| 0 <= k < places@.len() ==> (#[trigger] places@[k]) < entries@.len(),
    ensures
        forall|b: CallableView|
            r@.contains(b) <==> exists|k: int|
                0 <= k < places@.len() && entries@[(#[trigger] places@[k]) as int].0@ == b,
{
    let mut out: KeySet<CallableId> = KeySet::new();
    let mut i: usize = 0;
    while i < places.len()
        invariant
            i <= places@.len(),
            forall|k: int| 0 <= k < places@.len() ==> (#[trigger] places@[k]) < entries@.len(),
            forall|b: CallableView|
                out@.contains(b) <==> exists|k: int|
                    0 <= k < i && entries@[(#[trigger] places@[k]) as int].0@ == b,
        decreases places@.len() - i,
    {
        let ghost before = out@;
        let id = entries[places[i]].0.copy();
        let _ = out.insert(id);
        proof {
            assert forall|b: CallableView| out@.contains(b) <==> exists|k: int|
                0 <= k < i + 1 && entries@[(#[trigger] places@[k]) as int].0@ == b by {
                if before.contains(b) {
                    let k = choose|k: int|
                        0 <= k < i && entries@[(#[trigger] places@[k]) as int].0@ == b;
                    assert(entries@[places@[k] as int].0@ == b);
                }
                if b == id@ {
                    assert(entries@[places@[i as int] as int].0@ == b);
                }
            }
        }
        i = i + 1;
    }
    out
}

/// Who calls whom, from what each callable does by itself.
pub fn build_edges(direct: &KeyMap<CallableId, DirectProfile>) -> (r: ProcCallGraph)
    ensures
        r@ == call_graph(direct@),
{
    let entries = direct.all();
    let ghost keys = entry_keys(entries@);
    let ghost graph = call_graph(direct@);
    let n: usize = entries.len();
    let mut edges: KeyMap<CallableId, KeySet<CallableId>> = KeyMap::new();
    let mut i: usize = 0;
    while i < n
        invariant
            i <= n == entries@.len(),
            keys == entry_keys(entries@),
            keys.no_duplicates(),
            keys.to_set() == direct@.dom(),
            entries_map(entries@) == direct@,
            graph == call_graph(direct@),
            forall|a: CallableView|
                #![trigger edges@.dom().contains(a)]
                #![trigger graph.dom().contains(a)]
                edges@.dom().contains(a) <==> graph.dom().contains(a) && exists|j: int|
                    0 <= j < i && #[trigger] keys[j] == a,
            forall|a: CallableView|
                edges@.dom().contains(a) ==> #[trigger] edges@[a] == graph[a],
        decreases n - i,
    {
        let next = callees(entries, i);
        let ghost a = entries@[i as int].0@;
        let ghost before = edges@;
        assert(keys[i as int] == a);
        proof {
            assert forall|b: CallableView| calls(direct@, a, b) <==> exists|k: int|
                0 <= k < next@.len() && entries@[(#[trigger] next@[k]) as int].0@ == b by {
                if calls(direct@, a, b) {
                    assert(keys.contains(b));
                    let j = choose|j: int| 0 <= j < keys.len() && keys[j] == b;
                    assert(entries@[j].0@ == b);
                    assert(next@.contains(j as usize));
                    let k = choose|k: int| 0 <= k < next@.len() && next@[k] == j as usize;
                    assert(entries@[next@[k] as int].0@ == b);
                }
                if exists|k: int|
                    0 <= k < next@.len() && entries@[(#[trigger] next@[k]) as int].0@ == b {
                    let k = choose|k: int|
                        0 <= k < next@.len() && entries@[(#[trigger] next@[k]) as int].0@ == b;
                    let j = next@[k] as int;
                    assert(next@.contains(j as usize));
                    assert(calls(direct@, a, entries@[j].0@));
                }
            }
        }
        if next.len() > 0 {
            let set = callable_set(entries, &next);
            let id = entries[i].0.copy();
            edges.insert(id, set);
            proof {
                let b = entries@[next@[0] as int].0@;
                assert(calls(direct@, a, b));
                assert(graph.dom().contains(a));
                assert(set@ =~= graph[a]);
            }
        } else {
            proof {
                if graph.dom().contains(a) {
                    let b = choose|b: CallableView| calls(direct@, a, b);
                    assert(calls(direct@, a, b));
                }
                assert(!graph.dom().contains(a));
            }
        }
        proof {
            assert forall|x: CallableView|
                #![trigger edges@.dom().contains(x)]
                #![trigger graph.dom().contains(x)]
                edges@.dom().contains(x) <==> graph.dom().contains(x) && exists|j: int|
                    0 <= j < i + 1 && #[trigger] keys[j] == x by {
                if before.dom().contains(x) {
                    let j = choose|j: int| 0 <= j < i && #[trigger] keys[j] == x;
                    assert(keys[j] == x);
                }
                if exists|j: int| 0 <= j < i + 1 && #[trigger] keys[j] == x {
                    let j = choose|j: int| 0 <= j < i + 1 && #[trigger] keys[j] == x;
                    if j < i {
                        assert(keys[j] == x);
                    }
                }
            }
        }
        i = i + 1;
    }
    proof {
        assert forall|a: CallableView| edges@.dom().contains(a) <==> graph.dom().contains(a) by {
            if graph.dom().contains(a) {
                let b = choose|b: CallableView| calls(direct@, a, b);
                assert(keys.contains(a));
                let j = choose|j: int| 0 <= j < keys.len() && keys[j] == a;
                assert(keys[j] == a);
            }
        }
        assert(edges@ =~= graph);
    }
    ProcCallGraph { edges }
}

/// The callables that call something, in order.
fn sorted_callers(graph: &ProcCallGraph) -> (r: Vec<CallableId>)
    ensures
        views(r@) == callers(graph@),
        ranked::<CallableId>(views(r@)),
        views(r@).to_set() == graph@.dom(),
{
    let entries = graph.all();
    let ghost keys = entry_keys(entries@);
    let mut set: KeySet<CallableId> = KeySet::new();
    let mut i: usize = 0;
    while i < entries.len()
        invariant
            i <= entries@.len(),
            keys == entry_keys(entries@),
            forall|a: CallableView|
                set@.contains(a) <==> exists|j: int| 0 <= j < i && #[trigger] keys[j] == a,
        decreases entries@.len() - i,
    {
        let ghost before = set@;
        let id = entries[i].0.copy();
        let _ = set.insert(id);
        proof {
            assert(keys[i as int] == id@);
            assert forall|a: CallableView| set@.contains(a) <==> exists|j: int|
                0 <= j < i + 1 && #[trigger] keys[j] == a by {
                if before.contains(a) {
                    let j = choose|j: int| 0 <= j < i && #[trigger] keys[j] == a;
                    assert(keys[j] == a);
                }
            }
        }
        i = i + 1;
    }
    proof {
        assert(set@ =~= graph@.dom()) by {
            assert forall|a: CallableView| set@.contains(a) == graph@.dom().contains(a) by {
                assert(keys.to_set().contains(a) == keys.contains(a));
                if keys.contains(a) {
                    let j = choose|j: int| 0 <= j < keys.len() && keys[j] == a;
                    assert(keys[j] == a);
                }
                if set@.contains(a) {
                    let j = choose|j: int| 0 <= j < i && #[trigger] keys[j] == a;
                    assert(keys.contains(a));
                }
            }
        }
    }
    sorted_elements(&set)
}

/// Which of the numbered callables call which.
fn link_table(graph: &ProcCallGraph, nodes: &Vec<CallableId>) -> (r: Vec<Vec<bool>>)
    requires
        views(nodes@).to_set() == graph@.dom(),
    ensures
        is_table(r@),
        graph_of(r@) == numbered(graph@, views(nodes@)),
{
    let ghost names = views(nodes@);
    let n: usize = nodes.len();
    let mut table: Vec<Vec<bool>> = Vec::new();
    let mut i: usize = 0;
    while i < n
        invariant
            i <= n == nodes@.len(),
            names == views(nodes@),
            names.to_set() == graph@.dom(),
            table@.len() == i,
            forall|a: int| 0 <= a < i ==> (#[trigger] table@[a])@.len() == n,
            forall|a: int, b: int|
                0 <= a < i && 0 <= b < n ==> #[trigger] table@[a]@[b] == graph@[names[a]].contains(
                    names[b],
                ),
        decreases n - i,
    {
        let mut row: Vec<bool> = Vec::new();
        proof {
            assert(names[i as int] == nodes@[i as int]@);
            assert(names.to_set().contains(names[i as int]));
        }
        let set = graph.callees(&nodes[i]);
        let mut j: usize = 0;
        while j < n
            invariant
                i < n,
                j <= n == nodes@.len(),
                names == views(nodes@),
                row@.len() == j,
                match set {
                    Some(s) => graph@[names[i as int]] == s@,
                    None => false,
                },
                forall|b: int|
                    0 <= b < j ==> #[trigger] row@[b] == graph@[names[i as int]].contains(
                        names[b],
                    ),
            decreases n - j,
        {
            let hit = match set {
                Some(s) => s.contains(&nodes[j]),
                None => false,
            };
            row.push(hit);
            j = j + 1;
        }
        table.push(row);
        i = i + 1;
    }
    proof {
        assert(graph_of(table@).edge =~= numbered(graph@, names).edge);
    }
    table
}

/// The circles of calls, each told from the member that comes first in order.
pub fn find_cycles(graph: &ProcCallGraph) -> (r: Vec<Vec<CallableId>>)
    ensures
        r@.len() == call_cycles(graph@).len(),
        forall|k: int|
            0 <= k < r@.len() ==> views((#[trigger] r@[k])@) == call_cycles(graph@)[k]
                && r@[k]@.len() > 0,
{
    let nodes = sorted_callers(graph);
    let table = link_table(graph, &nodes);
    let ghost names = views(nodes@);
    let ghost g = numbered(graph@, names);
    let circles = find_circles(&table);
    let ghost found = cycles(g);
    proof {
        reported_circles_are_circles(g);
    }
    let mut out: Vec<Vec<CallableId>> = Vec::new();
    let mut i: usize = 0;
    while i < circles.len()
        invariant
            i <= circles@.len() == found.len(),
            all_ints(circles@) == found,
            names == views(nodes@),
            names == callers(graph@),
            g == numbered(graph@, names),
            found == cycles(g),
            forall|k: int| 0 <= k < found.len() ==> is_reported_circle(g, #[trigger] found[k]),
            out@.len() == i,
            forall|k: int|
                0 <= k < i ==> views((#[trigger] out@[k])@) == call_cycles(graph@)[k]
                    && out@[k]@.len() > 0,
        decreases circles@.len() - i,
    {
        let c = &circles[i];
        proof {
            assert(found[i as int] == ints(c@));
            assert(is_reported_circle(g, found[i as int]));
        }
        let mut members: Vec<CallableId> = Vec::new();
        let mut k: usize = 0;
        while k < c.len()
            invariant
                k <= c@.len(),
                names == views(nodes@),
                is_reported_circle(g, ints(c@)),
                g.n == nodes@.len(),
                members@.len() == k,
                forall|m: int|
                    0 <= m < k ==> (#[trigger] members@[m])@ == names[c@[m] as int],
            decreases c@.len() - k,
        {
            assert(0 <= ints(c@)[k as int] < g.n);
            members.push(nodes[c[k]].copy());
            k = k + 1;
        }
        assert(views(members@) =~= call_cycles(graph@)[i as int]);
        out.push(members);
        i = i + 1;
    }
    out
}

/// The error for a circle.
fn cycle_error_of(c: &Vec<CallableId>) -> (r: EffectError)
    requires
        c@.len() > 0,
    ensures
        r@ == cycle_error(views(c@)),
{
    let ghost all = views(c@);
    let mut names: Vec<String> = Vec::new();
    let mut display = String::new();
    let mut i: usize = 0;
    assert(all.take(0) =~= Seq::<CallableView>::empty());
    while i < c.len()
        invariant
            i <= c@.len(),
            all == views(c@),
            names@.len() == i,
            forall|k: int| 0 <= k < i ==> (#[trigger] names@[k])@ == all[k].display(),
            display@ == arrows(all.take(i as int)),
        decreases c@.len() - i,
    {
        let name = callable_display(&c[i]);
        proof {
            assert(all.take(i as int + 1).drop_last() =~= all.take(i as int));
            assert(all.take(i as int + 1).last() == c@[i as int]@);
        }
        display.append("`");
        display.append(name.as_str());
        display.append("` → ");
        names.push(name);
        i = i + 1;
    }
    assert(all.take(i as int) =~= all);
    let first = callable_display(&c[0]);
    display.append("`");
    display.append(first.as_str());
    display.append("`");
    let r = EffectError::ProcCallCycle { cycle: names, cycle_display: display };
    assert(views(names@) =~= Seq::new(all.len(), |i: int| all[i].display()));
    r
}

/// The outcome of the extraction as a mathematical value.
pub open spec fn outcome(r: Result<ProcCallGraph, Vec<EffectError>>) -> Result<
    Map<CallableView, Set<CallableView>>,
    Seq<EffectErrorView>,
> {
    match r {
        Ok(g) => Ok(g@),
        Err(errors) => Err(views(errors@)),
    }
}

/// Extracts who calls whom through `#>`, and rejects calls that lead in circles
/// with one error for every circle found.
pub fn extract_call_graph(program: &Program, resolution: &Resolution) -> (r: Result<
    ProcCallGraph,
    Vec<EffectError>,
>)
    ensures
        outcome(r) == graph_outcome(*program, *resolution),
{
    let direct = collect_direct_profiles(program, resolution);
    let graph = build_edges(&direct);
    let found = find_cycles(&graph);
    if found.len() == 0 {
        return Ok(graph);
    }
    let ghost all = call_cycles(graph@);
    let mut errors: Vec<EffectError> = Vec::new();
    let mut i: usize = 0;
    while i < found.len()
        invariant
            i <= found@.len() == all.len(),
            forall|k: int|
                0 <= k < found@.len() ==> views((#[trigger] found@[k])@) == all[k]
                    && found@[k]@.len() > 0,
            errors@.len() == i,
            forall|k: int| 0 <= k < i ==> (#[trigger] errors@[k])@ == cycle_error(all[k]),
        decreases found@.len() - i,
    {
        proof {
            assert(views(found@[i as int]@) == all[i as int]);
        }
        errors.push(cycle_error_of(&found[i]));
        i = i + 1;
    }
    assert(views(errors@) =~= Seq::new(all.len(), |k: int| cycle_error(all[k])));
    Err(errors)
}

/// The graph leads from one callable to another exactly where the one calls the
/// other, and has no place for callables that call nothing.
pub proof fn the_graph_holds_the_calls(
    direct: Map<CallableView, DirectView>,
    a: CallableView,
    b: CallableView,
)
    ensures
        call_graph(direct).dom().contains(a) && call_graph(direct)[a].contains(b) <==> calls(
            direct,
            a,
            b,
        ),
        call_graph(direct).dom().contains(a) <==> exists|c: CallableView| calls(direct, a, c),
{
}

/// The report of a circle shows its members in order, each with an arrow to the
/// next, and comes back to the first.
pub proof fn circles_are_shown_all_round(c: Seq<CallableView>)
    requires
        c.len() > 0,
    ensures
        cycle_error(c) matches EffectErrorView::ProcCallCycle { cycle, cycle_display } && {
            &&& cycle.len() == c.len()
            &&& forall|i: int| 0 <= i < c.len() ==> #[trigger] cycle[i] == c[i].display()
            &&& cycle_display == shown(c) + "`"@ + c[0].display() + "`"@
        },
        shown(c) == shown(c.drop_last()) + "`"@ + c.last().display() + "` → "@,
        shown(Seq::empty()) == Seq::<char>::empty(),
{
    shown_as_arrows(c);
}

/// The members as shown to the user, each with an arrow behind it.
pub open spec fn shown(c: Seq<CallableView>) -> Seq<char>
    decreases c.len(),
{
    if c.len() == 0 {
        Seq::empty()
    } else {
        shown(c.drop_last()) + "`"@ + c.last().display() + "` → "@
    }
}

proof fn shown_as_arrows(c: Seq<CallableView>)
    ensures
        shown(c) == arrows(c),
    decreases c.len(),
{
    if c.len() > 0 {
        shown_as_arrows(c.drop_last());
    }
}

/// A callable is shown by its kind and its name, a transition with its automaton
/// before its own name. Effects come before interrupts, interrupts before
/// transitions, and callables of one kind go by name.
pub proof fn callables_are_shown_and_ordered(a: CallableView, b: CallableView)
    ensures
        match a {
            CallableView::Effect(n) => a.display() == "#effect "@ + n && a.name() == n,
            CallableView::Interrupt(n) => a.display() == "#interrupt "@ + n && a.name() == n,
            CallableView::Transition { automaton, name } => a.display() == "#transition "@
                + automaton + "::"@ + name && a.name() == name,
        },
        match (a, b) {
            (CallableView::Effect(m), CallableView::Effect(n)) => <CallableId as Ranked>::before(
                a,
                b,
            ) <==> lex_less(m, n),
            (CallableView::Interrupt(m), CallableView::Interrupt(n)) => {
                <CallableId as Ranked>::before(a, b) <==> lex_less(m, n)
            },
            (CallableView::Effect(_), _) => <CallableId as Ranked>::before(a, b),
            (CallableView::Interrupt(_), CallableView::Transition { .. }) => {
                <CallableId as Ranked>::before(a, b)
            },
            _ => true,
        },
{
    key_starts(a);
    key_starts(b);
    reveal_strlit("E:");
    reveal_strlit("I:");
    reveal_strlit("T:");
    match (a, b) {
        (CallableView::Effect(m), CallableView::Effect(n)) => {
            same_start("E:"@, m, n);
            lex_less_irreflexive(Seq::empty());
        },
        (CallableView::Interrupt(m), CallableView::Interrupt(n)) => {
            same_start("I:"@, m, n);
            lex_less_irreflexive(Seq::empty());
        },
        _ => {},
    }
}

proof fn same_start(p: Seq<char>, a: Seq<char>, b: Seq<char>)
    ensures
        lex_less(p + a, p + b) <==> lex_less(a, b),
    decreases p.len(),
{
    if p.len() == 0 {
        assert(p + a =~= a);
        assert(p + b =~= b);
    } else {
        same_start(p.drop_first(), a, b);
        assert((p + a).drop_first() =~= p.drop_first() + a);
        assert((p + b).drop_first() =~= p.drop_first() + b);
    }
}

} // verus!
