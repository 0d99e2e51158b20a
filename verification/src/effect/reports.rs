//! Which errors effect analysis reports, and what it records of a program
//! without any.
use vstd::prelude::*;

use crate::ast::{AutomatonDecl, Item, Program, StateName, TransitionDecl};
use crate::collections::option_view;
use crate::effect::callable::CallableView;
use crate::effect::category::{
    categories, categories_errors, categories_outcome, category, category_errors,
    destination_errors, distinct_states, distinct_transitions, first_state, first_transition,
    has_state, state_errors, transition_errors, StateView, TransitionView,
};
use crate::effect::error::{EffectError, EffectErrorView};
use crate::effect::laws::{is_well_formed, states_differ, transitions_differ};
use crate::effect::profile::{
    item_errors, listed, mutates_errors, profile_errors, profiles_of, profiles_outcome,
    written_automata, ProfileView,
};
use crate::order::{by_offset, finite_sets_have_an_order, sorting_orders_and_keeps};

verus! {

type Errors = Seq<EffectErrorView>;

proof fn in_both(a: Errors, b: Errors, x: EffectErrorView)
    ensures
        (a + b).contains(x) <==> a.contains(x) || b.contains(x),
{
    let c = a + b;
    if a.contains(x) {
        let i = choose|i: int| 0 <= i < a.len() && a[i] == x;
        assert(c[i] == x);
    }
    if b.contains(x) {
        let i = choose|i: int| 0 <= i < b.len() && b[i] == x;
        assert(c[a.len() + i] == x);
    }
    if c.contains(x) {
        let i = choose|i: int| 0 <= i < c.len() && c[i] == x;
        if i < a.len() {
            assert(a[i] == x);
        } else {
            assert(b[i - a.len()] == x);
        }
    }
}

proof fn in_pushed(a: Errors, y: EffectErrorView, x: EffectErrorView)
    ensures
        a.push(y).contains(x) <==> a.contains(x) || x == y,
{
    assert(a.push(y) =~= a + seq![y]);
    in_both(a, seq![y], x);
    assert(seq![y][0] == y);
}

// ─── States ────────────────────────────────────────────────────────────────

/// The first state of the given name.
pub open spec fn is_first_state(states: Seq<StateName>, name: Seq<char>, i: int) -> bool {
    &&& 0 <= i < states.len()
    &&& states[i].name@ == name
    &&& forall|j: int| 0 <= j < i ==> (#[trigger] states[j]).name@ != name
}

proof fn first_state_is_first(states: Seq<StateName>, name: Seq<char>) -> (i: int)
    ensures
        match first_state(states, name) {
            Some(span) => is_first_state(states, name, i) && states[i].span == span,
            None => forall|j: int| 0 <= j < states.len() ==> (#[trigger] states[j]).name@ != name,
        },
    decreases states.len(),
{
    if states.len() == 0 {
        0
    } else {
        let front = states.drop_last();
        let n = states.len() - 1;
        assert(states[n] == states.last());
        let i = first_state_is_first(front, name);
        assert forall|j: int| 0 <= j < front.len() implies front[j] == #[trigger] states[j] by {}
        if first_state(front, name) is Some {
            assert forall|j: int| 0 <= j < i implies (#[trigger] states[j]).name@ != name by {
                assert(front[j].name@ != name);
            }
            i
        } else {
            assert forall|j: int| 0 <= j < n implies (#[trigger] states[j]).name@ != name by {
                assert(front[j].name@ != name);
            }
            n
        }
    }
}

/// A state repeats the first of its name.
pub open spec fn repeats_state(
    states: Seq<StateName>,
    i: int,
    j: int,
    automaton: Seq<char>,
    x: EffectErrorView,
) -> bool {
    &&& i < j < states.len()
    &&& is_first_state(states, states[j].name@, i)
    &&& x == (EffectErrorView::DuplicateState {
        automaton,
        state: states[j].name@,
        original_at: states[i].span.start as nat,
        duplicate_at: states[j].span.start as nat,
    })
}

/// Exactly the states that repeat an earlier one are reported, with the places
/// of the first of the name and of the repetition.
pub proof fn repeated_states_are_reported(
    automaton: Seq<char>,
    states: Seq<StateName>,
    x: EffectErrorView,
)
    ensures
        state_errors(automaton, states).contains(x) <==> exists|i: int, j: int|
            repeats_state(states, i, j, automaton, x),
    decreases states.len(),
{
    if states.len() > 0 {
        let front = states.drop_last();
        let n = states.len() - 1;
        let s = states.last();
        assert(states[n] == s);
        assert forall|k: int| 0 <= k < n implies front[k] == #[trigger] states[k] by {}
        repeated_states_are_reported(automaton, front, x);
        let f = first_state_is_first(front, s.name@);
        if first_state(front, s.name@) is Some {
            let y = EffectErrorView::DuplicateState {
                automaton,
                state: s.name@,
                original_at: front[f].span.start as nat,
                duplicate_at: s.span.start as nat,
            };
            in_pushed(state_errors(automaton, front), y, x);
            assert(is_first_state(states, s.name@, f)) by {
                assert forall|k: int| 0 <= k < f implies (#[trigger] states[k]).name@
                    != s.name@ by {
                    assert(front[k].name@ != s.name@);
                }
            }
            if x == y {
                assert(repeats_state(states, f, n, automaton, x));
            }
        }
        if exists|i: int, j: int| repeats_state(front, i, j, automaton, x) {
            let (i, j) = choose|i: int, j: int| repeats_state(front, i, j, automaton, x);
            assert forall|k: int| 0 <= k < i implies (#[trigger] states[k]).name@
                != states[j].name@ by {
                assert(front[k].name@ != front[j].name@);
            }
            assert(repeats_state(states, i, j, automaton, x));
        }
        if exists|i: int, j: int| repeats_state(states, i, j, automaton, x) {
            let (i, j) = choose|i: int, j: int| repeats_state(states, i, j, automaton, x);
            if j < n {
                assert forall|k: int| 0 <= k < i implies (#[trigger] front[k]).name@
                    != front[j].name@ by {
                    assert(states[k].name@ != states[j].name@);
                }
                assert(repeats_state(front, i, j, automaton, x));
            } else {
                assert(front[i].name@ == s.name@);
                if f < i {
                    assert(states[f].name@ != s.name@);
                }
                if i < f {
                    assert(front[i].name@ != s.name@);
                }
            }
        }
    }
}

// ─── Transitions ───────────────────────────────────────────────────────────

/// The first transition of the given name.
pub open spec fn is_first_transition(ts: Seq<TransitionDecl>, name: Seq<char>, i: int) -> bool {
    &&& 0 <= i < ts.len()
    &&& ts[i].name@ == name
    &&& forall|j: int| 0 <= j < i ==> (#[trigger] ts[j]).name@ != name
}

proof fn first_transition_is_first(ts: Seq<TransitionDecl>, name: Seq<char>) -> (i: int)
    ensures
        match first_transition(ts, name) {
            Some(span) => is_first_transition(ts, name, i) && ts[i].span == span,
            None => forall|j: int| 0 <= j < ts.len() ==> (#[trigger] ts[j]).name@ != name,
        },
    decreases ts.len(),
{
    if ts.len() == 0 {
        0
    } else {
        let front = ts.drop_last();
        let n = ts.len() - 1;
        assert(ts[n] == ts.last());
        let i = first_transition_is_first(front, name);
        assert forall|j: int| 0 <= j < front.len() implies front[j] == #[trigger] ts[j] by {}
        if first_transition(front, name) is Some {
            assert forall|j: int| 0 <= j < i implies (#[trigger] ts[j]).name@ != name by {
                assert(front[j].name@ != name);
            }
            i
        } else {
            assert forall|j: int| 0 <= j < n implies (#[trigger] ts[j]).name@ != name by {
                assert(front[j].name@ != name);
            }
            n
        }
    }
}

/// What is wrong with the `j`th transition: it repeats the first of its name,
/// or it leads to a state although the automaton has none, or to one that the
/// automaton does not have.
pub open spec fn transition_fault(
    ts: Seq<TransitionDecl>,
    j: int,
    automaton: Seq<char>,
    states: Seq<StateView>,
    is_monoid: bool,
    x: EffectErrorView,
) -> bool {
    let t = ts[j];
    &&& 0 <= j < ts.len()
    &&& {
        ||| exists|i: int|
            i < j && #[trigger] is_first_transition(ts, t.name@, i) && x == (
            EffectErrorView::DuplicateTransition {
                automaton,
                transition: t.name@,
                original_at: ts[i].span.start as nat,
                duplicate_at: t.span.start as nat,
            })
        ||| is_first_transition(ts, t.name@, j) && t.destination is Some && is_monoid && x == (
        EffectErrorView::MonoidTransitionWithDestination {
            automaton,
            transition: t.name@,
            target: t.destination->0@,
            at: t.span.start as nat,
        })
        ||| is_first_transition(ts, t.name@, j) && t.destination is Some && !is_monoid && (forall|
            k: int,
        |
            0 <= k < states.len() ==> (#[trigger] states[k]).name != t.destination->0@) && x == (
        EffectErrorView::UnknownState {
            automaton,
            transition: t.name@,
            target: t.destination->0@,
            at: t.span.start as nat,
        })
    }
}

proof fn fault_in_front(
    ts: Seq<TransitionDecl>,
    j: int,
    automaton: Seq<char>,
    states: Seq<StateView>,
    is_monoid: bool,
    x: EffectErrorView,
)
    requires
        0 <= j < ts.len() - 1,
    ensures
        transition_fault(ts, j, automaton, states, is_monoid, x) <==> transition_fault(
            ts.drop_last(),
            j,
            automaton,
            states,
            is_monoid,
            x,
        ),
{
    let front = ts.drop_last();
    let name = ts[j].name@;
    assert forall|k: int| 0 <= k < front.len() implies front[k] == #[trigger] ts[k] by {}
    assert forall|i: int| i <= j implies (#[trigger] is_first_transition(ts, name, i)
        <==> is_first_transition(front, name, i)) by {
        if is_first_transition(ts, name, i) {
            assert forall|k: int| 0 <= k < i implies (#[trigger] front[k]).name@ != name by {
                assert(ts[k].name@ != name);
            }
        }
        if is_first_transition(front, name, i) {
            assert forall|k: int| 0 <= k < i implies (#[trigger] ts[k]).name@ != name by {
                assert(front[k].name@ != name);
            }
        }
    }
    if transition_fault(ts, j, automaton, states, is_monoid, x) && x is DuplicateTransition {
        let i = choose|i: int|
            i < j && #[trigger] is_first_transition(ts, name, i) && x == (
            EffectErrorView::DuplicateTransition {
                automaton,
                transition: name,
                original_at: ts[i].span.start as nat,
                duplicate_at: ts[j].span.start as nat,
            });
        assert(is_first_transition(front, name, i));
    }
    if transition_fault(front, j, automaton, states, is_monoid, x) && x is DuplicateTransition {
        let i = choose|i: int|
            i < j && #[trigger] is_first_transition(front, name, i) && x == (
            EffectErrorView::DuplicateTransition {
                automaton,
                transition: name,
                original_at: front[i].span.start as nat,
                duplicate_at: front[j].span.start as nat,
            });
        assert(is_first_transition(ts, name, i));
    }
    assert(is_first_transition(ts, name, j) <==> is_first_transition(front, name, j));
}

/// The error is a fault of one of the transitions.
pub open spec fn some_transition_fault(
    ts: Seq<TransitionDecl>,
    automaton: Seq<char>,
    states: Seq<StateView>,
    is_monoid: bool,
    x: EffectErrorView,
) -> bool {
    exists|j: int| transition_fault(ts, j, automaton, states, is_monoid, x)
}

/// Exactly the transitions with a fault are reported, each with its own.
pub proof fn faulty_transitions_are_reported(
    automaton: Seq<char>,
    ts: Seq<TransitionDecl>,
    states: Seq<StateView>,
    is_monoid: bool,
    x: EffectErrorView,
)
    ensures
        transition_errors(automaton, ts, states, is_monoid).contains(x) <==> exists|j: int|
            transition_fault(ts, j, automaton, states, is_monoid, x),
    decreases ts.len(),
{
    if ts.len() > 0 {
        let front = ts.drop_last();
        let n = ts.len() - 1;
        let t = ts.last();
        assert(ts[n] == t);
        assert forall|k: int| 0 <= k < n implies front[k] == #[trigger] ts[k] by {}
        faulty_transitions_are_reported(automaton, front, states, is_monoid, x);
        let f = first_transition_is_first(front, t.name@);
        let own = match first_transition(front, t.name@) {
            Some(original) => seq![
                EffectErrorView::DuplicateTransition {
                    automaton,
                    transition: t.name@,
                    original_at: original.start as nat,
                    duplicate_at: t.span.start as nat,
                },
            ],
            None => destination_errors(automaton, t, states, is_monoid),
        };
        in_both(transition_errors(automaton, front, states, is_monoid), own, x);
        assert(own.contains(x) <==> transition_fault(ts, n, automaton, states, is_monoid, x)) by {
            if first_transition(front, t.name@) is Some {
                assert(is_first_transition(ts, t.name@, f)) by {
                    assert forall|k: int| 0 <= k < f implies (#[trigger] ts[k]).name@
                        != t.name@ by {
                        assert(front[k].name@ != t.name@);
                    }
                }
                assert(!is_first_transition(ts, t.name@, n)) by {
                    assert(ts[f].name@ == t.name@);
                }
                assert(own[0] == own.last());
                assert forall|i: int| #[trigger]
                    is_first_transition(ts, t.name@, i) implies i == f by {
                    if i < f {
                        assert(ts[i].name@ != t.name@);
                    }
                    if f < i {
                        assert(ts[f].name@ != t.name@);
                    }
                }
            } else {
                assert forall|k: int| 0 <= k < n implies (#[trigger] ts[k]).name@ != t.name@ by {
                    assert(front[k].name@ != t.name@);
                }
                assert(is_first_transition(ts, t.name@, n));
                assert forall|i: int| i < n implies !(#[trigger] is_first_transition(
                    ts,
                    t.name@,
                    i,
                )) by {}
                if t.destination is Some {
                    let dest = t.destination->0@;
                    if has_state(states, dest) {
                        let k = choose|k: int|
                            0 <= k < states.len() && (#[trigger] states[k]).name == dest;
                        assert(states[k].name == dest);
                    }
                    if own.len() > 0 {
                        assert(own[0] == own.last());
                    }
                }
            }
        }
        if exists|j: int| transition_fault(front, j, automaton, states, is_monoid, x) {
            let j = choose|j: int| transition_fault(front, j, automaton, states, is_monoid, x);
            fault_in_front(ts, j, automaton, states, is_monoid, x);
        }
        if exists|j: int| transition_fault(ts, j, automaton, states, is_monoid, x) {
            let j = choose|j: int| transition_fault(ts, j, automaton, states, is_monoid, x);
            if j < n {
                fault_in_front(ts, j, automaton, states, is_monoid, x);
            }
        }
    }
}

// ─── Categories ────────────────────────────────────────────────────────────

proof fn differing_states_stay(states: Seq<StateName>)
    requires
        states_differ(states),
    ensures
        distinct_states(states) =~= Seq::new(
            states.len(),
            |i: int| StateView { name: states[i].name@, span: states[i].span },
        ),
    decreases states.len(),
{
    if states.len() > 0 {
        let front = states.drop_last();
        assert forall|i: int, j: int| 0 <= i < j < front.len() implies (#[trigger] front[i]).name@
            != (#[trigger] front[j]).name@ by {
            assert(states[i].name@ != states[j].name@);
        }
        differing_states_stay(front);
        let i = first_state_is_first(front, states.last().name@);
        if first_state(front, states.last().name@) is Some {
            assert(states[i].name@ != states[states.len() - 1].name@);
        }
    }
}

proof fn differing_transitions_stay(ts: Seq<TransitionDecl>)
    requires
        transitions_differ(ts),
    ensures
        distinct_transitions(ts) =~= Seq::new(
            ts.len(),
            |i: int|
                TransitionView {
                    name: ts[i].name@,
                    transition_index: i as nat,
                    destination: option_view(ts[i].destination),
                    span: ts[i].span,
                },
        ),
    decreases ts.len(),
{
    if ts.len() > 0 {
        let front = ts.drop_last();
        assert forall|i: int, j: int| 0 <= i < j < front.len() implies (#[trigger] front[i]).name@
            != (#[trigger] front[j]).name@ by {
            assert(ts[i].name@ != ts[j].name@);
        }
        differing_transitions_stay(front);
        let i = first_transition_is_first(front, ts.last().name@);
        if first_transition(front, ts.last().name@) is Some {
            assert(ts[i].name@ != ts[ts.len() - 1].name@);
        }
    }
}

/// The category of a well-formed automaton has the declared states and
/// transitions, all of them and in order. It starts in the first state. Without
/// declared states it has a single one.
pub proof fn categories_hold_what_is_declared(d: AutomatonDecl, item_index: nat)
    requires
        is_well_formed(d),
    ensures
        ({
            let c = category(d, item_index);
            &&& c.name == d.name@
            &&& c.item_index == item_index
            &&& c.initial == 0
            &&& c.is_monoid <==> d.states is None
            &&& c.states == match d.states {
                Some(states) => Seq::new(
                    states@.len(),
                    |i: int| StateView { name: states@[i].name@, span: states@[i].span },
                ),
                None => seq![StateView { name: "Ready"@, span: d.span }],
            }
            &&& c.transitions == Seq::new(
                d.transitions@.len(),
                |i: int|
                    TransitionView {
                        name: d.transitions@[i].name@,
                        transition_index: i as nat,
                        destination: option_view(d.transitions@[i].destination),
                        span: d.transitions@[i].span,
                    },
            )
        }),
{
    if let Some(states) = d.states {
        differing_states_stay(states@);
    }
    differing_transitions_stay(d.transitions@);
}

/// The category of an automaton is that of its last declaration, and only
/// declared automatons have one.
pub proof fn the_last_declaration_has_the_category(items: Seq<Item>, name: Seq<char>, j: int)
    ensures
        0 <= j < items.len() && items[j] is Automaton && items[j]->Automaton_0.name@ == name && (
        forall|k: int|
            j < k < items.len() ==> !(#[trigger] items[k] is Automaton
                && items[k]->Automaton_0.name@ == name)) ==> categories(items).dom().contains(name)
            && categories(items)[name] == category(items[j]->Automaton_0, j as nat),
        categories(items).dom().contains(name) ==> exists|k: int|
            0 <= k < items.len() && #[trigger] items[k] is Automaton && items[k]->Automaton_0.name@
                == name,
    decreases items.len(),
{
    if items.len() > 0 {
        let front = items.drop_last();
        let n = items.len() - 1;
        assert(items[n] == items.last());
        assert forall|k: int| 0 <= k < n implies front[k] == #[trigger] items[k] by {}
        the_last_declaration_has_the_category(front, name, j);
        if 0 <= j < n && (forall|k: int|
            j < k < items.len() ==> !(#[trigger] items[k] is Automaton
                && items[k]->Automaton_0.name@ == name)) {
            assert forall|k: int| j < k < front.len() implies !(#[trigger] front[k] is Automaton
                && front[k]->Automaton_0.name@ == name) by {
                assert(front[k] == items[k]);
            }
            assert(!(items[n] is Automaton && items[n]->Automaton_0.name@ == name));
        }
        if categories(front).dom().contains(name) {
            let k = choose|k: int|
                0 <= k < front.len() && #[trigger] front[k] is Automaton
                    && front[k]->Automaton_0.name@ == name;
            assert(items[k] is Automaton);
        }
    }
}

/// The error is one of an automaton: a repeated state, or a fault of one of its
/// transitions.
pub open spec fn automaton_fault(item: Item, x: EffectErrorView) -> bool {
    match item {
        Item::Automaton(d) => {
            ||| d.states is Some && exists|i: int, j: int|
                repeats_state(d.states->0@, i, j, d.name@, x)
            ||| some_transition_fault(
                d.transitions@,
                d.name@,
                category(d, 0).states,
                d.states is None,
                x,
            )
        },
        _ => false,
    }
}

proof fn category_faults(items: Seq<Item>, x: EffectErrorView)
    ensures
        categories_errors(items).contains(x) <==> exists|i: int|
            0 <= i < items.len() && automaton_fault(#[trigger] items[i], x),
    decreases items.len(),
{
    if items.len() > 0 {
        let front = items.drop_last();
        let n = items.len() - 1;
        assert(items[n] == items.last());
        category_faults(front, x);
        if let Item::Automaton(d) = items.last() {
            let states = match d.states {
                None => Seq::empty(),
                Some(states) => state_errors(d.name@, states@),
            };
            let rest = transition_errors(
                d.name@,
                d.transitions@,
                category(d, 0).states,
                d.states is None,
            );
            in_both(categories_errors(front), category_errors(d), x);
            in_both(states, rest, x);
            if d.states is Some {
                repeated_states_are_reported(d.name@, d.states->0@, x);
            }
            faulty_transitions_are_reported(
                d.name@,
                d.transitions@,
                category(d, 0).states,
                d.states is None,
                x,
            );
            assert(category_errors(d).contains(x) <==> automaton_fault(items[n], x));
        }
        if exists|i: int| 0 <= i < front.len() && automaton_fault(#[trigger] front[i], x) {
            let i = choose|i: int| 0 <= i < front.len() && automaton_fault(#[trigger] front[i], x);
            assert(automaton_fault(items[i], x));
        }
        if exists|i: int| 0 <= i < items.len() && automaton_fault(#[trigger] items[i], x) {
            let i = choose|i: int| 0 <= i < items.len() && automaton_fault(#[trigger] items[i], x);
            if i < n {
                assert(automaton_fault(front[i], x));
            }
        }
    }
}

proof fn sorting_keeps_members(s: Errors, x: EffectErrorView)
    ensures
        crate::order::stable_sorted(s, by_offset::<EffectError>()).contains(x) <==> s.contains(x),
{
    let r = crate::order::stable_sorted(s, by_offset::<EffectError>());
    sorting_orders_and_keeps(s, by_offset::<EffectError>());
    r.to_multiset_ensures();
    s.to_multiset_ensures();
    assert(r.contains(x) <==> r.to_multiset().count(x) > 0);
    assert(s.contains(x) <==> s.to_multiset().count(x) > 0);
}

/// The extraction of categories reports exactly the faults of the automatons of
/// the program.
pub proof fn exactly_the_faults_of_automatons_are_reported(items: Seq<Item>, x: EffectErrorView)
    ensures
        (categories_outcome(items) is Err && categories_outcome(items)->Err_0.contains(x))
            <==> exists|i: int| 0 <= i < items.len() && automaton_fault(#[trigger] items[i], x),
{
    category_faults(items, x);
    sorting_keeps_members(categories_errors(items), x);
    if categories_errors(items).len() == 0 {
        assert(!categories_errors(items).contains(x));
    }
}

// ─── Profiles ──────────────────────────────────────────────────────────────

/// The error is that a callable writes an automaton, by itself or through a
/// call, that it does not list or that it forbids itself.
pub open spec fn write_fault(
    profiles: Map<CallableView, ProfileView>,
    item: Item,
    automaton: Seq<char>,
    x: EffectErrorView,
) -> bool {
    match item {
        Item::Effect(d) => {
            let id = CallableView::Effect(d.name@);
            let at = d.span.start as nat;
            &&& profiles.dom().contains(id)
            &&& profiles[id].automata.contains(automaton)
            &&& {
                ||| !listed(d.mutates@, automaton) && x == (
                EffectErrorView::EffectMutatesUndeclaredAutomaton {
                    callable: d.name@,
                    automaton,
                    at,
                })
                ||| listed(d.cannot_mutate@, automaton) && x == (
                EffectErrorView::EffectMutatesExcludedAutomaton {
                    callable: d.name@,
                    automaton,
                    at,
                })
            }
        },
        Item::Interrupt(d) => {
            let id = CallableView::Interrupt(d.name@);
            &&& profiles.dom().contains(id)
            &&& profiles[id].automata.contains(automaton)
            &&& !listed(d.mutates@, automaton)
            &&& x == (EffectErrorView::EffectMutatesUndeclaredAutomaton {
                callable: d.name@,
                automaton,
                at: d.span.start as nat,
            })
        },
        _ => false,
    }
}

/// The error is one of the write to an automaton.
spec fn is_fault_of(
    callable: Seq<char>,
    at: nat,
    mutates: Seq<String>,
    cannot_mutate: Seq<String>,
    automaton: Seq<char>,
    x: EffectErrorView,
) -> bool {
    ||| !listed(mutates, automaton) && x == (EffectErrorView::EffectMutatesUndeclaredAutomaton {
        callable,
        automaton,
        at,
    })
    ||| listed(cannot_mutate, automaton) && x == (EffectErrorView::EffectMutatesExcludedAutomaton {
        callable,
        automaton,
        at,
    })
}

proof fn faults_of_writes(
    callable: Seq<char>,
    at: nat,
    mutates: Seq<String>,
    cannot_mutate: Seq<String>,
    names: Seq<Seq<char>>,
    x: EffectErrorView,
)
    ensures
        mutates_errors(callable, at, mutates, cannot_mutate, names).contains(x) <==> exists|i: int|
            0 <= i < names.len() && is_fault_of(
                callable,
                at,
                mutates,
                cannot_mutate,
                #[trigger] names[i],
                x,
            ),
    decreases names.len(),
{
    if names.len() > 0 {
        let front = names.drop_last();
        let n = names.len() - 1;
        let a = names.last();
        assert(names[n] == a);
        faults_of_writes(callable, at, mutates, cannot_mutate, front, x);
        let first = if listed(mutates, a) {
            Seq::empty()
        } else {
            seq![
                EffectErrorView::EffectMutatesUndeclaredAutomaton { callable, automaton: a, at },
            ]
        };
        let second = if listed(cannot_mutate, a) {
            seq![EffectErrorView::EffectMutatesExcludedAutomaton { callable, automaton: a, at }]
        } else {
            Seq::empty()
        };
        let before = mutates_errors(callable, at, mutates, cannot_mutate, front);
        in_both(before + first, second, x);
        in_both(before, first, x);
        assert(first.contains(x) || second.contains(x) <==> is_fault_of(
            callable,
            at,
            mutates,
            cannot_mutate,
            a,
            x,
        )) by {
            if first.len() > 0 {
                assert(first[0] == first.last());
            }
            if second.len() > 0 {
                assert(second[0] == second.last());
            }
        }
        if exists|i: int|
            0 <= i < front.len() && is_fault_of(
                callable,
                at,
                mutates,
                cannot_mutate,
                #[trigger] front[i],
                x,
            ) {
            let i = choose|i: int|
                0 <= i < front.len() && is_fault_of(
                    callable,
                    at,
                    mutates,
                    cannot_mutate,
                    #[trigger] front[i],
                    x,
                );
            assert(names[i] == front[i]);
        }
        if exists|i: int|
            0 <= i < names.len() && is_fault_of(
                callable,
                at,
                mutates,
                cannot_mutate,
                #[trigger] names[i],
                x,
            ) {
            let i = choose|i: int|
                0 <= i < names.len() && is_fault_of(
                    callable,
                    at,
                    mutates,
                    cannot_mutate,
                    #[trigger] names[i],
                    x,
                );
            if i < n {
                assert(names[i] == front[i]);
            }
        }
    }
}

proof fn faults_of_a_callable(
    profiles: Map<CallableView, ProfileView>,
    id: CallableView,
    callable: Seq<char>,
    at: nat,
    mutates: Seq<String>,
    cannot_mutate: Seq<String>,
    x: EffectErrorView,
)
    requires
        profiles.dom().contains(id) ==> profiles[id].automata.finite(),
    ensures
        mutates_errors(
            callable,
            at,
            mutates,
            cannot_mutate,
            written_automata(profiles, id),
        ).contains(x) <==> exists|a: Seq<char>|
            profiles.dom().contains(id) && #[trigger] profiles[id].automata.contains(a)
                && is_fault_of(callable, at, mutates, cannot_mutate, a, x),
{
    let names = written_automata(profiles, id);
    faults_of_writes(callable, at, mutates, cannot_mutate, names, x);
    if profiles.dom().contains(id) {
        finite_sets_have_an_order::<String>(profiles[id].automata);
        let set = profiles[id].automata;
        assert(names.to_set() == set);
        if exists|i: int|
            0 <= i < names.len() && is_fault_of(
                callable,
                at,
                mutates,
                cannot_mutate,
                #[trigger] names[i],
                x,
            ) {
            let i = choose|i: int|
                0 <= i < names.len() && is_fault_of(
                    callable,
                    at,
                    mutates,
                    cannot_mutate,
                    #[trigger] names[i],
                    x,
                );
            assert(names.to_set().contains(names[i]));
            assert(set.contains(names[i]));
        }
        if exists|a: Seq<char>| #[trigger]
            set.contains(a) && is_fault_of(callable, at, mutates, cannot_mutate, a, x) {
            let a = choose|a: Seq<char>| #[trigger]
                set.contains(a) && is_fault_of(callable, at, mutates, cannot_mutate, a, x);
            assert(names.to_set().contains(a));
            let i = choose|i: int| 0 <= i < names.len() && names[i] == a;
            assert(names[i] == a);
        }
    }
}

proof fn faults_of_items(
    profiles: Map<CallableView, ProfileView>,
    items: Seq<Item>,
    x: EffectErrorView,
)
    requires
        forall|id: CallableView|
            profiles.dom().contains(id) ==> (#[trigger] profiles[id]).automata.finite(),
    ensures
        profile_errors(profiles, items).contains(x) <==> exists|i: int, a: Seq<char>|
            0 <= i < items.len() && #[trigger] write_fault(profiles, items[i], a, x),
    decreases items.len(),
{
    if items.len() > 0 {
        let front = items.drop_last();
        let n = items.len() - 1;
        let last = items.last();
        assert(items[n] == last);
        faults_of_items(profiles, front, x);
        in_both(profile_errors(profiles, front), item_errors(profiles, last), x);
        match last {
            Item::Effect(d) => {
                let id = CallableView::Effect(d.name@);
                faults_of_a_callable(
                    profiles,
                    id,
                    d.name@,
                    d.span.start as nat,
                    d.mutates@,
                    d.cannot_mutate@,
                    x,
                );
                if item_errors(profiles, last).contains(x) {
                    let a = choose|a: Seq<char>|
                        profiles.dom().contains(id) && #[trigger] profiles[id].automata.contains(a)
                            && is_fault_of(
                            d.name@,
                            d.span.start as nat,
                            d.mutates@,
                            d.cannot_mutate@,
                            a,
                            x,
                        );
                    assert(write_fault(profiles, items[n], a, x));
                }
                if exists|a: Seq<char>| write_fault(profiles, last, a, x) {
                    let a = choose|a: Seq<char>| write_fault(profiles, last, a, x);
                    assert(profiles[id].automata.contains(a));
                }
            },
            Item::Interrupt(d) => {
                let id = CallableView::Interrupt(d.name@);
                let none = Seq::<String>::empty();
                faults_of_a_callable(
                    profiles,
                    id,
                    d.name@,
                    d.span.start as nat,
                    d.mutates@,
                    none,
                    x,
                );
                assert forall|a: Seq<char>| !listed(none, a) by {
                    assert(crate::collections::views(none).len() == 0);
                }
                if item_errors(profiles, last).contains(x) {
                    let a = choose|a: Seq<char>|
                        profiles.dom().contains(id) && #[trigger] profiles[id].automata.contains(a)
                            && is_fault_of(
                            d.name@,
                            d.span.start as nat,
                            d.mutates@,
                            none,
                            a,
                            x,
                        );
                    assert(!listed(none, a));
                    assert(write_fault(profiles, items[n], a, x));
                }
                if exists|a: Seq<char>| write_fault(profiles, last, a, x) {
                    let a = choose|a: Seq<char>| write_fault(profiles, last, a, x);
                    assert(profiles[id].automata.contains(a));
                }
            },
            _ => {},
        }
        assert(item_errors(profiles, last).contains(x) <==> exists|a: Seq<char>|
            write_fault(profiles, last, a, x));
        if exists|i: int, a: Seq<char>|
            0 <= i < front.len() && #[trigger] write_fault(profiles, front[i], a, x) {
            let (i, a) = choose|i: int, a: Seq<char>|
                0 <= i < front.len() && #[trigger] write_fault(profiles, front[i], a, x);
            assert(write_fault(profiles, items[i], a, x));
        }
        if item_errors(profiles, last).contains(x) {
            let a = choose|a: Seq<char>| write_fault(profiles, last, a, x);
            assert(write_fault(profiles, items[n], a, x));
        }
        if exists|i: int, a: Seq<char>|
            0 <= i < items.len() && #[trigger] write_fault(profiles, items[i], a, x) {
            let (i, a) = choose|i: int, a: Seq<char>|
                0 <= i < items.len() && #[trigger] write_fault(profiles, items[i], a, x);
            if i < n {
                assert(write_fault(profiles, front[i], a, x));
            } else {
                assert(write_fault(profiles, last, a, x));
            }
        }
    }
}

/// The extraction of profiles reports exactly the writes, by the callables
/// themselves or through their calls, that their lists do not allow. For each it
/// names the callable and the automaton and points at the callable.
pub proof fn exactly_the_writes_against_the_lists_are_reported(
    program: Program,
    resolution: crate::resolve::Resolution,
    x: EffectErrorView,
)
    ensures
        (profiles_outcome(program, resolution) is Err && profiles_outcome(
            program,
            resolution,
        )->Err_0.contains(x)) <==> exists|i: int, a: Seq<char>|
            0 <= i < program.items@.len() && #[trigger] write_fault(
                profiles_of(crate::effect::direct::program_effects(program, resolution)),
                program.items@[i],
                a,
                x,
            ),
{
    let direct = crate::effect::direct::program_effects(program, resolution);
    let profiles = profiles_of(direct);
    crate::effect::laws::written_automata_are_few(program, resolution);
    faults_of_items(profiles, program.items@, x);
    let errors = profile_errors(profiles, program.items@);
    sorting_keeps_members(errors, x);
    if errors.len() == 0 {
        assert(!errors.contains(x));
    }
}

} // verus!
