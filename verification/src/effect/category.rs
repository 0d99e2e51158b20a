//! Automatons as categories: states are the objects, transitions the morphisms.
use vstd::prelude::*;

use crate::ast::{AutomatonDecl, Item, Program, Span, StateName, TransitionDecl};
use crate::collections::{copy_option, entries_map, entry_keys, option_view, views, KeyMap};
use crate::effect::error::{EffectError, EffectErrorView};
use crate::order::{by_offset, sort_by_offset, stable_sorted};
use crate::text::same;

verus! {

// ─── Data ──────────────────────────────────────────────────────────────────

/// A state of an automaton.
#[derive(Debug, PartialEq, Eq)]
pub struct StateInfo {
    pub name: String,
    /// Where the state is declared; for `Ready`, the whole automaton.
    pub span: Span,
}

/// A transition of an automaton.
#[derive(Debug, PartialEq, Eq)]
pub struct TransitionInfo {
    pub name: String,
    /// The transition's place among the declared ones.
    pub transition_index: usize,
    /// The state it leads to, where it names one.
    pub destination: Option<String>,
    pub span: Span,
}

/// An automaton with its states and transitions.
#[derive(Debug, PartialEq, Eq)]
pub struct AutomatonCategory {
    pub name: String,
    /// The automaton's place among the program's items.
    pub item_index: usize,
    /// The automaton declares no states and has the single state `Ready`.
    pub is_monoid: bool,
    pub states: Vec<StateInfo>,
    pub transitions: Vec<TransitionInfo>,
    /// The place of the initial state: always the first.
    pub initial: usize,
}

/// The categories of a program's automatons, by name.
#[derive(Debug, PartialEq, Eq)]
pub struct Categories {
    map: KeyMap<String, AutomatonCategory>,
}

// ─── Model ─────────────────────────────────────────────────────────────────

/// A state.
pub ghost struct StateView {
    pub name: Seq<char>,
    pub span: Span,
}

/// A transition.
pub ghost struct TransitionView {
    pub name: Seq<char>,
    pub transition_index: nat,
    pub destination: Option<Seq<char>>,
    pub span: Span,
}

/// A category.
pub ghost struct CategoryView {
    pub name: Seq<char>,
    pub item_index: nat,
    pub is_monoid: bool,
    pub states: Seq<StateView>,
    pub transitions: Seq<TransitionView>,
    pub initial: nat,
}

impl View for StateInfo {
    type V = StateView;

    open spec fn view(&self) -> StateView {
        StateView { name: self.name@, span: self.span }
    }
}

impl View for TransitionInfo {
    type V = TransitionView;

    open spec fn view(&self) -> TransitionView {
        TransitionView {
            name: self.name@,
            transition_index: self.transition_index as nat,
            destination: option_view(self.destination),
            span: self.span,
        }
    }
}

impl View for AutomatonCategory {
    type V = CategoryView;

    open spec fn view(&self) -> CategoryView {
        CategoryView {
            name: self.name@,
            item_index: self.item_index as nat,
            is_monoid: self.is_monoid,
            states: views(self.states@),
            transitions: views(self.transitions@),
            initial: self.initial as nat,
        }
    }
}

impl View for Categories {
    type V = Map<Seq<char>, CategoryView>;

    closed spec fn view(&self) -> Map<Seq<char>, CategoryView> {
        self.map@
    }
}

/// The first of the states that has the given name.
pub open spec fn first_state(states: Seq<StateName>, name: Seq<char>) -> Option<Span>
    decreases states.len(),
{
    if states.len() == 0 {
        None
    } else {
        match first_state(states.drop_last(), name) {
            Some(s) => Some(s),
            None => if states.last().name@ == name {
                Some(states.last().span)
            } else {
                None
            },
        }
    }
}

/// The declared states without repetitions; the first of a name stays.
pub open spec fn distinct_states(states: Seq<StateName>) -> Seq<StateView>
    decreases states.len(),
{
    if states.len() == 0 {
        Seq::empty()
    } else {
        let front = states.drop_last();
        let s = states.last();
        match first_state(front, s.name@) {
            Some(_) => distinct_states(front),
            None => distinct_states(front).push(StateView { name: s.name@, span: s.span }),
        }
    }
}

/// One error for every repetition of a state.
pub open spec fn state_errors(automaton: Seq<char>, states: Seq<StateName>) -> Seq<EffectErrorView>
    decreases states.len(),
{
    if states.len() == 0 {
        Seq::empty()
    } else {
        let front = states.drop_last();
        let s = states.last();
        match first_state(front, s.name@) {
            Some(original) => state_errors(automaton, front).push(
                EffectErrorView::DuplicateState {
                    automaton,
                    state: s.name@,
                    original_at: original.start as nat,
                    duplicate_at: s.span.start as nat,
                },
            ),
            None => state_errors(automaton, front),
        }
    }
}

/// The first of the transitions that has the given name.
pub open spec fn first_transition(ts: Seq<TransitionDecl>, name: Seq<char>) -> Option<Span>
    decreases ts.len(),
{
    if ts.len() == 0 {
        None
    } else {
        match first_transition(ts.drop_last(), name) {
            Some(s) => Some(s),
            None => if ts.last().name@ == name {
                Some(ts.last().span)
            } else {
                None
            },
        }
    }
}

/// The declared transitions without repetitions; the first of a name stays.
pub open spec fn distinct_transitions(ts: Seq<TransitionDecl>) -> Seq<TransitionView>
    decreases ts.len(),
{
    if ts.len() == 0 {
        Seq::empty()
    } else {
        let front = ts.drop_last();
        let t = ts.last();
        match first_transition(front, t.name@) {
            Some(_) => distinct_transitions(front),
            None => distinct_transitions(front).push(
                TransitionView {
                    name: t.name@,
                    transition_index: front.len(),
                    destination: option_view(t.destination),
                    span: t.span,
                },
            ),
        }
    }
}

/// One of the states has the given name.
pub open spec fn has_state(states: Seq<StateView>, name: Seq<char>) -> bool {
    exists|i: int| 0 <= i < states.len() && (#[trigger] states[i]).name == name
}

/// What is wrong with the destination of a transition.
pub open spec fn destination_errors(
    automaton: Seq<char>,
    t: TransitionDecl,
    states: Seq<StateView>,
    is_monoid: bool,
) -> Seq<EffectErrorView> {
    match t.destination {
        None => Seq::empty(),
        Some(dest) => if is_monoid {
            seq![
                EffectErrorView::MonoidTransitionWithDestination {
                    automaton,
                    transition: t.name@,
                    target: dest@,
                    at: t.span.start as nat,
                },
            ]
        } else if !has_state(states, dest@) {
            seq![
                EffectErrorView::UnknownState {
                    automaton,
                    transition: t.name@,
                    target: dest@,
                    at: t.span.start as nat,
                },
            ]
        } else {
            Seq::empty()
        },
    }
}

/// One error for every repetition of a transition and for every bad destination.
pub open spec fn transition_errors(
    automaton: Seq<char>,
    ts: Seq<TransitionDecl>,
    states: Seq<StateView>,
    is_monoid: bool,
) -> Seq<EffectErrorView>
    decreases ts.len(),
{
    if ts.len() == 0 {
        Seq::empty()
    } else {
        let front = ts.drop_last();
        let t = ts.last();
        transition_errors(automaton, front, states, is_monoid) + match first_transition(
            front,
            t.name@,
        ) {
            Some(original) => seq![
                EffectErrorView::DuplicateTransition {
                    automaton,
                    transition: t.name@,
                    original_at: original.start as nat,
                    duplicate_at: t.span.start as nat,
                },
            ],
            None => destination_errors(automaton, t, states, is_monoid),
        }
    }
}

/// The category of a declared automaton.
pub open spec fn category(d: AutomatonDecl, item_index: nat) -> CategoryView {
    CategoryView {
        name: d.name@,
        item_index,
        is_monoid: d.states is None,
        states: match d.states {
            None => seq![StateView { name: "Ready"@, span: d.span }],
            Some(states) => distinct_states(states@),
        },
        transitions: distinct_transitions(d.transitions@),
        initial: 0,
    }
}

/// What is wrong with a declared automaton: its states first, then its transitions.
pub open spec fn category_errors(d: AutomatonDecl) -> Seq<EffectErrorView> {
    (match d.states {
        None => Seq::empty(),
        Some(states) => state_errors(d.name@, states@),
    }) + transition_errors(
        d.name@,
        d.transitions@,
        category(d, 0).states,
        d.states is None,
    )
}

/// The categories of the automatons among the items; the last of a name counts.
pub open spec fn categories(items: Seq<Item>) -> Map<Seq<char>, CategoryView>
    decreases items.len(),
{
    if items.len() == 0 {
        Map::empty()
    } else {
        let front = items.drop_last();
        match items.last() {
            Item::Automaton(d) => categories(front).insert(d.name@, category(d, front.len())),
            _ => categories(front),
        }
    }
}

/// What is wrong with the automatons among the items, automaton by automaton.
pub open spec fn categories_errors(items: Seq<Item>) -> Seq<EffectErrorView>
    decreases items.len(),
{
    if items.len() == 0 {
        Seq::empty()
    } else {
        let front = categories_errors(items.drop_last());
        match items.last() {
            Item::Automaton(d) => front + category_errors(d),
            _ => front,
        }
    }
}

/// The outcome of the extraction: the categories where nothing is wrong, else
/// every error, ordered by source position.
pub open spec fn categories_outcome(items: Seq<Item>) -> Result<
    Map<Seq<char>, CategoryView>,
    Seq<EffectErrorView>,
> {
    if categories_errors(items).len() == 0 {
        Ok(categories(items))
    } else {
        Err(stable_sorted(categories_errors(items), by_offset::<EffectError>()))
    }
}

// ─── Extraction ────────────────────────────────────────────────────────────

impl Default for Categories {
    fn default() -> (r: Categories)
        ensures
            r@ == Map::<Seq<char>, CategoryView>::empty(),
    {
        Categories { map: KeyMap::new() }
    }
}

impl Categories {
    /// The category of an automaton.
    pub fn lookup(&self, name: &str) -> (r: Option<&AutomatonCategory>)
        ensures
            match r {
                Some(c) => self@.dom().contains(name@) && self@[name@] == c@,
                None => !self@.dom().contains(name@),
            },
    {
        let key = name.to_owned();
        self.map.get(&key)
    }

    /// Every category with its name, once.
    pub fn all(&self) -> (r: &Vec<(String, AutomatonCategory)>)
        ensures
            entries_map(r@) == self@,
            entry_keys(r@).no_duplicates(),
    {
        self.map.all()
    }

    /// How many categories there are.
    pub fn len(&self) -> (r: usize)
        ensures
            r == self@.dom().len(),
    {
        self.map.len()
    }

    /// Whether there is no category.
    pub fn is_empty(&self) -> (r: bool)
        ensures
            r == (self@.dom() == Set::<Seq<char>>::empty()),
    {
        self.map.is_empty()
    }
}

/// The first of the first `n` states that has the given name.
fn earlier_state(states: &Vec<StateName>, n: usize, name: &str) -> (r: Option<Span>)
    requires
        n <= states@.len(),
    ensures
        r == first_state(states@.take(n as int), name@),
{
    let mut i: usize = 0;
    while i < n
        invariant
            i <= n <= states@.len(),
            first_state(states@.take(i as int), name@) is None,
        decreases n - i,
    {
        proof {
            assert(states@.take(i as int + 1).drop_last() =~= states@.take(i as int));
        }
        if same(states[i].name.as_str(), name) {
            proof {
                first_state_prefix(states@.take(n as int), i + 1, name@);
                assert(states@.take(n as int).take(i as int + 1) =~= states@.take(i as int + 1));
            }
            return Some(states[i].span);
        }
        i = i + 1;
    }
    None
}

proof fn first_state_prefix(states: Seq<StateName>, i: int, name: Seq<char>)
    requires
        0 <= i <= states.len(),
        first_state(states.take(i), name) is Some,
    ensures
        first_state(states, name) == first_state(states.take(i), name),
    decreases states.len(),
{
    if i == states.len() {
        assert(states.take(i) =~= states);
    } else {
        assert(states.drop_last().take(i) =~= states.take(i));
        first_state_prefix(states.drop_last(), i, name);
    }
}

/// The first of the first `n` transitions that has the given name.
fn earlier_transition(ts: &Vec<TransitionDecl>, n: usize, name: &str) -> (r: Option<Span>)
    requires
        n <= ts@.len(),
    ensures
        r == first_transition(ts@.take(n as int), name@),
{
    let mut i: usize = 0;
    while i < n
        invariant
            i <= n <= ts@.len(),
            first_transition(ts@.take(i as int), name@) is None,
        decreases n - i,
    {
        proof {
            assert(ts@.take(i as int + 1).drop_last() =~= ts@.take(i as int));
        }
        if same(ts[i].name.as_str(), name) {
            proof {
                first_transition_prefix(ts@.take(n as int), i + 1, name@);
                assert(ts@.take(n as int).take(i as int + 1) =~= ts@.take(i as int + 1));
            }
            return Some(ts[i].span);
        }
        i = i + 1;
    }
    None
}

proof fn first_transition_prefix(ts: Seq<TransitionDecl>, i: int, name: Seq<char>)
    requires
        0 <= i <= ts.len(),
        first_transition(ts.take(i), name) is Some,
    ensures
        first_transition(ts, name) == first_transition(ts.take(i), name),
    decreases ts.len(),
{
    if i == ts.len() {
        assert(ts.take(i) =~= ts);
    } else {
        assert(ts.drop_last().take(i) =~= ts.take(i));
        first_transition_prefix(ts.drop_last(), i, name);
    }
}

/// The states of an automaton and whether it declares none.
fn build_states(d: &AutomatonDecl, errors: &mut Vec<EffectError>) -> (r: (Vec<StateInfo>, bool))
    ensures
        views(r.0@) == category(*d, 0).states,
        r.1 == d.states is None,
        views(final(errors)@) == views(old(errors)@) + match d.states {
            None => Seq::empty(),
            Some(states) => state_errors(d.name@, states@),
        },
{
    let states = match &d.states {
        None => {
            let ready: Vec<StateInfo> = vec![
                StateInfo { name: "Ready".to_owned(), span: d.span },
            ];
            assert(views(ready@) =~= category(*d, 0).states);
            assert(views(errors@) =~= views(errors@) + Seq::empty());
            return (ready, true);
        },
        Some(states) => states,
    };
    let ghost start = views(errors@);
    let mut out: Vec<StateInfo> = Vec::new();
    let mut i: usize = 0;
    assert(states@.take(0) =~= Seq::<StateName>::empty());
    assert(views(out@) =~= Seq::<StateView>::empty());
    assert(views(errors@) =~= start + Seq::empty());
    while i < states.len()
        invariant
            i <= states@.len(),
            views(out@) == distinct_states(states@.take(i as int)),
            views(errors@) == start + state_errors(d.name@, states@.take(i as int)),
        decreases states@.len() - i,
    {
        let s = &states[i];
        proof {
            assert(states@.take(i as int + 1).drop_last() =~= states@.take(i as int));
            assert(states@.take(i as int + 1).last() == *s);
        }
        let ghost errors_before = errors@;
        let ghost out_before = out@;
        match earlier_state(states, i, s.name.as_str()) {
            Some(original) => {
                let e = EffectError::DuplicateState {
                    automaton: d.name.clone(),
                    state: s.name.clone(),
                    original_at: original.start,
                    duplicate_at: s.span.start,
                };
                errors.push(e);
                assert(views(errors@) =~= views(errors_before).push(e@));
                assert(views(errors@) =~= start + state_errors(
                    d.name@,
                    states@.take(i as int + 1),
                ));
            },
            None => {
                let info = StateInfo { name: s.name.clone(), span: s.span };
                out.push(info);
                assert(views(out@) =~= views(out_before).push(info@));
            },
        }
        i = i + 1;
    }
    assert(states@.take(i as int) =~= states@);
    (out, false)
}

/// Whether one of the states has the given name.
fn declares_state(states: &Vec<StateInfo>, name: &str) -> (r: bool)
    ensures
        r == has_state(views(states@), name@),
{
    let mut i: usize = 0;
    while i < states.len()
        invariant
            i <= states@.len(),
            forall|j: int| 0 <= j < i ==> (#[trigger] states@[j]).name@ != name@,
        decreases states@.len() - i,
    {
        if same(states[i].name.as_str(), name) {
            assert(views(states@)[i as int].name == name@);
            return true;
        }
        i = i + 1;
    }
    assert forall|j: int| 0 <= j < views(states@).len() implies (#[trigger] views(
        states@,
    )[j]).name != name@ by {
        assert(states@[j].name@ != name@);
    }
    false
}

/// Checks the destination of a transition.
fn validate_transition_destination(
    d: &AutomatonDecl,
    t: &TransitionDecl,
    states: &Vec<StateInfo>,
    is_monoid: bool,
    errors: &mut Vec<EffectError>,
)
    ensures
        views(final(errors)@) == views(old(errors)@) + destination_errors(
            d.name@,
            *t,
            views(states@),
            is_monoid,
        ),
{
    let ghost before = errors@;
    let dest = match &t.destination {
        None => {
            assert(views(errors@) =~= views(errors@) + Seq::empty());
            return;
        },
        Some(dest) => dest,
    };
    if is_monoid {
        let e = EffectError::MonoidTransitionWithDestination {
            automaton: d.name.clone(),
            transition: t.name.clone(),
            target: dest.clone(),
            at: t.span.start,
        };
        errors.push(e);
        assert(views(errors@) =~= views(before) + seq![e@]);
    } else if !declares_state(states, dest.as_str()) {
        let e = EffectError::UnknownState {
            automaton: d.name.clone(),
            transition: t.name.clone(),
            target: dest.clone(),
            at: t.span.start,
        };
        errors.push(e);
        assert(views(errors@) =~= views(before) + seq![e@]);
    } else {
        assert(views(errors@) =~= views(errors@) + Seq::empty());
    }
}

/// The transitions of an automaton.
fn build_transitions(
    d: &AutomatonDecl,
    states: &Vec<StateInfo>,
    is_monoid: bool,
    errors: &mut Vec<EffectError>,
) -> (r: Vec<TransitionInfo>)
    ensures
        views(r@) == distinct_transitions(d.transitions@),
        views(final(errors)@) == views(old(errors)@) + transition_errors(
            d.name@,
            d.transitions@,
            views(states@),
            is_monoid,
        ),
{
    let ghost start = views(errors@);
    let ghost ts = d.transitions@;
    let mut out: Vec<TransitionInfo> = Vec::new();
    let mut i: usize = 0;
    assert(ts.take(0) =~= Seq::<TransitionDecl>::empty());
    assert(views(out@) =~= Seq::<TransitionView>::empty());
    assert(views(errors@) =~= start + Seq::empty());
    while i < d.transitions.len()
        invariant
            i <= ts.len(),
            ts == d.transitions@,
            views(out@) == distinct_transitions(ts.take(i as int)),
            views(errors@) == start + transition_errors(
                d.name@,
                ts.take(i as int),
                views(states@),
                is_monoid,
            ),
        decreases ts.len() - i,
    {
        let t = &d.transitions[i];
        proof {
            assert(ts.take(i as int + 1).drop_last() =~= ts.take(i as int));
            assert(ts.take(i as int + 1).last() == *t);
        }
        let ghost errors_before = errors@;
        let ghost out_before = out@;
        match earlier_transition(&d.transitions, i, t.name.as_str()) {
            Some(original) => {
                let e = EffectError::DuplicateTransition {
                    automaton: d.name.clone(),
                    transition: t.name.clone(),
                    original_at: original.start,
                    duplicate_at: t.span.start,
                };
                errors.push(e);
                assert(views(errors@) =~= views(errors_before) + seq![e@]);
            },
            None => {
                validate_transition_destination(d, t, states, is_monoid, errors);
                let info = TransitionInfo {
                    name: t.name.clone(),
                    transition_index: i,
                    destination: copy_option(&t.destination),
                    span: t.span,
                };
                out.push(info);
                assert(views(out@) =~= views(out_before).push(info@));
            },
        }
        assert(views(errors@) =~= start + transition_errors(
            d.name@,
            ts.take(i as int + 1),
            views(states@),
            is_monoid,
        ));
        i = i + 1;
    }
    assert(ts.take(i as int) =~= ts);
    out
}

/// The category of a declared automaton.
fn build_category(d: &AutomatonDecl, item_index: usize, errors: &mut Vec<EffectError>) -> (r:
    AutomatonCategory)
    ensures
        r@ == category(*d, item_index as nat),
        views(final(errors)@) == views(old(errors)@) + category_errors(*d),
{
    let ghost start = views(errors@);
    let (states, is_monoid) = build_states(d, errors);
    let transitions = build_transitions(d, &states, is_monoid, errors);
    assert(views(errors@) =~= start + category_errors(*d));
    AutomatonCategory {
        name: d.name.clone(),
        item_index,
        is_monoid,
        states,
        transitions,
        initial: 0,
    }
}

/// The outcome of the extraction as a mathematical value.
pub open spec fn outcome(r: Result<Categories, Vec<EffectError>>) -> Result<
    Map<Seq<char>, CategoryView>,
    Seq<EffectErrorView>,
> {
    match r {
        Ok(c) => Ok(c@),
        Err(errors) => Err(views(errors@)),
    }
}

/// Extracts the category of every automaton of a program.
///
/// An automaton without a `#states` list gets the single state `Ready`. States
/// and transitions must have distinct names, and every destination must be a
/// declared state. The errors are ordered by source position.
pub fn extract_categories(program: &Program) -> (r: Result<Categories, Vec<EffectError>>)
    ensures
        outcome(r) == categories_outcome(program.items@),
{
    let ghost items = program.items@;
    let mut map: KeyMap<String, AutomatonCategory> = KeyMap::new();
    let mut errors: Vec<EffectError> = Vec::new();
    let mut i: usize = 0;
    assert(items.take(0) =~= Seq::<Item>::empty());
    assert(views(errors@) =~= Seq::<EffectErrorView>::empty());
    while i < program.items.len()
        invariant
            i <= items.len(),
            items == program.items@,
            map@ == categories(items.take(i as int)),
            views(errors@) == categories_errors(items.take(i as int)),
        decreases items.len() - i,
    {
        proof {
            assert(items.take(i as int + 1).drop_last() =~= items.take(i as int));
            assert(items.take(i as int + 1).last() == items[i as int]);
        }
        if let Item::Automaton(d) = &program.items[i] {
            let cat = build_category(d, i, &mut errors);
            map.insert(d.name.clone(), cat);
        }
        i = i + 1;
    }
    assert(items.take(i as int) =~= items);
    if errors.len() == 0 {
        Ok(Categories { map })
    } else {
        Err(sort_by_offset(errors))
    }
}

} // verus!
