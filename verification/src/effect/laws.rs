//! What holds of effect analysis as a whole.
use vstd::prelude::*;

use crate::ast::{
    AutomatonDecl, Expr, ExprKind, FieldAssign, Item, Program, StateName, Stmt, StmtKind,
    TransitionDecl,
};
use crate::effect::callable::{CallableView, FieldRefView};
use crate::effect::callgraph::{
    call_graph, graph_outcome, is_call_circle, no_report_iff_no_call_circle,
};
use crate::effect::category::{
    categories_errors, categories_outcome, category, category_errors, destination_errors,
    distinct_states, first_state, first_transition, has_state, state_errors, transition_errors,
};
use crate::effect::direct::{
    assigns_effects, direct_effects, expr_reads, exprs_reads, field_writes, last_automaton,
    program_effects, stmt_effects, stmts_effects, with_transitions, DirectView, Scope,
};
use crate::effect::error::EffectError;
use crate::effect::profile::{
    automata_of, calls, in_all, listed, mutates_errors, profile_errors, profile_of, profiles_of,
    profiles_outcome, reaches, writes_of, written_automata, ProfileView,
};
use crate::order::{ascending, by_offset, finite_sets_have_an_order, sorting_orders_and_keeps};
use crate::resolve::Resolution;

verus! {

// ─── Errors ────────────────────────────────────────────────────────────────

/// The errors of both extractions are never none, and ordered by source
/// position.
pub proof fn errors_are_ordered(program: Program, resolution: Resolution)
    ensures
        match categories_outcome(program.items@) {
            Ok(_) => true,
            Err(errors) => errors.len() > 0 && ascending(errors, by_offset::<EffectError>())
                && errors.to_multiset() == categories_errors(program.items@).to_multiset(),
        },
        match profiles_outcome(program, resolution) {
            Ok(_) => true,
            Err(errors) => errors.len() > 0 && ascending(errors, by_offset::<EffectError>()),
        },
{
    sorting_orders_and_keeps(categories_errors(program.items@), by_offset::<EffectError>());
    let profiles = profiles_of(program_effects(program, resolution));
    sorting_orders_and_keeps(
        profile_errors(profiles, program.items@),
        by_offset::<EffectError>(),
    );
}

// ─── Categories ────────────────────────────────────────────────────────────

/// One of the states has the given name.
pub open spec fn declares_state(states: Seq<StateName>, name: Seq<char>) -> bool {
    exists|i: int| 0 <= i < states.len() && (#[trigger] states[i]).name@ == name
}

/// No two states have the same name.
pub open spec fn states_differ(states: Seq<StateName>) -> bool {
    forall|i: int, j: int|
        0 <= i < j < states.len() ==> (#[trigger] states[i]).name@ != (#[trigger] states[j]).name@
}

/// No two transitions have the same name.
pub open spec fn transitions_differ(ts: Seq<TransitionDecl>) -> bool {
    forall|i: int, j: int|
        0 <= i < j < ts.len() ==> (#[trigger] ts[i]).name@ != (#[trigger] ts[j]).name@
}

/// The destination is one that the automaton has: a declared state, or none
/// where it declares no states.
pub open spec fn destination_exists(d: AutomatonDecl, t: TransitionDecl) -> bool {
    match t.destination {
        None => true,
        Some(dest) => match d.states {
            None => false,
            Some(states) => declares_state(states@, dest@),
        },
    }
}

/// States and transitions have distinct names and destinations exist.
pub open spec fn is_well_formed(d: AutomatonDecl) -> bool {
    &&& d.states is Some ==> states_differ(d.states->0@)
    &&& transitions_differ(d.transitions@)
    &&& forall|i: int|
        0 <= i < d.transitions@.len() ==> destination_exists(d, #[trigger] d.transitions@[i])
}

proof fn first_state_found(states: Seq<StateName>, name: Seq<char>)
    ensures
        first_state(states, name) is Some <==> declares_state(states, name),
    decreases states.len(),
{
    if states.len() > 0 {
        let front = states.drop_last();
        first_state_found(front, name);
        if declares_state(front, name) {
            let i = choose|i: int| 0 <= i < front.len() && (#[trigger] front[i]).name@ == name;
            assert(states[i].name@ == name);
        }
        if declares_state(states, name) {
            let i = choose|i: int| 0 <= i < states.len() && (#[trigger] states[i]).name@ == name;
            if i < front.len() {
                assert(front[i].name@ == name);
            }
        }
    }
}

proof fn distinct_states_complete(states: Seq<StateName>, name: Seq<char>)
    ensures
        has_state(distinct_states(states), name) <==> declares_state(states, name),
    decreases states.len(),
{
    if states.len() > 0 {
        let front = states.drop_last();
        let s = states.last();
        distinct_states_complete(front, name);
        distinct_states_complete(front, s.name@);
        first_state_found(front, s.name@);
        let before = distinct_states(front);
        let after = distinct_states(states);
        if has_state(before, name) {
            let i = choose|i: int| 0 <= i < before.len() && (#[trigger] before[i]).name == name;
            assert(after[i].name == name);
        }
        if has_state(after, name) {
            let i = choose|i: int| 0 <= i < after.len() && (#[trigger] after[i]).name == name;
            if i < before.len() {
                assert(before[i].name == name);
            } else {
                assert(states[states.len() - 1].name@ == name);
            }
        }
        if declares_state(front, name) {
            let i = choose|i: int| 0 <= i < front.len() && (#[trigger] front[i]).name@ == name;
            assert(states[i].name@ == name);
        }
        if declares_state(states, name) {
            let i = choose|i: int| 0 <= i < states.len() && (#[trigger] states[i]).name@ == name;
            if i < front.len() {
                assert(front[i].name@ == name);
            } else if first_state(front, s.name@) is None {
                assert(after[before.len() as int].name == name);
            }
        }
    }
}

/// No state of a category appears twice, whatever was declared.
pub proof fn states_of_a_category_differ(states: Seq<StateName>)
    ensures
        forall|i: int, j: int|
            0 <= i < j < distinct_states(states).len() ==> (#[trigger] distinct_states(
                states,
            )[i]).name != (#[trigger] distinct_states(states)[j]).name,
    decreases states.len(),
{
    if states.len() > 0 {
        let front = states.drop_last();
        states_of_a_category_differ(front);
        first_state_found(front, states.last().name@);
        distinct_states_complete(front, states.last().name@);
        let before = distinct_states(front);
        let after = distinct_states(states);
        assert forall|i: int, j: int| 0 <= i < j < after.len() implies (#[trigger] after[i]).name
            != (#[trigger] after[j]).name by {
            assert(before[i].name == after[i].name);
            if j < before.len() {
                assert(before[j].name == after[j].name);
            }
        }
    }
}

proof fn state_errors_iff(automaton: Seq<char>, states: Seq<StateName>)
    ensures
        state_errors(automaton, states).len() == 0 <==> states_differ(states),
    decreases states.len(),
{
    if states.len() > 0 {
        let front = states.drop_last();
        let s = states.last();
        state_errors_iff(automaton, front);
        first_state_found(front, s.name@);
        if states_differ(states) {
            assert forall|i: int, j: int| 0 <= i < j < front.len() implies (
            #[trigger] front[i]).name@ != (#[trigger] front[j]).name@ by {
                assert(states[i].name@ != states[j].name@);
            }
            if declares_state(front, s.name@) {
                let i = choose|i: int|
                    0 <= i < front.len() && (#[trigger] front[i]).name@ == s.name@;
                assert(states[i].name@ != states[states.len() - 1].name@);
            }
        }
        if states_differ(front) && !declares_state(front, s.name@) {
            assert forall|i: int, j: int| 0 <= i < j < states.len() implies (
            #[trigger] states[i]).name@ != (#[trigger] states[j]).name@ by {
                assert(front[i].name@ == states[i].name@);
                if j < front.len() {
                    assert(front[i].name@ != front[j].name@);
                }
            }
        }
    }
}

/// One of the transitions has the given name.
spec fn declares_transition(ts: Seq<TransitionDecl>, name: Seq<char>) -> bool {
    exists|i: int| 0 <= i < ts.len() && (#[trigger] ts[i]).name@ == name
}

proof fn first_transition_found(ts: Seq<TransitionDecl>, name: Seq<char>)
    ensures
        first_transition(ts, name) is Some <==> declares_transition(ts, name),
    decreases ts.len(),
{
    if ts.len() > 0 {
        let front = ts.drop_last();
        first_transition_found(front, name);
        if declares_transition(front, name) {
            let i = choose|i: int| 0 <= i < front.len() && (#[trigger] front[i]).name@ == name;
            assert(ts[i].name@ == name);
        }
        if declares_transition(ts, name) {
            let i = choose|i: int| 0 <= i < ts.len() && (#[trigger] ts[i]).name@ == name;
            if i < front.len() {
                assert(front[i].name@ == name);
            }
        }
    }
}

/// The destinations of the first transitions exist.
spec fn destinations_exist(d: AutomatonDecl, ts: Seq<TransitionDecl>) -> bool {
    forall|i: int| 0 <= i < ts.len() ==> destination_exists(d, #[trigger] ts[i])
}

proof fn destination_errors_iff(d: AutomatonDecl, t: TransitionDecl)
    ensures
        destination_errors(d.name@, t, category(d, 0).states, d.states is None).len() == 0
            <==> destination_exists(d, t),
{
    match t.destination {
        None => {},
        Some(dest) => match d.states {
            None => {},
            Some(states) => distinct_states_complete(states@, dest@),
        },
    }
}

proof fn transition_errors_iff(d: AutomatonDecl, ts: Seq<TransitionDecl>)
    ensures
        transition_errors(d.name@, ts, category(d, 0).states, d.states is None).len() == 0 <==> (
        transitions_differ(ts) && destinations_exist(d, ts)),
    decreases ts.len(),
{
    if ts.len() > 0 {
        let front = ts.drop_last();
        let t = ts.last();
        transition_errors_iff(d, front);
        first_transition_found(front, t.name@);
        destination_errors_iff(d, t);
        if transitions_differ(ts) && destinations_exist(d, ts) {
            assert forall|i: int, j: int| 0 <= i < j < front.len() implies (
            #[trigger] front[i]).name@ != (#[trigger] front[j]).name@ by {
                assert(ts[i].name@ != ts[j].name@);
            }
            assert forall|i: int| 0 <= i < front.len() implies destination_exists(
                d,
                #[trigger] front[i],
            ) by {
                assert(destination_exists(d, ts[i]));
            }
            assert(destination_exists(d, ts[ts.len() - 1]));
            if declares_transition(front, t.name@) {
                let i = choose|i: int|
                    0 <= i < front.len() && (#[trigger] front[i]).name@ == t.name@;
                assert(ts[i].name@ != ts[ts.len() - 1].name@);
            }
        }
        if transitions_differ(front) && destinations_exist(d, front) && !declares_transition(
            front,
            t.name@,
        ) && destination_exists(d, t) {
            assert forall|i: int, j: int| 0 <= i < j < ts.len() implies (#[trigger] ts[i]).name@
                != (#[trigger] ts[j]).name@ by {
                assert(front[i].name@ == ts[i].name@);
                if j < front.len() {
                    assert(front[i].name@ != front[j].name@);
                }
            }
            assert forall|i: int| 0 <= i < ts.len() implies destination_exists(
                d,
                #[trigger] ts[i],
            ) by {
                if i < front.len() {
                    assert(destination_exists(d, front[i]));
                }
            }
        }
    }
}

/// An automaton is rejected exactly where it is not well formed.
pub proof fn rejected_iff_not_well_formed(d: AutomatonDecl)
    ensures
        category_errors(d).len() == 0 <==> is_well_formed(d),
{
    match d.states {
        Some(states) => state_errors_iff(d.name@, states@),
        None => {},
    }
    transition_errors_iff(d, d.transitions@);
}

/// The categories of a program are extracted exactly where all its automatons
/// are well formed.
pub proof fn extracted_iff_all_well_formed(items: Seq<Item>)
    ensures
        categories_errors(items).len() == 0 <==> forall|i: int|
            0 <= i < items.len() && (#[trigger] items[i]) is Automaton ==> is_well_formed(
                items[i]->Automaton_0,
            ),
    decreases items.len(),
{
    if items.len() > 0 {
        let front = items.drop_last();
        extracted_iff_all_well_formed(front);
        assert forall|i: int| 0 <= i < front.len() implies front[i] == #[trigger] items[i] by {}
        if let Item::Automaton(d) = items.last() {
            rejected_iff_not_well_formed(d);
        }
        assert(items[items.len() - 1] == items.last());
        if categories_errors(front).len() == 0 {
            assert forall|i: int|
                0 <= i < front.len() && (#[trigger] items[i]) is Automaton implies is_well_formed(
                items[i]->Automaton_0,
            ) by {
                assert(front[i] is Automaton);
            }
        }
        if forall|i: int|
            0 <= i < items.len() && (#[trigger] items[i]) is Automaton ==> is_well_formed(
                items[i]->Automaton_0,
            ) {
            assert forall|i: int|
                0 <= i < front.len() && (#[trigger] front[i]) is Automaton implies is_well_formed(
                front[i]->Automaton_0,
            ) by {
                assert(items[i] is Automaton);
            }
        }
    }
}

// ─── Reads and writes ──────────────────────────────────────────────────────

/// A flush writes every field of the automaton.
pub proof fn flush_writes_every_field(sc: Scope, automaton: Seq<char>, d: AutomatonDecl, i: int)
    requires
        last_automaton(sc.items, automaton) == Some(d),
        0 <= i < d.fields@.len(),
    ensures
        sc.flush(automaton).writes.contains(
            FieldRefView { automaton, field: d.fields@[i].name@ },
        ),
{
    field_is_written(automaton, d, d.fields@.len(), i);
}

proof fn field_is_written(automaton: Seq<char>, d: AutomatonDecl, n: nat, i: int)
    requires
        0 <= i < n <= d.fields@.len(),
    ensures
        field_writes(automaton, d, n).writes.contains(
            FieldRefView { automaton, field: d.fields@[i].name@ },
        ),
    decreases n,
{
    if i < n - 1 {
        field_is_written(automaton, d, (n - 1) as nat, i);
    }
}

/// Snapshots, shadow reads and state reads do not count as reads.
pub proof fn snapshots_do_not_count(sc: Scope, e: Expr)
    requires
        e.kind is Snapshot || e.kind is Shadow || e.kind is StateRead,
    ensures
        expr_reads(sc, e) == DirectView::none(),
{
}

/// Expressions write nothing and call nothing through `#>`.
pub proof fn expressions_only_read(sc: Scope, e: Expr)
    ensures
        expr_reads(sc, e).writes == Set::<FieldRefView>::empty(),
        expr_reads(sc, e).proc_calls == Set::<CallableView>::empty(),
    decreases e, 0nat,
{
    assert(Set::<FieldRefView>::empty().union(Set::empty()) =~= Set::empty());
    assert(Set::<CallableView>::empty().union(Set::empty()) =~= Set::empty());
    match e.kind {
        ExprKind::FieldAccess { obj, .. } => expressions_only_read(sc, *obj),
        ExprKind::Index { obj, index } => {
            expressions_only_read(sc, *obj);
            expressions_only_read(sc, *index);
        },
        ExprKind::Binary { lhs, rhs, .. } => {
            expressions_only_read(sc, *lhs);
            expressions_only_read(sc, *rhs);
        },
        ExprKind::Unary { operand, .. } => expressions_only_read(sc, *operand),
        ExprKind::Ref { operand, .. } => expressions_only_read(sc, *operand),
        ExprKind::Paren(inner) => expressions_only_read(sc, *inner),
        ExprKind::Cast { value, .. } => expressions_only_read(sc, *value),
        ExprKind::Call { callee, args } => {
            expressions_only_read(sc, *callee);
            lists_only_read(sc, args@);
        },
        ExprKind::MethodCall { obj, args, .. } => {
            expressions_only_read(sc, *obj);
            lists_only_read(sc, args@);
        },
        ExprKind::Range { lo, hi, .. } => {
            expressions_only_read(sc, *lo);
            expressions_only_read(sc, *hi);
        },
        ExprKind::Tuple(elems) => lists_only_read(sc, elems@),
        ExprKind::Array(elems) => lists_only_read(sc, elems@),
        ExprKind::ArrayRepeat { value, count } => {
            expressions_only_read(sc, *value);
            expressions_only_read(sc, *count);
        },
        ExprKind::UncheckedLoad { ptr, .. } => expressions_only_read(sc, *ptr),
        ExprKind::VolatileLoad { ptr, .. } => expressions_only_read(sc, *ptr),
        ExprKind::UncheckedCast { value, .. } => expressions_only_read(sc, *value),
        ExprKind::UncheckedOffset { ptr, n, .. } => {
            expressions_only_read(sc, *ptr);
            expressions_only_read(sc, *n);
        },
        _ => {},
    }
}

/// Expressions in a row write nothing and call nothing through `#>`.
pub proof fn lists_only_read(sc: Scope, es: Seq<Expr>)
    ensures
        exprs_reads(sc, es).writes == Set::<FieldRefView>::empty(),
        exprs_reads(sc, es).proc_calls == Set::<CallableView>::empty(),
    decreases es, 1nat,
{
    assert(Set::<FieldRefView>::empty().union(Set::empty()) =~= Set::empty());
    assert(Set::<CallableView>::empty().union(Set::empty()) =~= Set::empty());
    if es.len() > 0 {
        lists_only_read(sc, es.drop_last());
        expressions_only_read(sc, es.last());
    }
}

// ─── Finiteness ────────────────────────────────────────────────────────────

/// What is written is finite.
spec fn few_writes(d: DirectView) -> bool {
    d.writes.finite()
}

proof fn assigns_few(sc: Scope, automaton: Seq<char>, assigns: Seq<FieldAssign>)
    ensures
        few_writes(assigns_effects(sc, automaton, assigns)),
    decreases assigns.len(),
{
    if assigns.len() > 0 {
        assigns_few(sc, automaton, assigns.drop_last());
        let fa = assigns.last();
        expressions_only_read(sc, fa.value);
        if let Some(index) = fa.index {
            expressions_only_read(sc, index);
        }
    }
}

proof fn fields_few(automaton: Seq<char>, d: AutomatonDecl, n: nat)
    ensures
        few_writes(field_writes(automaton, d, n)),
    decreases n,
{
    if n > 0 {
        fields_few(automaton, d, (n - 1) as nat);
    }
}

proof fn stmt_few(sc: Scope, s: Stmt)
    ensures
        few_writes(stmt_effects(sc, s)),
    decreases s, 0nat,
{
    match s.kind {
        StmtKind::Mutate { automaton, assigns } => assigns_few(sc, automaton@, assigns@),
        StmtKind::MutateShort { value, .. } => expressions_only_read(sc, value),
        StmtKind::ProcCall { args, .. } => lists_only_read(sc, args@),
        StmtKind::Let { value, .. } => expressions_only_read(sc, value),
        StmtKind::LetShort { value, .. } => expressions_only_read(sc, value),
        StmtKind::Expr(e) => expressions_only_read(sc, e),
        StmtKind::Return(Some(e)) => expressions_only_read(sc, e),
        StmtKind::UncheckedStore { ptr, value, .. } => {
            expressions_only_read(sc, ptr);
            expressions_only_read(sc, value);
        },
        StmtKind::VolatileStore { ptr, value, .. } => {
            expressions_only_read(sc, ptr);
            expressions_only_read(sc, value);
        },
        StmtKind::Assign { value, .. } => expressions_only_read(sc, value),
        StmtKind::If { cond, then_block, else_block } => {
            expressions_only_read(sc, cond);
            stmts_few(sc, then_block.stmts@);
            if let Some(b) = else_block {
                stmts_few(sc, b.stmts@);
            }
        },
        StmtKind::Sigma { source, body, .. } => {
            expressions_only_read(sc, source);
            stmts_few(sc, body.stmts@);
        },
        StmtKind::Flush { automaton } => {
            if let Some(d) = last_automaton(sc.items, automaton@) {
                fields_few(automaton@, d, d.fields@.len());
            }
        },
        _ => {},
    }
}

proof fn stmts_few(sc: Scope, ss: Seq<Stmt>)
    ensures
        few_writes(stmts_effects(sc, ss)),
    decreases ss, 1nat,
{
    if ss.len() > 0 {
        stmts_few(sc, ss.drop_last());
        stmt_few(sc, ss.last());
    }
}

/// There are finitely many callables, each of which writes finitely much.
spec fn few(direct: Map<CallableView, DirectView>) -> bool {
    &&& direct.dom().finite()
    &&& forall|a: CallableView| direct.dom().contains(a) ==> few_writes(#[trigger] direct[a])
}

proof fn transitions_few(
    known: Map<CallableView, DirectView>,
    items: Seq<Item>,
    resolution: Resolution,
    automaton: Seq<char>,
    ts: Seq<TransitionDecl>,
)
    requires
        few(known),
    ensures
        few(with_transitions(known, items, resolution, automaton, ts)),
    decreases ts.len(),
{
    if ts.len() > 0 {
        transitions_few(known, items, resolution, automaton, ts.drop_last());
        stmts_few(Scope { items, resolution, owner: Some(automaton) }, ts.last().body.stmts@);
    }
}

proof fn effects_few(all: Seq<Item>, resolution: Resolution, items: Seq<Item>)
    ensures
        few(direct_effects(all, resolution, items)),
    decreases items.len(),
{
    if items.len() > 0 {
        effects_few(all, resolution, items.drop_last());
        let front = direct_effects(all, resolution, items.drop_last());
        let sc = Scope { items: all, resolution, owner: None };
        match items.last() {
            Item::Effect(d) => stmts_few(sc, d.body.stmts@),
            Item::Interrupt(d) => stmts_few(sc, d.body.stmts@),
            Item::Automaton(d) => transitions_few(
                front,
                all,
                resolution,
                d.name@,
                d.transitions@,
            ),
            _ => {},
        }
    }
}

proof fn automata_few(direct: Map<CallableView, DirectView>, a: CallableView)
    requires
        few(direct),
    ensures
        profile_of(direct, a).automata.finite(),
{
    let sets = direct.dom().map(|b: CallableView| direct[b].writes);
    direct.dom().lemma_map_finite(|b: CallableView| direct[b].writes);
    assert forall|s: Set<FieldRefView>| sets.contains(s) implies #[trigger] s.finite() by {
        let b = choose|b: CallableView| direct.dom().contains(b) && direct[b].writes == s;
        assert(few_writes(direct[b]));
    }
    sets.lemma_flatten_finite();
    let writes = in_all(direct, writes_of(), a);
    assert(writes.subset_of(sets.flatten())) by {
        assert forall|f: FieldRefView| writes.contains(f) implies sets.flatten().contains(f) by {
            let b = choose|b: CallableView|
                #[trigger] reaches(direct, a, b) && direct[b].writes.contains(f);
            assert(direct.dom().contains(b));
            assert(sets.contains(direct[b].writes));
        }
    }
    vstd::set_lib::lemma_set_subset_finite(sets.flatten(), writes);
    let names = writes.map(|f: FieldRefView| f.automaton);
    writes.lemma_map_finite(|f: FieldRefView| f.automaton);
    assert(automata_of(writes) =~= names) by {
        assert forall|n: Seq<char>| automata_of(writes).contains(n) <==> names.contains(n) by {
            if automata_of(writes).contains(n) {
                let f = choose|f: FieldRefView| #[trigger] writes.contains(f) && f.automaton == n;
                assert(names.contains(f.automaton));
            }
            if names.contains(n) {
                let f = choose|f: FieldRefView| writes.contains(f) && f.automaton == n;
                assert(writes.contains(f));
            }
        }
    }
}

// ─── Declared and actual writes ────────────────────────────────────────────

/// A callable writes only what it lists, and nothing that it forbids itself.
pub open spec fn keeps_its_word(
    automata: Set<Seq<char>>,
    mutates: Seq<String>,
    cannot_mutate: Seq<String>,
) -> bool {
    forall|a: Seq<char>| #[trigger]
        automata.contains(a) ==> listed(mutates, a) && !listed(cannot_mutate, a)
}

proof fn mutates_errors_iff(
    callable: Seq<char>,
    at: nat,
    mutates: Seq<String>,
    cannot_mutate: Seq<String>,
    names: Seq<Seq<char>>,
)
    ensures
        mutates_errors(callable, at, mutates, cannot_mutate, names).len() == 0 <==> forall|i: int|
            0 <= i < names.len() ==> listed(mutates, #[trigger] names[i]) && !listed(
                cannot_mutate,
                names[i],
            ),
    decreases names.len(),
{
    if names.len() > 0 {
        let front = names.drop_last();
        mutates_errors_iff(callable, at, mutates, cannot_mutate, front);
        assert forall|i: int| 0 <= i < front.len() implies front[i] == #[trigger] names[i] by {}
        assert(names[names.len() - 1] == names.last());
        if forall|i: int|
            0 <= i < front.len() ==> listed(mutates, #[trigger] front[i]) && !listed(
                cannot_mutate,
                front[i],
            ) {
            assert forall|i: int| 0 <= i < front.len() implies listed(
                mutates,
                #[trigger] names[i],
            ) && !listed(cannot_mutate, names[i]) by {
                assert(listed(mutates, front[i]));
            }
        }
        if forall|i: int|
            0 <= i < names.len() ==> listed(mutates, #[trigger] names[i]) && !listed(
                cannot_mutate,
                names[i],
            ) {
            assert forall|i: int| 0 <= i < front.len() implies listed(
                mutates,
                #[trigger] front[i],
            ) && !listed(cannot_mutate, front[i]) by {
                assert(listed(mutates, names[i]));
            }
        }
    }
}

/// Nothing is wrong with the writes of an item exactly where its callable keeps
/// its word.
pub open spec fn item_keeps_its_word(profiles: Map<CallableView, ProfileView>, item: Item) -> bool {
    match item {
        Item::Effect(d) => profiles.dom().contains(CallableView::Effect(d.name@))
            ==> keeps_its_word(
            profiles[CallableView::Effect(d.name@)].automata,
            d.mutates@,
            d.cannot_mutate@,
        ),
        Item::Interrupt(d) => profiles.dom().contains(CallableView::Interrupt(d.name@))
            ==> keeps_its_word(
            profiles[CallableView::Interrupt(d.name@)].automata,
            d.mutates@,
            Seq::empty(),
        ),
        _ => true,
    }
}

proof fn written_automata_listed(
    profiles: Map<CallableView, ProfileView>,
    id: CallableView,
    callable: Seq<char>,
    at: nat,
    mutates: Seq<String>,
    cannot_mutate: Seq<String>,
)
    requires
        profiles.dom().contains(id) ==> profiles[id].automata.finite(),
    ensures
        mutates_errors(
            callable,
            at,
            mutates,
            cannot_mutate,
            written_automata(profiles, id),
        ).len() == 0 <==> (profiles.dom().contains(id) ==> keeps_its_word(
            profiles[id].automata,
            mutates,
            cannot_mutate,
        )),
{
    let names = written_automata(profiles, id);
    mutates_errors_iff(callable, at, mutates, cannot_mutate, names);
    if profiles.dom().contains(id) {
        let set = profiles[id].automata;
        finite_sets_have_an_order::<String>(set);
        assert(names.to_set() == set);
        if forall|i: int|
            0 <= i < names.len() ==> listed(mutates, #[trigger] names[i]) && !listed(
                cannot_mutate,
                names[i],
            ) {
            assert forall|a: Seq<char>| #[trigger] set.contains(a) implies listed(mutates, a)
                && !listed(cannot_mutate, a) by {
                assert(names.to_set().contains(a));
                let i = choose|i: int| 0 <= i < names.len() && names[i] == a;
                assert(listed(mutates, names[i]));
            }
        }
        if keeps_its_word(set, mutates, cannot_mutate) {
            assert forall|i: int| 0 <= i < names.len() implies listed(
                mutates,
                #[trigger] names[i],
            ) && !listed(cannot_mutate, names[i]) by {
                assert(names.to_set().contains(names[i]));
                assert(set.contains(names[i]));
            }
        }
    }
}

proof fn profile_errors_iff(profiles: Map<CallableView, ProfileView>, items: Seq<Item>)
    requires
        forall|id: CallableView|
            profiles.dom().contains(id) ==> (#[trigger] profiles[id]).automata.finite(),
    ensures
        profile_errors(profiles, items).len() == 0 <==> forall|i: int|
            0 <= i < items.len() ==> item_keeps_its_word(profiles, #[trigger] items[i]),
    decreases items.len(),
{
    if items.len() > 0 {
        let front = items.drop_last();
        profile_errors_iff(profiles, front);
        match items.last() {
            Item::Effect(d) => written_automata_listed(
                profiles,
                CallableView::Effect(d.name@),
                d.name@,
                d.span.start as nat,
                d.mutates@,
                d.cannot_mutate@,
            ),
            Item::Interrupt(d) => written_automata_listed(
                profiles,
                CallableView::Interrupt(d.name@),
                d.name@,
                d.span.start as nat,
                d.mutates@,
                Seq::empty(),
            ),
            _ => {},
        }
        assert(items[items.len() - 1] == items.last());
        if forall|i: int|
            0 <= i < front.len() ==> item_keeps_its_word(profiles, #[trigger] front[i]) {
            assert forall|i: int| 0 <= i < front.len() implies item_keeps_its_word(
                profiles,
                #[trigger] items[i],
            ) by {
                assert(item_keeps_its_word(profiles, front[i]));
            }
        }
        if forall|i: int|
            0 <= i < items.len() ==> item_keeps_its_word(profiles, #[trigger] items[i]) {
            assert forall|i: int| 0 <= i < front.len() implies item_keeps_its_word(
                profiles,
                #[trigger] front[i],
            ) by {
                assert(item_keeps_its_word(profiles, items[i]));
            }
        }
    }
}

/// Every callable of a program writes finitely many automatons.
pub proof fn written_automata_are_few(program: Program, resolution: Resolution)
    ensures
        forall|id: CallableView|
            profiles_of(program_effects(program, resolution)).dom().contains(id) ==> (
            #[trigger] profiles_of(program_effects(program, resolution))[id]).automata.finite(),
{
    let direct = program_effects(program, resolution);
    let profiles = profiles_of(direct);
    effects_few(program.items@, resolution, program.items@);
    assert forall|id: CallableView| profiles.dom().contains(id) implies (
    #[trigger] profiles[id]).automata.finite() by {
        automata_few(direct, id);
    }
}

/// The profiles of a program are extracted exactly where every effect and
/// interrupt writes, by itself or through its calls, only what it lists and
/// nothing that it forbids itself.
pub proof fn extracted_iff_all_keep_their_word(program: Program, resolution: Resolution)
    ensures
        profiles_outcome(program, resolution) is Ok <==> forall|i: int|
            0 <= i < program.items@.len() ==> item_keeps_its_word(
                profiles_of(program_effects(program, resolution)),
                #[trigger] program.items@[i],
            ),
{
    let direct = program_effects(program, resolution);
    let profiles = profiles_of(direct);
    effects_few(program.items@, resolution, program.items@);
    assert forall|id: CallableView| profiles.dom().contains(id) implies (
    #[trigger] profiles[id]).automata.finite() by {
        automata_few(direct, id);
    }
    profile_errors_iff(profiles, program.items@);
}

// ─── Call graph ────────────────────────────────────────────────────────────

/// The call graph of a program is accepted exactly where its calls lead in no
/// circle.
pub proof fn accepted_iff_no_circle(program: Program, resolution: Resolution)
    ensures
        graph_outcome(program, resolution) is Ok <==> forall|c: Seq<CallableView>|
            !is_call_circle(call_graph(program_effects(program, resolution)), c),
{
    let direct = program_effects(program, resolution);
    let graph = call_graph(direct);
    effects_few(program.items@, resolution, program.items@);
    assert(graph.dom().subset_of(direct.dom())) by {
        assert forall|a: CallableView| graph.dom().contains(a) implies direct.dom().contains(a) by {
            let b = choose|b: CallableView| calls(direct, a, b);
            assert(calls(direct, a, b));
        }
    }
    vstd::set_lib::lemma_set_subset_finite(direct.dom(), graph.dom());
    no_report_iff_no_call_circle(graph);
}

} // verus!
