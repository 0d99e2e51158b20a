//! What the user is told of an error.
use vstd::prelude::*;

use crate::check::CheckErrorView;
use crate::codegen::error::CodegenErrorView;
use crate::effect::error::EffectErrorView;
use crate::text::{contains, dec, occurs_at};

verus! {

/// The text begins with the code.
pub open spec fn has_code(message: Seq<char>, code: Seq<char>) -> bool {
    message.len() >= code.len() && message.take(code.len() as int) == code
}

proof fn ends_in(s: Seq<char>, part: Seq<char>)
    ensures
        contains(s + part, part),
{
    let t = s + part;
    assert(t.subrange(s.len() as int, t.len() as int) =~= part);
    assert(occurs_at(t, part, s.len() as int));
}

proof fn goes_on(s: Seq<char>, more: Seq<char>, part: Seq<char>)
    requires
        contains(s, part),
    ensures
        contains(s + more, part),
{
    let i = choose|i: int| occurs_at(s, part, i);
    let t = s + more;
    assert(t.subrange(i, i + part.len()) =~= s.subrange(i, i + part.len()));
    assert(occurs_at(t, part, i));
}

proof fn code_goes_on(s: Seq<char>, more: Seq<char>, code: Seq<char>)
    requires
        has_code(s, code),
    ensures
        has_code(s + more, code),
{
    assert((s + more).take(code.len() as int) =~= s.take(code.len() as int));
}

/// The message of an error of a semantic check begins with the code of its kind and
/// says everything that the error holds.
pub proof fn check_messages_say_what_is_wrong(e: CheckErrorView)
    ensures
        match e {
            CheckErrorView::ImperativeInFunctional { construct, at } => {
                &&& has_code(e.message(), "E0101"@)
                &&& contains(e.message(), construct)
                &&& contains(e.message(), dec(at))
            },
            CheckErrorView::CrossBoundaryCall { callee_name, callee_kind, at } => {
                &&& has_code(e.message(), "E0102"@)
                &&& contains(e.message(), callee_kind)
                &&& contains(e.message(), callee_name)
                &&& contains(e.message(), dec(at))
            },
            CheckErrorView::WriteToUndeclaredAutomaton { automaton, enclosing, at } => {
                &&& has_code(e.message(), "E0302"@)
                &&& contains(e.message(), automaton)
                &&& contains(e.message(), enclosing)
                &&& contains(e.message(), dec(at))
            },
            CheckErrorView::WriteToCannotMutate { automaton, enclosing, at } => {
                &&& has_code(e.message(), "E0306"@)
                &&& contains(e.message(), automaton)
                &&& contains(e.message(), enclosing)
                &&& contains(e.message(), dec(at))
            },
            CheckErrorView::TotalityViolation { fn_name, call_at, decl_at } => {
                &&& has_code(e.message(), "E0540"@)
                &&& contains(e.message(), fn_name)
                &&& contains(e.message(), dec(call_at))
                &&& contains(e.message(), dec(decl_at))
            },
        },
{
    match e {
        CheckErrorView::ImperativeInFunctional { construct, at } => {
            assert(has_code("E0101: imperative construct `"@, "E0101"@)) by {
                reveal_strlit("E0101: imperative construct `");
                reveal_strlit("E0101");
                assert("E0101: imperative construct `"@.take(5) =~= "E0101"@);
            }
            let m0 = "E0101: imperative construct `"@;
            code_goes_on(m0, construct, "E0101"@);
            ends_in(m0, construct);
            let m1 = m0 + construct;
            code_goes_on(m1, "` in functional `@fn` body (at byte "@, "E0101"@);
            goes_on(m1, "` in functional `@fn` body (at byte "@, construct);
            let m2 = m1 + "` in functional `@fn` body (at byte "@;
            code_goes_on(m2, dec(at), "E0101"@);
            goes_on(m2, dec(at), construct);
            ends_in(m2, dec(at));
            let m3 = m2 + dec(at);
            code_goes_on(m3, ")"@, "E0101"@);
            goes_on(m3, ")"@, construct);
            goes_on(m3, ")"@, dec(at));
            let m4 = m3 + ")"@;
            assert(e.message() == m4);
        },
        CheckErrorView::CrossBoundaryCall { callee_name, callee_kind, at } => {
            assert(has_code("E0102: cross-boundary call: `@fn` body cannot call `"@, "E0102"@)) by {
                reveal_strlit("E0102: cross-boundary call: `@fn` body cannot call `");
                reveal_strlit("E0102");
                assert("E0102: cross-boundary call: `@fn` body cannot call `"@.take(5) =~= "E0102"@);
            }
            let m0 = "E0102: cross-boundary call: `@fn` body cannot call `"@;
            code_goes_on(m0, callee_kind, "E0102"@);
            ends_in(m0, callee_kind);
            let m1 = m0 + callee_kind;
            code_goes_on(m1, " "@, "E0102"@);
            goes_on(m1, " "@, callee_kind);
            let m2 = m1 + " "@;
            code_goes_on(m2, callee_name, "E0102"@);
            goes_on(m2, callee_name, callee_kind);
            ends_in(m2, callee_name);
            let m3 = m2 + callee_name;
            code_goes_on(m3, "` (at byte "@, "E0102"@);
            goes_on(m3, "` (at byte "@, callee_kind);
            goes_on(m3, "` (at byte "@, callee_name);
            let m4 = m3 + "` (at byte "@;
            code_goes_on(m4, dec(at), "E0102"@);
            goes_on(m4, dec(at), callee_kind);
            goes_on(m4, dec(at), callee_name);
            ends_in(m4, dec(at));
            let m5 = m4 + dec(at);
            code_goes_on(m5, ")"@, "E0102"@);
            goes_on(m5, ")"@, callee_kind);
            goes_on(m5, ")"@, callee_name);
            goes_on(m5, ")"@, dec(at));
            let m6 = m5 + ")"@;
            assert(e.message() == m6);
        },
        CheckErrorView::WriteToUndeclaredAutomaton { automaton, enclosing, at } => {
            assert(has_code("E0302: write to undeclared automaton `"@, "E0302"@)) by {
                reveal_strlit("E0302: write to undeclared automaton `");
                reveal_strlit("E0302");
                assert("E0302: write to undeclared automaton `"@.take(5) =~= "E0302"@);
            }
            let m0 = "E0302: write to undeclared automaton `"@;
            code_goes_on(m0, automaton, "E0302"@);
            ends_in(m0, automaton);
            let m1 = m0 + automaton;
            code_goes_on(m1, "`: not in `"@, "E0302"@);
            goes_on(m1, "`: not in `"@, automaton);
            let m2 = m1 + "`: not in `"@;
            code_goes_on(m2, enclosing, "E0302"@);
            goes_on(m2, enclosing, automaton);
            ends_in(m2, enclosing);
            let m3 = m2 + enclosing;
            code_goes_on(m3, "`'s `#mutates` set (at byte "@, "E0302"@);
            goes_on(m3, "`'s `#mutates` set (at byte "@, automaton);
            goes_on(m3, "`'s `#mutates` set (at byte "@, enclosing);
            let m4 = m3 + "`'s `#mutates` set (at byte "@;
            code_goes_on(m4, dec(at), "E0302"@);
            goes_on(m4, dec(at), automaton);
            goes_on(m4, dec(at), enclosing);
            ends_in(m4, dec(at));
            let m5 = m4 + dec(at);
            code_goes_on(m5, ")"@, "E0302"@);
            goes_on(m5, ")"@, automaton);
            goes_on(m5, ")"@, enclosing);
            goes_on(m5, ")"@, dec(at));
            let m6 = m5 + ")"@;
            assert(e.message() == m6);
        },
        CheckErrorView::WriteToCannotMutate { automaton, enclosing, at } => {
            assert(has_code("E0306: write to forbidden automaton `"@, "E0306"@)) by {
                reveal_strlit("E0306: write to forbidden automaton `");
                reveal_strlit("E0306");
                assert("E0306: write to forbidden automaton `"@.take(5) =~= "E0306"@);
            }
            let m0 = "E0306: write to forbidden automaton `"@;
            code_goes_on(m0, automaton, "E0306"@);
            ends_in(m0, automaton);
            let m1 = m0 + automaton;
            code_goes_on(m1, "`: explicitly listed in `"@, "E0306"@);
            goes_on(m1, "`: explicitly listed in `"@, automaton);
            let m2 = m1 + "`: explicitly listed in `"@;
            code_goes_on(m2, enclosing, "E0306"@);
            goes_on(m2, enclosing, automaton);
            ends_in(m2, enclosing);
            let m3 = m2 + enclosing;
            code_goes_on(m3, "`'s `#cannot_mutate` clause (at byte "@, "E0306"@);
            goes_on(m3, "`'s `#cannot_mutate` clause (at byte "@, automaton);
            goes_on(m3, "`'s `#cannot_mutate` clause (at byte "@, enclosing);
            let m4 = m3 + "`'s `#cannot_mutate` clause (at byte "@;
            code_goes_on(m4, dec(at), "E0306"@);
            goes_on(m4, dec(at), automaton);
            goes_on(m4, dec(at), enclosing);
            ends_in(m4, dec(at));
            let m5 = m4 + dec(at);
            code_goes_on(m5, ")"@, "E0306"@);
            goes_on(m5, ")"@, automaton);
            goes_on(m5, ")"@, enclosing);
            goes_on(m5, ")"@, dec(at));
            let m6 = m5 + ")"@;
            assert(e.message() == m6);
        },
        CheckErrorView::TotalityViolation { fn_name, call_at, decl_at } => {
            assert(has_code("E0540: non-`@partial` `@fn "@, "E0540"@)) by {
                reveal_strlit("E0540: non-`@partial` `@fn ");
                reveal_strlit("E0540");
                assert("E0540: non-`@partial` `@fn "@.take(5) =~= "E0540"@);
            }
            let m0 = "E0540: non-`@partial` `@fn "@;
            code_goes_on(m0, fn_name, "E0540"@);
            ends_in(m0, fn_name);
            let m1 = m0 + fn_name;
            code_goes_on(m1, "` contains a recursive call to itself; mark it `@partial @fn` to opt out of the totality check or restructure to remove the recursion (call site at byte "@, "E0540"@);
            goes_on(m1, "` contains a recursive call to itself; mark it `@partial @fn` to opt out of the totality check or restructure to remove the recursion (call site at byte "@, fn_name);
            let m2 = m1 + "` contains a recursive call to itself; mark it `@partial @fn` to opt out of the totality check or restructure to remove the recursion (call site at byte "@;
            code_goes_on(m2, dec(call_at), "E0540"@);
            goes_on(m2, dec(call_at), fn_name);
            ends_in(m2, dec(call_at));
            let m3 = m2 + dec(call_at);
            code_goes_on(m3, ", fn declared at byte "@, "E0540"@);
            goes_on(m3, ", fn declared at byte "@, fn_name);
            goes_on(m3, ", fn declared at byte "@, dec(call_at));
            let m4 = m3 + ", fn declared at byte "@;
            code_goes_on(m4, dec(decl_at), "E0540"@);
            goes_on(m4, dec(decl_at), fn_name);
            goes_on(m4, dec(decl_at), dec(call_at));
            ends_in(m4, dec(decl_at));
            let m5 = m4 + dec(decl_at);
            code_goes_on(m5, ")"@, "E0540"@);
            goes_on(m5, ")"@, fn_name);
            goes_on(m5, ")"@, dec(call_at));
            goes_on(m5, ")"@, dec(decl_at));
            let m6 = m5 + ")"@;
            assert(e.message() == m6);
        },
    }
}

/// The message of an error of effect analysis begins with the code of its kind and
/// says everything that the error holds.
pub proof fn effect_messages_say_what_is_wrong(e: EffectErrorView)
    ensures
        match e {
            EffectErrorView::UnknownState { automaton, transition, target, at } => {
                &&& has_code(e.message(), "E0430"@)
                &&& contains(e.message(), target)
                &&& contains(e.message(), transition)
                &&& contains(e.message(), automaton)
                &&& contains(e.message(), dec(at))
            },
            EffectErrorView::MonoidTransitionWithDestination { automaton, transition, target, at } => {
                &&& has_code(e.message(), "E0431"@)
                &&& contains(e.message(), automaton)
                &&& contains(e.message(), transition)
                &&& contains(e.message(), target)
                &&& contains(e.message(), dec(at))
            },
            EffectErrorView::DuplicateTransition { automaton, transition, original_at, duplicate_at } => {
                &&& has_code(e.message(), "E0432"@)
                &&& contains(e.message(), transition)
                &&& contains(e.message(), automaton)
                &&& contains(e.message(), dec(duplicate_at))
                &&& contains(e.message(), dec(original_at))
            },
            EffectErrorView::DuplicateState { automaton, state, original_at, duplicate_at } => {
                &&& has_code(e.message(), "E0433"@)
                &&& contains(e.message(), state)
                &&& contains(e.message(), automaton)
                &&& contains(e.message(), dec(duplicate_at))
                &&& contains(e.message(), dec(original_at))
            },
            EffectErrorView::EffectMutatesUndeclaredAutomaton { callable, automaton, at } => {
                &&& has_code(e.message(), "E0410"@)
                &&& contains(e.message(), callable)
                &&& contains(e.message(), automaton)
                &&& contains(e.message(), dec(at))
            },
            EffectErrorView::EffectMutatesExcludedAutomaton { callable, automaton, at } => {
                &&& has_code(e.message(), "E0411"@)
                &&& contains(e.message(), callable)
                &&& contains(e.message(), automaton)
                &&& contains(e.message(), dec(at))
            },
            EffectErrorView::ProcCallCycle { cycle_display, .. } => {
                &&& has_code(e.message(), "E0422"@)
                &&& contains(e.message(), cycle_display)
            },
        },
{
    match e {
        EffectErrorView::UnknownState { automaton, transition, target, at } => {
            assert(has_code("E0430: unknown state `"@, "E0430"@)) by {
                reveal_strlit("E0430: unknown state `");
                reveal_strlit("E0430");
                assert("E0430: unknown state `"@.take(5) =~= "E0430"@);
            }
            let m0 = "E0430: unknown state `"@;
            code_goes_on(m0, target, "E0430"@);
            ends_in(m0, target);
            let m1 = m0 + target;
            code_goes_on(m1, "` in transition `"@, "E0430"@);
            goes_on(m1, "` in transition `"@, target);
            let m2 = m1 + "` in transition `"@;
            code_goes_on(m2, transition, "E0430"@);
            goes_on(m2, transition, target);
            ends_in(m2, transition);
            let m3 = m2 + transition;
            code_goes_on(m3, "` of automaton `"@, "E0430"@);
            goes_on(m3, "` of automaton `"@, target);
            goes_on(m3, "` of automaton `"@, transition);
            let m4 = m3 + "` of automaton `"@;
            code_goes_on(m4, automaton, "E0430"@);
            goes_on(m4, automaton, target);
            goes_on(m4, automaton, transition);
            ends_in(m4, automaton);
            let m5 = m4 + automaton;
            code_goes_on(m5, "` (at byte "@, "E0430"@);
            goes_on(m5, "` (at byte "@, target);
            goes_on(m5, "` (at byte "@, transition);
            goes_on(m5, "` (at byte "@, automaton);
            let m6 = m5 + "` (at byte "@;
            code_goes_on(m6, dec(at), "E0430"@);
            goes_on(m6, dec(at), target);
            goes_on(m6, dec(at), transition);
            goes_on(m6, dec(at), automaton);
            ends_in(m6, dec(at));
            let m7 = m6 + dec(at);
            code_goes_on(m7, ")"@, "E0430"@);
            goes_on(m7, ")"@, target);
            goes_on(m7, ")"@, transition);
            goes_on(m7, ")"@, automaton);
            goes_on(m7, ")"@, dec(at));
            let m8 = m7 + ")"@;
            assert(e.message() == m8);
        },
        EffectErrorView::MonoidTransitionWithDestination { automaton, transition, target, at } => {
            assert(has_code("E0431: monoid automaton `"@, "E0431"@)) by {
                reveal_strlit("E0431: monoid automaton `");
                reveal_strlit("E0431");
                assert("E0431: monoid automaton `"@.take(5) =~= "E0431"@);
            }
            let m0 = "E0431: monoid automaton `"@;
            code_goes_on(m0, automaton, "E0431"@);
            ends_in(m0, automaton);
            let m1 = m0 + automaton;
            code_goes_on(m1, "` has transition `"@, "E0431"@);
            goes_on(m1, "` has transition `"@, automaton);
            let m2 = m1 + "` has transition `"@;
            code_goes_on(m2, transition, "E0431"@);
            goes_on(m2, transition, automaton);
            ends_in(m2, transition);
            let m3 = m2 + transition;
            code_goes_on(m3, "` with destination `"@, "E0431"@);
            goes_on(m3, "` with destination `"@, automaton);
            goes_on(m3, "` with destination `"@, transition);
            let m4 = m3 + "` with destination `"@;
            code_goes_on(m4, target, "E0431"@);
            goes_on(m4, target, automaton);
            goes_on(m4, target, transition);
            ends_in(m4, target);
            let m5 = m4 + target;
            code_goes_on(m5, "` (at byte "@, "E0431"@);
            goes_on(m5, "` (at byte "@, automaton);
            goes_on(m5, "` (at byte "@, transition);
            goes_on(m5, "` (at byte "@, target);
            let m6 = m5 + "` (at byte "@;
            code_goes_on(m6, dec(at), "E0431"@);
            goes_on(m6, dec(at), automaton);
            goes_on(m6, dec(at), transition);
            goes_on(m6, dec(at), target);
            ends_in(m6, dec(at));
            let m7 = m6 + dec(at);
            code_goes_on(m7, "); monoid transitions cannot specify a destination"@, "E0431"@);
            goes_on(m7, "); monoid transitions cannot specify a destination"@, automaton);
            goes_on(m7, "); monoid transitions cannot specify a destination"@, transition);
            goes_on(m7, "); monoid transitions cannot specify a destination"@, target);
            goes_on(m7, "); monoid transitions cannot specify a destination"@, dec(at));
            let m8 = m7 + "); monoid transitions cannot specify a destination"@;
            assert(e.message() == m8);
        },
        EffectErrorView::DuplicateTransition { automaton, transition, original_at, duplicate_at } => {
            assert(has_code("E0432: duplicate transition `"@, "E0432"@)) by {
                reveal_strlit("E0432: duplicate transition `");
                reveal_strlit("E0432");
                assert("E0432: duplicate transition `"@.take(5) =~= "E0432"@);
            }
            let m0 = "E0432: duplicate transition `"@;
            code_goes_on(m0, transition, "E0432"@);
            ends_in(m0, transition);
            let m1 = m0 + transition;
            code_goes_on(m1, "` in automaton `"@, "E0432"@);
            goes_on(m1, "` in automaton `"@, transition);
            let m2 = m1 + "` in automaton `"@;
            code_goes_on(m2, automaton, "E0432"@);
            goes_on(m2, automaton, transition);
            ends_in(m2, automaton);
            let m3 = m2 + automaton;
            code_goes_on(m3, "` (at byte "@, "E0432"@);
            goes_on(m3, "` (at byte "@, transition);
            goes_on(m3, "` (at byte "@, automaton);
            let m4 = m3 + "` (at byte "@;
            code_goes_on(m4, dec(duplicate_at), "E0432"@);
            goes_on(m4, dec(duplicate_at), transition);
            goes_on(m4, dec(duplicate_at), automaton);
            ends_in(m4, dec(duplicate_at));
            let m5 = m4 + dec(duplicate_at);
            code_goes_on(m5, "; first declared at byte "@, "E0432"@);
            goes_on(m5, "; first declared at byte "@, transition);
            goes_on(m5, "; first declared at byte "@, automaton);
            goes_on(m5, "; first declared at byte "@, dec(duplicate_at));
            let m6 = m5 + "; first declared at byte "@;
            code_goes_on(m6, dec(original_at), "E0432"@);
            goes_on(m6, dec(original_at), transition);
            goes_on(m6, dec(original_at), automaton);
            goes_on(m6, dec(original_at), dec(duplicate_at));
            ends_in(m6, dec(original_at));
            let m7 = m6 + dec(original_at);
            code_goes_on(m7, ")"@, "E0432"@);
            goes_on(m7, ")"@, transition);
            goes_on(m7, ")"@, automaton);
            goes_on(m7, ")"@, dec(duplicate_at));
            goes_on(m7, ")"@, dec(original_at));
            let m8 = m7 + ")"@;
            assert(e.message() == m8);
        },
        EffectErrorView::DuplicateState { automaton, state, original_at, duplicate_at } => {
            assert(has_code("E0433: duplicate state `"@, "E0433"@)) by {
                reveal_strlit("E0433: duplicate state `");
                reveal_strlit("E0433");
                assert("E0433: duplicate state `"@.take(5) =~= "E0433"@);
            }
            let m0 = "E0433: duplicate state `"@;
            code_goes_on(m0, state, "E0433"@);
            ends_in(m0, state);
            let m1 = m0 + state;
            code_goes_on(m1, "` in automaton `"@, "E0433"@);
            goes_on(m1, "` in automaton `"@, state);
            let m2 = m1 + "` in automaton `"@;
            code_goes_on(m2, automaton, "E0433"@);
            goes_on(m2, automaton, state);
            ends_in(m2, automaton);
            let m3 = m2 + automaton;
            code_goes_on(m3, "` (at byte "@, "E0433"@);
            goes_on(m3, "` (at byte "@, state);
            goes_on(m3, "` (at byte "@, automaton);
            let m4 = m3 + "` (at byte "@;
            code_goes_on(m4, dec(duplicate_at), "E0433"@);
            goes_on(m4, dec(duplicate_at), state);
            goes_on(m4, dec(duplicate_at), automaton);
            ends_in(m4, dec(duplicate_at));
            let m5 = m4 + dec(duplicate_at);
            code_goes_on(m5, "; first declared at byte "@, "E0433"@);
            goes_on(m5, "; first declared at byte "@, state);
            goes_on(m5, "; first declared at byte "@, automaton);
            goes_on(m5, "; first declared at byte "@, dec(duplicate_at));
            let m6 = m5 + "; first declared at byte "@;
            code_goes_on(m6, dec(original_at), "E0433"@);
            goes_on(m6, dec(original_at), state);
            goes_on(m6, dec(original_at), automaton);
            goes_on(m6, dec(original_at), dec(duplicate_at));
            ends_in(m6, dec(original_at));
            let m7 = m6 + dec(original_at);
            code_goes_on(m7, ")"@, "E0433"@);
            goes_on(m7, ")"@, state);
            goes_on(m7, ")"@, automaton);
            goes_on(m7, ")"@, dec(duplicate_at));
            goes_on(m7, ")"@, dec(original_at));
            let m8 = m7 + ")"@;
            assert(e.message() == m8);
        },
        EffectErrorView::EffectMutatesUndeclaredAutomaton { callable, automaton, at } => {
            assert(has_code("E0410: effect `"@, "E0410"@)) by {
                reveal_strlit("E0410: effect `");
                reveal_strlit("E0410");
                assert("E0410: effect `"@.take(5) =~= "E0410"@);
            }
            let m0 = "E0410: effect `"@;
            code_goes_on(m0, callable, "E0410"@);
            ends_in(m0, callable);
            let m1 = m0 + callable;
            code_goes_on(m1, "` mutates undeclared automaton `"@, "E0410"@);
            goes_on(m1, "` mutates undeclared automaton `"@, callable);
            let m2 = m1 + "` mutates undeclared automaton `"@;
            code_goes_on(m2, automaton, "E0410"@);
            goes_on(m2, automaton, callable);
            ends_in(m2, automaton);
            let m3 = m2 + automaton;
            code_goes_on(m3, "` (at byte "@, "E0410"@);
            goes_on(m3, "` (at byte "@, callable);
            goes_on(m3, "` (at byte "@, automaton);
            let m4 = m3 + "` (at byte "@;
            code_goes_on(m4, dec(at), "E0410"@);
            goes_on(m4, dec(at), callable);
            goes_on(m4, dec(at), automaton);
            ends_in(m4, dec(at));
            let m5 = m4 + dec(at);
            code_goes_on(m5, ")"@, "E0410"@);
            goes_on(m5, ")"@, callable);
            goes_on(m5, ")"@, automaton);
            goes_on(m5, ")"@, dec(at));
            let m6 = m5 + ")"@;
            assert(e.message() == m6);
        },
        EffectErrorView::EffectMutatesExcludedAutomaton { callable, automaton, at } => {
            assert(has_code("E0411: effect `"@, "E0411"@)) by {
                reveal_strlit("E0411: effect `");
                reveal_strlit("E0411");
                assert("E0411: effect `"@.take(5) =~= "E0411"@);
            }
            let m0 = "E0411: effect `"@;
            code_goes_on(m0, callable, "E0411"@);
            ends_in(m0, callable);
            let m1 = m0 + callable;
            code_goes_on(m1, "` mutates excluded automaton `"@, "E0411"@);
            goes_on(m1, "` mutates excluded automaton `"@, callable);
            let m2 = m1 + "` mutates excluded automaton `"@;
            code_goes_on(m2, automaton, "E0411"@);
            goes_on(m2, automaton, callable);
            ends_in(m2, automaton);
            let m3 = m2 + automaton;
            code_goes_on(m3, "` (at byte "@, "E0411"@);
            goes_on(m3, "` (at byte "@, callable);
            goes_on(m3, "` (at byte "@, automaton);
            let m4 = m3 + "` (at byte "@;
            code_goes_on(m4, dec(at), "E0411"@);
            goes_on(m4, dec(at), callable);
            goes_on(m4, dec(at), automaton);
            ends_in(m4, dec(at));
            let m5 = m4 + dec(at);
            code_goes_on(m5, ")"@, "E0411"@);
            goes_on(m5, ")"@, callable);
            goes_on(m5, ")"@, automaton);
            goes_on(m5, ")"@, dec(at));
            let m6 = m5 + ")"@;
            assert(e.message() == m6);
        },
        EffectErrorView::ProcCallCycle { cycle_display, .. } => {
            assert(has_code("E0422: proc-call cycle detected: "@, "E0422"@)) by {
                reveal_strlit("E0422: proc-call cycle detected: ");
                reveal_strlit("E0422");
                assert("E0422: proc-call cycle detected: "@.take(5) =~= "E0422"@);
            }
            let m0 = "E0422: proc-call cycle detected: "@;
            code_goes_on(m0, cycle_display, "E0422"@);
            ends_in(m0, cycle_display);
            let m1 = m0 + cycle_display;
            assert(e.message() == m1);
        },
    }
}

/// The message of an error of code generation begins with the code of its kind and
/// says everything that the error holds.
pub proof fn codegen_messages_say_what_is_wrong(e: CodegenErrorView)
    ensures
        match e {
            CodegenErrorView::NotYetImplemented { what } => {
                &&& has_code(e.message(), "E0810"@)
                &&& contains(e.message(), what)
            },
            CodegenErrorView::UnresolvedName { name } => {
                &&& has_code(e.message(), "E0811"@)
                &&& contains(e.message(), name)
            },
            CodegenErrorView::BadLiteral { literal, reason } => {
                &&& has_code(e.message(), "E0812"@)
                &&& contains(e.message(), literal)
                &&& contains(e.message(), reason)
            },
        },
{
    match e {
        CodegenErrorView::NotYetImplemented { what } => {
            assert(has_code("E0810: codegen not yet implemented for "@, "E0810"@)) by {
                reveal_strlit("E0810: codegen not yet implemented for ");
                reveal_strlit("E0810");
                assert("E0810: codegen not yet implemented for "@.take(5) =~= "E0810"@);
            }
            let m0 = "E0810: codegen not yet implemented for "@;
            code_goes_on(m0, what, "E0810"@);
            ends_in(m0, what);
            let m1 = m0 + what;
            assert(e.message() == m1);
        },
        CodegenErrorView::UnresolvedName { name } => {
            assert(has_code("E0811: codegen could not resolve name `"@, "E0811"@)) by {
                reveal_strlit("E0811: codegen could not resolve name `");
                reveal_strlit("E0811");
                assert("E0811: codegen could not resolve name `"@.take(5) =~= "E0811"@);
            }
            let m0 = "E0811: codegen could not resolve name `"@;
            code_goes_on(m0, name, "E0811"@);
            ends_in(m0, name);
            let m1 = m0 + name;
            code_goes_on(m1, "` (likely an upstream resolver bug)"@, "E0811"@);
            goes_on(m1, "` (likely an upstream resolver bug)"@, name);
            let m2 = m1 + "` (likely an upstream resolver bug)"@;
            assert(e.message() == m2);
        },
        CodegenErrorView::BadLiteral { literal, reason } => {
            assert(has_code("E0812: codegen could not interpret literal `"@, "E0812"@)) by {
                reveal_strlit("E0812: codegen could not interpret literal `");
                reveal_strlit("E0812");
                assert("E0812: codegen could not interpret literal `"@.take(5) =~= "E0812"@);
            }
            let m0 = "E0812: codegen could not interpret literal `"@;
            code_goes_on(m0, literal, "E0812"@);
            ends_in(m0, literal);
            let m1 = m0 + literal;
            code_goes_on(m1, "`: "@, "E0812"@);
            goes_on(m1, "`: "@, literal);
            let m2 = m1 + "`: "@;
            code_goes_on(m2, reason, "E0812"@);
            goes_on(m2, reason, literal);
            ends_in(m2, reason);
            let m3 = m2 + reason;
            assert(e.message() == m3);
        },
    }
}

} // verus!
