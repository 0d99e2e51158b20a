//! Where diagnostics point: the offset that is read from a message is the place
//! of the error that the message is about.
use vstd::prelude::*;

use crate::check::CheckErrorView;
use crate::codegen::error::CodegenErrorView;
use crate::driver::{diagnostic, digits_end, digits_end_at, offset_in};
use crate::effect::error::EffectErrorView;
use crate::text::{
    dec, decimal_is_digits, decimal_reads_back, find_first, find_first_is_first, is_digit,
    occurs_at,
};

verus! {

/// A digit stands behind a space at place `i`.
pub open spec fn number_at(s: Seq<char>, i: int) -> bool {
    s[i] == ' ' && is_digit(s[i + 1])
}

/// The text holds no number of its own: no digit stands first or behind a space.
pub open spec fn is_plain(s: Seq<char>) -> bool {
    &&& s.len() > 0 ==> !is_digit(s[0])
    &&& forall|i: int| 0 <= i < s.len() - 1 ==> !#[trigger] number_at(s, i)
}

/// No digit stands behind a space from place `i` on.
spec fn plain_from(s: Seq<char>, i: int) -> bool
    decreases s.len() - i,
{
    i >= s.len() - 1 || (!number_at(s, i) && plain_from(s, i + 1))
}

proof fn plain_step_by_step(s: Seq<char>, i: int)
    requires
        0 <= i,
        plain_from(s, i),
    ensures
        forall|j: int| i <= j < s.len() - 1 ==> !#[trigger] number_at(s, j),
    decreases s.len() - i,
{
    if i < s.len() - 1 {
        plain_step_by_step(s, i + 1);
    }
}

proof fn plain_texts_join(a: Seq<char>, b: Seq<char>)
    requires
        is_plain(a),
        is_plain(b),
    ensures
        is_plain(a + b),
{
    let s = a + b;
    assert forall|i: int| 0 <= i < s.len() - 1 implies !#[trigger] number_at(s, i) by {
        if i + 1 < a.len() {
            assert(!number_at(a, i));
        } else if i >= a.len() {
            assert(!number_at(b, i - a.len()));
        }
    }
}

proof fn mentions_are_apart(s: Seq<char>, i: int, j: int)
    requires
        occurs_at(s, "byte "@, i),
        occurs_at(s, "byte "@, j),
        i < j,
    ensures
        i + 5 <= j,
{
    reveal_strlit("byte ");
    assert(s.subrange(j, j + 5)[0] == s[j]);
    if j < i + 5 {
        assert(s.subrange(i, i + 5)[j - i] == s[j]);
    }
}

proof fn mentions_without_a_number_are_skipped(s: Seq<char>, from: int, at: int)
    requires
        0 <= from <= at,
        occurs_at(s, "byte "@, at),
        forall|i: int| 0 <= i < at + 4 ==> !#[trigger] number_at(s, i),
    ensures
        offset_in(s, from) == offset_in(s, at),
    decreases at - from,
{
    reveal_strlit("byte ");
    find_first_is_first(s, "byte "@, from);
    find_first_is_first(s, "byte "@, at);
    let i = find_first(s, "byte "@, from)->0;
    if i < at {
        mentions_are_apart(s, i, at);
        assert(s.subrange(i, i + 5)[4] == s[i + 4]);
        assert(!number_at(s, i + 4));
        assert(digits_end(s, i + 5) == i + 5);
        mentions_without_a_number_are_skipped(s, i + 5, at);
    }
}

proof fn no_number_no_offset(s: Seq<char>, from: int)
    requires
        0 <= from,
        is_plain(s),
    ensures
        offset_in(s, from) is None,
    decreases s.len() - from,
{
    reveal_strlit("byte ");
    find_first_is_first(s, "byte "@, from);
    if let Some(i) = find_first(s, "byte "@, from) {
        assert(s.subrange(i, i + 5)[4] == s[i + 4]);
        if i + 5 < s.len() {
            assert(!number_at(s, i + 4));
        }
        assert(digits_end(s, i + 5) == i + 5);
        if from < i + 5 <= s.len() {
            no_number_no_offset(s, i + 5);
        }
    }
}

/// The text ends where an offset is about to be named.
pub open spec fn ends_in_byte(s: Seq<char>) -> bool {
    s.len() >= 5 && s.subrange(s.len() - 5, s.len() as int) == "byte "@
}

/// A number behind `byte ` is the offset of a message that holds no number
/// before it.
pub proof fn first_number_is_the_offset(before: Seq<char>, n: nat, after: Seq<char>)
    requires
        n <= usize::MAX,
        is_plain(before),
        ends_in_byte(before),
        after.len() > 0 ==> !is_digit(after[0]),
    ensures
        offset_in(before + dec(n) + after, 0) == Some(n),
{
    reveal_strlit("byte ");
    let s = before + dec(n) + after;
    let at = before.len() - 5;
    let start = before.len() as int;
    let end = start + dec(n).len();
    decimal_is_digits(n);
    decimal_reads_back(n, usize::MAX as nat);
    assert(s.subrange(at, at + 5) =~= before.subrange(at, start));
    assert forall|i: int| 0 <= i < at + 4 implies !#[trigger] number_at(s, i) by {
        assert(!number_at(before, i));
    }
    mentions_without_a_number_are_skipped(s, 0, at);
    find_first_is_first(s, "byte "@, at);
    assert forall|i: int| start <= i < end implies is_digit(#[trigger] s[i]) by {
        assert(s[i] == dec(n)[i - start]);
    }
    if end < s.len() {
        assert(s[end] == after[0]);
    }
    digits_end_at(s, start, end);
    assert(s.subrange(start, end) =~= dec(n));
}

/// A name that starts with no digit and holds no space holds no number of its
/// own.
pub proof fn names_are_plain(name: Seq<char>)
    requires
        name.len() > 0 ==> !is_digit(name[0]),
        forall|i: int| 0 <= i < name.len() ==> #[trigger] name[i] != ' ',
    ensures
        is_plain(name),
{
}

proof fn place_after_a_name(s: Seq<char>)
    requires
        is_plain(s),
    ensures
        is_plain(s + "` (at byte "@),
        ends_in_byte(s + "` (at byte "@),
{
    reveal_strlit("` (at byte ");
    reveal_strlit("byte ");
    reveal_with_fuel(plain_from, 12);
    plain_step_by_step("` (at byte "@, 0);
    plain_texts_join(s, "` (at byte "@);
    let t = s + "` (at byte "@;
    assert(t.subrange(t.len() - 5, t.len() as int) =~= "byte "@);
}

// ─── Check errors ──────────────────────────────────────────────────────────

/// The texts that the error inserts into its message hold no number.
pub open spec fn check_error_is_plain(e: CheckErrorView) -> bool {
    match e {
        CheckErrorView::ImperativeInFunctional { construct, .. } => is_plain(construct),
        CheckErrorView::CrossBoundaryCall { callee_name, callee_kind, .. } => is_plain(callee_name)
            && is_plain(callee_kind),
        CheckErrorView::WriteToUndeclaredAutomaton { automaton, enclosing, .. } => is_plain(
            automaton,
        ) && is_plain(enclosing),
        CheckErrorView::WriteToCannotMutate { automaton, enclosing, .. } => is_plain(automaton)
            && is_plain(enclosing),
        CheckErrorView::TotalityViolation { fn_name, .. } => is_plain(fn_name),
    }
}

/// The diagnostic of a check error points at the error.
pub proof fn check_diagnostics_point_at_the_error(e: CheckErrorView)
    requires
        check_error_is_plain(e),
        e.offset() <= usize::MAX,
    ensures
        diagnostic(e.message()).primary_offset == Some(e.offset()),
{
    match e {
        CheckErrorView::ImperativeInFunctional { construct, at } => {
            let t0 = "E0101: imperative construct `"@;
            assert(is_plain(t0)) by {
                reveal_strlit("E0101: imperative construct `");
                reveal_with_fuel(plain_from, 30);
                plain_step_by_step(t0, 0);
            }
            let t1 = "` in functional `@fn` body (at byte "@;
            assert(is_plain(t1)) by {
                reveal_strlit("` in functional `@fn` body (at byte ");
                reveal_with_fuel(plain_from, 37);
                plain_step_by_step(t1, 0);
            }
            plain_texts_join(t0, construct);
            plain_texts_join(t0 + construct, t1);
            let before = t0 + construct + t1;
            assert(ends_in_byte(before)) by {
                reveal_strlit("` in functional `@fn` body (at byte ");
                reveal_strlit("byte ");
                assert(before.subrange(before.len() - 5, before.len() as int) =~= "byte "@);
            }
            let after = ")"@;
            reveal_strlit(")");
            first_number_is_the_offset(before, at, after);
            assert(e.message() =~= before + dec(at) + after);
        },
        CheckErrorView::CrossBoundaryCall { callee_name, callee_kind, at } => {
            let t0 = "E0102: cross-boundary call: `@fn` body cannot call `"@;
            assert(is_plain(t0)) by {
                reveal_strlit("E0102: cross-boundary call: `@fn` body cannot call `");
                reveal_with_fuel(plain_from, 53);
                plain_step_by_step(t0, 0);
            }
            let t1 = " "@;
            assert(is_plain(t1)) by {
                reveal_strlit(" ");
                reveal_with_fuel(plain_from, 3);
                plain_step_by_step(t1, 0);
            }
            plain_texts_join(t0, callee_kind);
            plain_texts_join(t0 + callee_kind, t1);
            plain_texts_join(t0 + callee_kind + t1, callee_name);
            place_after_a_name(t0 + callee_kind + t1 + callee_name);
            let before = t0 + callee_kind + t1 + callee_name + "` (at byte "@;
            let after = ")"@;
            reveal_strlit(")");
            first_number_is_the_offset(before, at, after);
            assert(e.message() =~= before + dec(at) + after);
        },
        CheckErrorView::WriteToUndeclaredAutomaton { automaton, enclosing, at } => {
            let t0 = "E0302: write to undeclared automaton `"@;
            assert(is_plain(t0)) by {
                reveal_strlit("E0302: write to undeclared automaton `");
                reveal_with_fuel(plain_from, 39);
                plain_step_by_step(t0, 0);
            }
            let t1 = "`: not in `"@;
            assert(is_plain(t1)) by {
                reveal_strlit("`: not in `");
                reveal_with_fuel(plain_from, 12);
                plain_step_by_step(t1, 0);
            }
            let t2 = "`'s `#mutates` set (at byte "@;
            assert(is_plain(t2)) by {
                reveal_strlit("`'s `#mutates` set (at byte ");
                reveal_with_fuel(plain_from, 29);
                plain_step_by_step(t2, 0);
            }
            plain_texts_join(t0, automaton);
            plain_texts_join(t0 + automaton, t1);
            plain_texts_join(t0 + automaton + t1, enclosing);
            plain_texts_join(t0 + automaton + t1 + enclosing, t2);
            let before = t0 + automaton + t1 + enclosing + t2;
            assert(ends_in_byte(before)) by {
                reveal_strlit("`'s `#mutates` set (at byte ");
                reveal_strlit("byte ");
                assert(before.subrange(before.len() - 5, before.len() as int) =~= "byte "@);
            }
            let after = ")"@;
            reveal_strlit(")");
            first_number_is_the_offset(before, at, after);
            assert(e.message() =~= before + dec(at) + after);
        },
        CheckErrorView::WriteToCannotMutate { automaton, enclosing, at } => {
            let t0 = "E0306: write to forbidden automaton `"@;
            assert(is_plain(t0)) by {
                reveal_strlit("E0306: write to forbidden automaton `");
                reveal_with_fuel(plain_from, 38);
                plain_step_by_step(t0, 0);
            }
            let t1 = "`: explicitly listed in `"@;
            assert(is_plain(t1)) by {
                reveal_strlit("`: explicitly listed in `");
                reveal_with_fuel(plain_from, 26);
                plain_step_by_step(t1, 0);
            }
            let t2 = "`'s `#cannot_mutate` clause (at byte "@;
            assert(is_plain(t2)) by {
                reveal_strlit("`'s `#cannot_mutate` clause (at byte ");
                reveal_with_fuel(plain_from, 38);
                plain_step_by_step(t2, 0);
            }
            plain_texts_join(t0, automaton);
            plain_texts_join(t0 + automaton, t1);
            plain_texts_join(t0 + automaton + t1, enclosing);
            plain_texts_join(t0 + automaton + t1 + enclosing, t2);
            let before = t0 + automaton + t1 + enclosing + t2;
            assert(ends_in_byte(before)) by {
                reveal_strlit("`'s `#cannot_mutate` clause (at byte ");
                reveal_strlit("byte ");
                assert(before.subrange(before.len() - 5, before.len() as int) =~= "byte "@);
            }
            let after = ")"@;
            reveal_strlit(")");
            first_number_is_the_offset(before, at, after);
            assert(e.message() =~= before + dec(at) + after);
        },
        CheckErrorView::TotalityViolation { fn_name, call_at, decl_at } => {
            let t0 = "E0540: non-`@partial` `@fn "@;
            assert(is_plain(t0)) by {
                reveal_strlit("E0540: non-`@partial` `@fn ");
                reveal_with_fuel(plain_from, 28);
                plain_step_by_step(t0, 0);
            }
            let t1 = "` contains a recursive call to itself; mark it `@partial @fn` to opt out of the totality check or restructure to remove the recursion (call site at byte "@;
            assert(is_plain(t1)) by {
                reveal_strlit("` contains a recursive call to itself; mark it `@partial @fn` to opt out of the totality check or restructure to remove the recursion (call site at byte ");
                reveal_with_fuel(plain_from, 60);
                assert(plain_from(t1, 120));
                assert(plain_from(t1, 80));
                assert(plain_from(t1, 40));
                plain_step_by_step(t1, 0);
            }
            plain_texts_join(t0, fn_name);
            plain_texts_join(t0 + fn_name, t1);
            let before = t0 + fn_name + t1;
            assert(ends_in_byte(before)) by {
                reveal_strlit("` contains a recursive call to itself; mark it `@partial @fn` to opt out of the totality check or restructure to remove the recursion (call site at byte ");
                reveal_strlit("byte ");
                assert(before.subrange(before.len() - 5, before.len() as int) =~= "byte "@);
            }
            let after = ", fn declared at byte "@ + dec(decl_at) + ")"@;
            reveal_strlit(", fn declared at byte ");
            reveal_strlit(")");
            first_number_is_the_offset(before, call_at, after);
            assert(e.message() =~= before + dec(call_at) + after);
        },
    }
}

// ─── Effect errors ─────────────────────────────────────────────────────────

/// The texts that the error inserts into its message hold no number.
pub open spec fn effect_error_is_plain(e: EffectErrorView) -> bool {
    match e {
        EffectErrorView::UnknownState { automaton, transition, target, .. } => is_plain(automaton)
            && is_plain(transition) && is_plain(target),
        EffectErrorView::MonoidTransitionWithDestination { automaton, transition, target, .. } => {
            is_plain(automaton) && is_plain(transition) && is_plain(target)
        },
        EffectErrorView::DuplicateTransition { automaton, transition, .. } => is_plain(automaton)
            && is_plain(transition),
        EffectErrorView::DuplicateState { automaton, state, .. } => is_plain(automaton)
            && is_plain(state),
        EffectErrorView::EffectMutatesUndeclaredAutomaton { callable, automaton, .. } => {
            is_plain(callable) && is_plain(automaton)
        },
        EffectErrorView::EffectMutatesExcludedAutomaton { callable, automaton, .. } => {
            is_plain(callable) && is_plain(automaton)
        },
        EffectErrorView::ProcCallCycle { cycle_display, .. } => is_plain(cycle_display),
    }
}

/// The diagnostic of an effect error points at the error. A circle of calls is
/// at no one place, and its diagnostic points nowhere.
pub proof fn effect_diagnostics_point_at_the_error(e: EffectErrorView)
    requires
        effect_error_is_plain(e),
        e.offset() <= usize::MAX,
    ensures
        diagnostic(e.message()).primary_offset == if e is ProcCallCycle {
            None
        } else {
            Some(e.offset())
        },
{
    match e {
        EffectErrorView::UnknownState { automaton, transition, target, at } => {
            let t0 = "E0430: unknown state `"@;
            assert(is_plain(t0)) by {
                reveal_strlit("E0430: unknown state `");
                reveal_with_fuel(plain_from, 23);
                plain_step_by_step(t0, 0);
            }
            let t1 = "` in transition `"@;
            assert(is_plain(t1)) by {
                reveal_strlit("` in transition `");
                reveal_with_fuel(plain_from, 18);
                plain_step_by_step(t1, 0);
            }
            let t2 = "` of automaton `"@;
            assert(is_plain(t2)) by {
                reveal_strlit("` of automaton `");
                reveal_with_fuel(plain_from, 17);
                plain_step_by_step(t2, 0);
            }
            plain_texts_join(t0, target);
            plain_texts_join(t0 + target, t1);
            plain_texts_join(t0 + target + t1, transition);
            plain_texts_join(t0 + target + t1 + transition, t2);
            plain_texts_join(t0 + target + t1 + transition + t2, automaton);
            place_after_a_name(t0 + target + t1 + transition + t2 + automaton);
            let before = t0 + target + t1 + transition + t2 + automaton + "` (at byte "@;
            let after = ")"@;
            reveal_strlit(")");
            first_number_is_the_offset(before, at, after);
            assert(e.message() =~= before + dec(at) + after);
        },
        EffectErrorView::MonoidTransitionWithDestination { automaton, transition, target, at } => {
            let t0 = "E0431: monoid automaton `"@;
            assert(is_plain(t0)) by {
                reveal_strlit("E0431: monoid automaton `");
                reveal_with_fuel(plain_from, 26);
                plain_step_by_step(t0, 0);
            }
            let t1 = "` has transition `"@;
            assert(is_plain(t1)) by {
                reveal_strlit("` has transition `");
                reveal_with_fuel(plain_from, 19);
                plain_step_by_step(t1, 0);
            }
            let t2 = "` with destination `"@;
            assert(is_plain(t2)) by {
                reveal_strlit("` with destination `");
                reveal_with_fuel(plain_from, 21);
                plain_step_by_step(t2, 0);
            }
            plain_texts_join(t0, automaton);
            plain_texts_join(t0 + automaton, t1);
            plain_texts_join(t0 + automaton + t1, transition);
            plain_texts_join(t0 + automaton + t1 + transition, t2);
            plain_texts_join(t0 + automaton + t1 + transition + t2, target);
            place_after_a_name(t0 + automaton + t1 + transition + t2 + target);
            let before = t0 + automaton + t1 + transition + t2 + target + "` (at byte "@;
            let after = "); monoid transitions cannot specify a destination"@;
            reveal_strlit("); monoid transitions cannot specify a destination");
            first_number_is_the_offset(before, at, after);
            assert(e.message() =~= before + dec(at) + after);
        },
        EffectErrorView::DuplicateTransition { automaton, transition, original_at, duplicate_at } => {
            let t0 = "E0432: duplicate transition `"@;
            assert(is_plain(t0)) by {
                reveal_strlit("E0432: duplicate transition `");
                reveal_with_fuel(plain_from, 30);
                plain_step_by_step(t0, 0);
            }
            let t1 = "` in automaton `"@;
            assert(is_plain(t1)) by {
                reveal_strlit("` in automaton `");
                reveal_with_fuel(plain_from, 17);
                plain_step_by_step(t1, 0);
            }
            plain_texts_join(t0, transition);
            plain_texts_join(t0 + transition, t1);
            plain_texts_join(t0 + transition + t1, automaton);
            place_after_a_name(t0 + transition + t1 + automaton);
            let before = t0 + transition + t1 + automaton + "` (at byte "@;
            let after = "; first declared at byte "@ + dec(original_at) + ")"@;
            reveal_strlit("; first declared at byte ");
            reveal_strlit(")");
            first_number_is_the_offset(before, duplicate_at, after);
            assert(e.message() =~= before + dec(duplicate_at) + after);
        },
        EffectErrorView::DuplicateState { automaton, state, original_at, duplicate_at } => {
            let t0 = "E0433: duplicate state `"@;
            assert(is_plain(t0)) by {
                reveal_strlit("E0433: duplicate state `");
                reveal_with_fuel(plain_from, 25);
                plain_step_by_step(t0, 0);
            }
            let t1 = "` in automaton `"@;
            assert(is_plain(t1)) by {
                reveal_strlit("` in automaton `");
                reveal_with_fuel(plain_from, 17);
                plain_step_by_step(t1, 0);
            }
            plain_texts_join(t0, state);
            plain_texts_join(t0 + state, t1);
            plain_texts_join(t0 + state + t1, automaton);
            place_after_a_name(t0 + state + t1 + automaton);
            let before = t0 + state + t1 + automaton + "` (at byte "@;
            let after = "; first declared at byte "@ + dec(original_at) + ")"@;
            reveal_strlit("; first declared at byte ");
            reveal_strlit(")");
            first_number_is_the_offset(before, duplicate_at, after);
            assert(e.message() =~= before + dec(duplicate_at) + after);
        },
        EffectErrorView::EffectMutatesUndeclaredAutomaton { callable, automaton, at } => {
            let t0 = "E0410: effect `"@;
            assert(is_plain(t0)) by {
                reveal_strlit("E0410: effect `");
                reveal_with_fuel(plain_from, 16);
                plain_step_by_step(t0, 0);
            }
            let t1 = "` mutates undeclared automaton `"@;
            assert(is_plain(t1)) by {
                reveal_strlit("` mutates undeclared automaton `");
                reveal_with_fuel(plain_from, 33);
                plain_step_by_step(t1, 0);
            }
            plain_texts_join(t0, callable);
            plain_texts_join(t0 + callable, t1);
            plain_texts_join(t0 + callable + t1, automaton);
            place_after_a_name(t0 + callable + t1 + automaton);
            let before = t0 + callable + t1 + automaton + "` (at byte "@;
            let after = ")"@;
            reveal_strlit(")");
            first_number_is_the_offset(before, at, after);
            assert(e.message() =~= before + dec(at) + after);
        },
        EffectErrorView::EffectMutatesExcludedAutomaton { callable, automaton, at } => {
            let t0 = "E0411: effect `"@;
            assert(is_plain(t0)) by {
                reveal_strlit("E0411: effect `");
                reveal_with_fuel(plain_from, 16);
                plain_step_by_step(t0, 0);
            }
            let t1 = "` mutates excluded automaton `"@;
            assert(is_plain(t1)) by {
                reveal_strlit("` mutates excluded automaton `");
                reveal_with_fuel(plain_from, 31);
                plain_step_by_step(t1, 0);
            }
            plain_texts_join(t0, callable);
            plain_texts_join(t0 + callable, t1);
            plain_texts_join(t0 + callable + t1, automaton);
            place_after_a_name(t0 + callable + t1 + automaton);
            let before = t0 + callable + t1 + automaton + "` (at byte "@;
            let after = ")"@;
            reveal_strlit(")");
            first_number_is_the_offset(before, at, after);
            assert(e.message() =~= before + dec(at) + after);
        },
        EffectErrorView::ProcCallCycle { cycle_display, .. } => {
            let t0 = "E0422: proc-call cycle detected: "@;
            assert(is_plain(t0)) by {
                reveal_strlit("E0422: proc-call cycle detected: ");
                reveal_with_fuel(plain_from, 34);
                plain_step_by_step(t0, 0);
            }
            plain_texts_join(t0, cycle_display);
            no_number_no_offset(e.message(), 0);
        },
    }
}

// ─── Code generation errors ────────────────────────────────────────────────

/// The texts that the error inserts into its message hold no number.
pub open spec fn codegen_error_is_plain(e: CodegenErrorView) -> bool {
    match e {
        CodegenErrorView::NotYetImplemented { what } => is_plain(what),
        CodegenErrorView::UnresolvedName { name } => is_plain(name),
        CodegenErrorView::BadLiteral { literal, reason } => is_plain(reason) && forall|i: int|
            0 <= i < literal.len() ==> #[trigger] literal[i] != ' ',
    }
}

/// Errors of code generation carry no place, and their diagnostics point
/// nowhere.
pub proof fn codegen_diagnostics_point_nowhere(e: CodegenErrorView)
    requires
        codegen_error_is_plain(e),
    ensures
        diagnostic(e.message()).primary_offset is None,
{
    match e {
        CodegenErrorView::NotYetImplemented { what } => {
            let t0 = "E0810: codegen not yet implemented for "@;
            assert(is_plain(t0)) by {
                reveal_strlit("E0810: codegen not yet implemented for ");
                reveal_with_fuel(plain_from, 40);
                plain_step_by_step(t0, 0);
            }
            plain_texts_join(t0, what);
            no_number_no_offset(e.message(), 0);
        },
        CodegenErrorView::UnresolvedName { name } => {
            let t0 = "E0811: codegen could not resolve name `"@;
            assert(is_plain(t0)) by {
                reveal_strlit("E0811: codegen could not resolve name `");
                reveal_with_fuel(plain_from, 40);
                plain_step_by_step(t0, 0);
            }
            let t1 = "` (likely an upstream resolver bug)"@;
            assert(is_plain(t1)) by {
                reveal_strlit("` (likely an upstream resolver bug)");
                reveal_with_fuel(plain_from, 36);
                plain_step_by_step(t1, 0);
            }
            plain_texts_join(t0, name);
            plain_texts_join(t0 + name, t1);
            no_number_no_offset(e.message(), 0);
        },
        CodegenErrorView::BadLiteral { literal, reason } => {
            let t0 = "E0812: codegen could not interpret literal `"@;
            assert(is_plain(t0)) by {
                reveal_strlit("E0812: codegen could not interpret literal `");
                reveal_with_fuel(plain_from, 45);
                plain_step_by_step(t0, 0);
            }
            let t0 = "`: "@;
            assert(is_plain(t0)) by {
                reveal_strlit("`: ");
                reveal_with_fuel(plain_from, 4);
                plain_step_by_step(t0, 0);
            }
            let quoted = "E0812: codegen could not interpret literal `"@ + literal;
            assert(is_plain(quoted)) by {
                reveal_strlit("E0812: codegen could not interpret literal `");
                let head = "E0812: codegen could not interpret literal `"@;
                assert forall|i: int| 0 <= i < quoted.len() - 1 implies !#[trigger] number_at(
                    quoted,
                    i,
                ) by {
                    if i + 1 < head.len() {
                        assert(!number_at(head, i));
                    } else if i >= head.len() {
                        assert(quoted[i] == literal[i - head.len()]);
                    }
                }
            }
            plain_texts_join(quoted, "`: "@);
            plain_texts_join(quoted + "`: "@, reason);
            no_number_no_offset(e.message(), 0);
        },
    }
}

} // verus!
