//! The errors of effect analysis.
use vstd::prelude::*;

use crate::collections::views;
use crate::order::Located;
use crate::text::{dec, decimal};

verus! {

/// What is wrong with the automatons and callables of a program.
#[derive(Debug, Clone, PartialEq, Eq)]
#[allow(inconsistent_fields)]
pub enum EffectError {
    /// A transition leads to a state that its automaton does not declare.
    UnknownState { automaton: String, transition: String, target: String, at: usize },
    /// A transition of an automaton without states names a destination.
    MonoidTransitionWithDestination {
        automaton: String,
        transition: String,
        target: String,
        at: usize,
    },
    /// Two transitions of an automaton have the same name.
    DuplicateTransition {
        automaton: String,
        transition: String,
        original_at: usize,
        duplicate_at: usize,
    },
    /// Two states of an automaton have the same name.
    DuplicateState { automaton: String, state: String, original_at: usize, duplicate_at: usize },
    /// A callable writes an automaton that its `#mutates` does not list.
    EffectMutatesUndeclaredAutomaton { callable: String, automaton: String, at: usize },
    /// A callable writes an automaton that its `#cannot_mutate` lists.
    EffectMutatesExcludedAutomaton { callable: String, automaton: String, at: usize },
    /// Callables call each other, or one itself, in a circle.
    ProcCallCycle {
        /// The callables on the circle, each calling the next and the last the first.
        cycle: Vec<String>,
        /// The circle as shown to the user.
        cycle_display: String,
    },
}

/// An [`EffectError`] as a mathematical value.
#[allow(inconsistent_fields)]
pub ghost enum EffectErrorView {
    UnknownState { automaton: Seq<char>, transition: Seq<char>, target: Seq<char>, at: nat },
    MonoidTransitionWithDestination {
        automaton: Seq<char>,
        transition: Seq<char>,
        target: Seq<char>,
        at: nat,
    },
    DuplicateTransition {
        automaton: Seq<char>,
        transition: Seq<char>,
        original_at: nat,
        duplicate_at: nat,
    },
    DuplicateState {
        automaton: Seq<char>,
        state: Seq<char>,
        original_at: nat,
        duplicate_at: nat,
    },
    EffectMutatesUndeclaredAutomaton { callable: Seq<char>, automaton: Seq<char>, at: nat },
    EffectMutatesExcludedAutomaton { callable: Seq<char>, automaton: Seq<char>, at: nat },
    ProcCallCycle { cycle: Seq<Seq<char>>, cycle_display: Seq<char> },
}

impl View for EffectError {
    type V = EffectErrorView;

    open spec fn view(&self) -> EffectErrorView {
        match self {
            EffectError::UnknownState { automaton, transition, target, at } => {
                EffectErrorView::UnknownState {
                    automaton: automaton@,
                    transition: transition@,
                    target: target@,
                    at: *at as nat,
                }
            },
            EffectError::MonoidTransitionWithDestination { automaton, transition, target, at } => {
                EffectErrorView::MonoidTransitionWithDestination {
                    automaton: automaton@,
                    transition: transition@,
                    target: target@,
                    at: *at as nat,
                }
            },
            EffectError::DuplicateTransition { automaton, transition, original_at, duplicate_at } => {
                EffectErrorView::DuplicateTransition {
                    automaton: automaton@,
                    transition: transition@,
                    original_at: *original_at as nat,
                    duplicate_at: *duplicate_at as nat,
                }
            },
            EffectError::DuplicateState { automaton, state, original_at, duplicate_at } => {
                EffectErrorView::DuplicateState {
                    automaton: automaton@,
                    state: state@,
                    original_at: *original_at as nat,
                    duplicate_at: *duplicate_at as nat,
                }
            },
            EffectError::EffectMutatesUndeclaredAutomaton { callable, automaton, at } => {
                EffectErrorView::EffectMutatesUndeclaredAutomaton {
                    callable: callable@,
                    automaton: automaton@,
                    at: *at as nat,
                }
            },
            EffectError::EffectMutatesExcludedAutomaton { callable, automaton, at } => {
                EffectErrorView::EffectMutatesExcludedAutomaton {
                    callable: callable@,
                    automaton: automaton@,
                    at: *at as nat,
                }
            },
            EffectError::ProcCallCycle { cycle, cycle_display } => EffectErrorView::ProcCallCycle {
                cycle: views(cycle@),
                cycle_display: cycle_display@,
            },
        }
    }
}

impl EffectErrorView {
    /// The text shown to the user.
    pub open spec fn message(self) -> Seq<char> {
        match self {
            EffectErrorView::UnknownState { automaton, transition, target, at } => {
                "E0430: unknown state `"@ + target + "` in transition `"@ + transition
                    + "` of automaton `"@ + automaton + "` (at byte "@ + dec(at) + ")"@
            },
            EffectErrorView::MonoidTransitionWithDestination {
                automaton,
                transition,
                target,
                at,
            } => {
                "E0431: monoid automaton `"@ + automaton + "` has transition `"@ + transition
                    + "` with destination `"@ + target + "` (at byte "@ + dec(at)
                    + "); monoid transitions cannot specify a destination"@
            },
            EffectErrorView::DuplicateTransition {
                automaton,
                transition,
                original_at,
                duplicate_at,
            } => {
                "E0432: duplicate transition `"@ + transition + "` in automaton `"@ + automaton
                    + "` (at byte "@ + dec(duplicate_at) + "; first declared at byte "@ + dec(
                    original_at,
                ) + ")"@
            },
            EffectErrorView::DuplicateState { automaton, state, original_at, duplicate_at } => {
                "E0433: duplicate state `"@ + state + "` in automaton `"@ + automaton
                    + "` (at byte "@ + dec(duplicate_at) + "; first declared at byte "@ + dec(
                    original_at,
                ) + ")"@
            },
            EffectErrorView::EffectMutatesUndeclaredAutomaton { callable, automaton, at } => {
                "E0410: effect `"@ + callable + "` mutates undeclared automaton `"@ + automaton
                    + "` (at byte "@ + dec(at) + ")"@
            },
            EffectErrorView::EffectMutatesExcludedAutomaton { callable, automaton, at } => {
                "E0411: effect `"@ + callable + "` mutates excluded automaton `"@ + automaton
                    + "` (at byte "@ + dec(at) + ")"@
            },
            EffectErrorView::ProcCallCycle { cycle_display, .. } => {
                "E0422: proc-call cycle detected: "@ + cycle_display
            },
        }
    }

    /// The place in the source that the error points at.
    pub open spec fn offset(self) -> nat {
        match self {
            EffectErrorView::UnknownState { at, .. } => at,
            EffectErrorView::MonoidTransitionWithDestination { at, .. } => at,
            EffectErrorView::DuplicateTransition { duplicate_at, .. } => duplicate_at,
            EffectErrorView::DuplicateState { duplicate_at, .. } => duplicate_at,
            EffectErrorView::EffectMutatesUndeclaredAutomaton { at, .. } => at,
            EffectErrorView::EffectMutatesExcludedAutomaton { at, .. } => at,
            EffectErrorView::ProcCallCycle { .. } => 0,
        }
    }
}

/// Appends the decimal numeral of an offset.
fn append_offset(out: &mut String, n: usize)
    ensures
        final(out)@ == old(out)@ + dec(n as nat),
{
    let d = decimal(n as u128);
    out.append(d.as_str());
}

impl EffectError {
    /// The text shown to the user.
    pub fn message(&self) -> (r: String)
        ensures
            r@ == self@.message(),
    {
        match self {
            EffectError::UnknownState { automaton, transition, target, at } => {
                let mut out = "E0430: unknown state `".to_owned();
                out.append(target.as_str());
                out.append("` in transition `");
                out.append(transition.as_str());
                out.append("` of automaton `");
                out.append(automaton.as_str());
                out.append("` (at byte ");
                append_offset(&mut out, *at);
                out.append(")");
                out
            },
            EffectError::MonoidTransitionWithDestination { automaton, transition, target, at } => {
                let mut out = "E0431: monoid automaton `".to_owned();
                out.append(automaton.as_str());
                out.append("` has transition `");
                out.append(transition.as_str());
                out.append("` with destination `");
                out.append(target.as_str());
                out.append("` (at byte ");
                append_offset(&mut out, *at);
                out.append("); monoid transitions cannot specify a destination");
                out
            },
            EffectError::DuplicateTransition { automaton, transition, original_at, duplicate_at } => {
                let mut out = "E0432: duplicate transition `".to_owned();
                out.append(transition.as_str());
                out.append("` in automaton `");
                out.append(automaton.as_str());
                out.append("` (at byte ");
                append_offset(&mut out, *duplicate_at);
                out.append("; first declared at byte ");
                append_offset(&mut out, *original_at);
                out.append(")");
                out
            },
            EffectError::DuplicateState { automaton, state, original_at, duplicate_at } => {
                let mut out = "E0433: duplicate state `".to_owned();
                out.append(state.as_str());
                out.append("` in automaton `");
                out.append(automaton.as_str());
                out.append("` (at byte ");
                append_offset(&mut out, *duplicate_at);
                out.append("; first declared at byte ");
                append_offset(&mut out, *original_at);
                out.append(")");
                out
            },
            EffectError::EffectMutatesUndeclaredAutomaton { callable, automaton, at } => {
                let mut out = "E0410: effect `".to_owned();
                out.append(callable.as_str());
                out.append("` mutates undeclared automaton `");
                out.append(automaton.as_str());
                out.append("` (at byte ");
                append_offset(&mut out, *at);
                out.append(")");
                out
            },
            EffectError::EffectMutatesExcludedAutomaton { callable, automaton, at } => {
                let mut out = "E0411: effect `".to_owned();
                out.append(callable.as_str());
                out.append("` mutates excluded automaton `");
                out.append(automaton.as_str());
                out.append("` (at byte ");
                append_offset(&mut out, *at);
                out.append(")");
                out
            },
            EffectError::ProcCallCycle { cycle_display, .. } => {
                let mut out = "E0422: proc-call cycle detected: ".to_owned();
                out.append(cycle_display.as_str());
                out
            },
        }
    }
}

impl Located for EffectError {
    open spec fn offset_of(v: EffectErrorView) -> nat {
        v.offset()
    }

    fn offset(&self) -> (r: usize) {
        match self {
            EffectError::UnknownState { at, .. } => *at,
            EffectError::MonoidTransitionWithDestination { at, .. } => *at,
            EffectError::DuplicateTransition { duplicate_at, .. } => *duplicate_at,
            EffectError::DuplicateState { duplicate_at, .. } => *duplicate_at,
            EffectError::EffectMutatesUndeclaredAutomaton { at, .. } => *at,
            EffectError::EffectMutatesExcludedAutomaton { at, .. } => *at,
            EffectError::ProcCallCycle { .. } => 0,
        }
    }
}

} // verus!
