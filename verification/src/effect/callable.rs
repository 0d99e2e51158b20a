//! What a program can call, and the fields that callables touch.
use vstd::prelude::*;

use crate::collections::Key;
use crate::text::same;

verus! {

/// A callable of a program.
#[derive(Debug, Clone, PartialEq, Eq, Hash)]
#[allow(inconsistent_fields)]
pub enum CallableId {
    /// A top-level `#effect`.
    Effect(String),
    /// A top-level `#interrupt`.
    Interrupt(String),
    /// A `#transition` of an automaton.
    Transition { automaton: String, name: String },
}

/// A [`CallableId`] as a mathematical value.
#[allow(inconsistent_fields)]
pub ghost enum CallableView {
    Effect(Seq<char>),
    Interrupt(Seq<char>),
    Transition { automaton: Seq<char>, name: Seq<char> },
}

impl View for CallableId {
    type V = CallableView;

    open spec fn view(&self) -> CallableView {
        match self {
            CallableId::Effect(n) => CallableView::Effect(n@),
            CallableId::Interrupt(n) => CallableView::Interrupt(n@),
            CallableId::Transition { automaton, name } => CallableView::Transition {
                automaton: automaton@,
                name: name@,
            },
        }
    }
}

impl CallableView {
    /// The callable's own name.
    pub open spec fn name(self) -> Seq<char> {
        match self {
            CallableView::Effect(n) => n,
            CallableView::Interrupt(n) => n,
            CallableView::Transition { name, .. } => name,
        }
    }

    /// The callable as shown to the user.
    pub open spec fn display(self) -> Seq<char> {
        match self {
            CallableView::Effect(n) => "#effect "@ + n,
            CallableView::Interrupt(n) => "#interrupt "@ + n,
            CallableView::Transition { automaton, name } => "#transition "@ + automaton + "::"@
                + name,
        }
    }

    /// The text by which callables are ordered.
    pub open spec fn sort_key(self) -> Seq<char> {
        match self {
            CallableView::Effect(n) => "E:"@ + n,
            CallableView::Interrupt(n) => "I:"@ + n,
            CallableView::Transition { automaton, name } => "T:"@ + automaton + "::"@ + name,
        }
    }
}

impl CallableId {
    /// The callable's own name, without its kind.
    pub fn name(&self) -> (r: &str)
        ensures
            r@ == self@.name(),
    {
        match self {
            CallableId::Effect(n) => n.as_str(),
            CallableId::Interrupt(n) => n.as_str(),
            CallableId::Transition { name, .. } => name.as_str(),
        }
    }
}

/// The callable as shown to the user.
pub fn callable_display(id: &CallableId) -> (r: String)
    ensures
        r@ == id@.display(),
{
    match id {
        CallableId::Effect(n) => {
            let mut out = "#effect ".to_owned();
            out.append(n.as_str());
            out
        },
        CallableId::Interrupt(n) => {
            let mut out = "#interrupt ".to_owned();
            out.append(n.as_str());
            out
        },
        CallableId::Transition { automaton, name } => {
            let mut out = "#transition ".to_owned();
            out.append(automaton.as_str());
            out.append("::");
            out.append(name.as_str());
            out
        },
    }
}

/// The text by which callables are ordered.
pub fn callable_sort_key(id: &CallableId) -> (r: String)
    ensures
        r@ == id@.sort_key(),
{
    match id {
        CallableId::Effect(n) => {
            let mut out = "E:".to_owned();
            out.append(n.as_str());
            out
        },
        CallableId::Interrupt(n) => {
            let mut out = "I:".to_owned();
            out.append(n.as_str());
            out
        },
        CallableId::Transition { automaton, name } => {
            let mut out = "T:".to_owned();
            out.append(automaton.as_str());
            out.append("::");
            out.append(name.as_str());
            out
        },
    }
}

impl Key for CallableId {
    fn is_same(&self, other: &CallableId) -> (r: bool) {
        match (self, other) {
            (CallableId::Effect(a), CallableId::Effect(b)) => same(a.as_str(), b.as_str()),
            (CallableId::Interrupt(a), CallableId::Interrupt(b)) => same(a.as_str(), b.as_str()),
            (
                CallableId::Transition { automaton: a, name: m },
                CallableId::Transition { automaton: b, name: n },
            ) => same(a.as_str(), b.as_str()) && same(m.as_str(), n.as_str()),
            _ => false,
        }
    }

    fn copy(&self) -> (r: CallableId) {
        match self {
            CallableId::Effect(n) => CallableId::Effect(n.clone()),
            CallableId::Interrupt(n) => CallableId::Interrupt(n.clone()),
            CallableId::Transition { automaton, name } => CallableId::Transition {
                automaton: automaton.clone(),
                name: name.clone(),
            },
        }
    }
}

/// A field of an automaton.
#[derive(Debug, Clone, PartialEq, Eq, Hash)]
pub struct FieldRef {
    pub automaton: String,
    pub field: String,
}

/// A [`FieldRef`] as a mathematical value.
pub ghost struct FieldRefView {
    pub automaton: Seq<char>,
    pub field: Seq<char>,
}

impl View for FieldRef {
    type V = FieldRefView;

    open spec fn view(&self) -> FieldRefView {
        FieldRefView { automaton: self.automaton@, field: self.field@ }
    }
}

impl Key for FieldRef {
    fn is_same(&self, other: &FieldRef) -> (r: bool) {
        same(self.automaton.as_str(), other.automaton.as_str()) && same(
            self.field.as_str(),
            other.field.as_str(),
        )
    }

    fn copy(&self) -> (r: FieldRef) {
        FieldRef { automaton: self.automaton.clone(), field: self.field.clone() }
    }
}

} // verus!
