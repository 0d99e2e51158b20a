//! Inferred types: what type every expression has.
use vstd::prelude::*;

use crate::ast::{PrimitiveType, Span};

verus! {

/// A type.
#[derive(Debug, PartialEq, Eq)]
pub enum Type {
    Unit,
    Primitive(PrimitiveType),
    Ref { mutable: bool, inner: Box<Type> },
    /// `size` is the literal as written.
    Array { element: Box<Type>, size: String },
    Slice { element: Box<Type> },
    Tuple(Vec<Type>),
    Range { element: Box<Type>, inclusive: bool },
    StringSlice,
    /// An alias or a sum type.
    Nominal { name: String },
    /// A type that could not be told.
    Unknown(String),
}

/// The types that inference found, by the range of the expression.
#[derive(Debug, PartialEq, Eq)]
pub struct Typing {
    entries: Vec<(Span, Type)>,
}

/// The last type recorded for a range.
pub open spec fn last_type(entries: Seq<(Span, Type)>, span: Span) -> Option<Type>
    decreases entries.len(),
{
    if entries.len() == 0 {
        None
    } else if entries.last().0 == span {
        Some(entries.last().1)
    } else {
        last_type(entries.drop_last(), span)
    }
}

impl Typing {
    /// The type of the expression at a range.
    pub closed spec fn type_at(self, span: Span) -> Option<Type> {
        last_type(self.entries@, span)
    }

    /// A typing that knows nothing.
    pub fn new() -> (r: Typing)
        ensures
            forall|span: Span| r.type_at(span) is None,
    {
        Typing { entries: Vec::new() }
    }

    /// Records the type of the expression at a range.
    pub fn record(&mut self, span: Span, ty: Type)
        ensures
            forall|s: Span|
                final(self).type_at(s) == if s == span {
                    Some(ty)
                } else {
                    old(self).type_at(s)
                },
    {
        let ghost before = self.entries@;
        self.entries.push((span, ty));
        assert(self.entries@.drop_last() =~= before);
    }

    /// The type of the expression at a range.
    pub fn lookup(&self, span: Span) -> (r: Option<&Type>)
        ensures
            match r {
                Some(t) => self.type_at(span) == Some(*t),
                None => self.type_at(span) is None,
            },
    {
        let mut i: usize = self.entries.len();
        assert(self.entries@.take(i as int) =~= self.entries@);
        while i > 0
            invariant
                i <= self.entries@.len(),
                last_type(self.entries@, span) == last_type(self.entries@.take(i as int), span),
            decreases i,
        {
            assert(self.entries@.take(i as int).drop_last() =~= self.entries@.take(i - 1));
            i = i - 1;
            if self.entries[i].0 == span {
                return Some(&self.entries[i].1);
            }
        }
        None
    }
}

impl Default for Typing {
    fn default() -> (r: Typing)
        ensures
            forall|span: Span| r.type_at(span) is None,
    {
        Typing::new()
    }
}

/// Of the entries for one range the last counts, and there is none exactly where
/// there is no entry.
pub proof fn the_last_type_counts(entries: Seq<(Span, Type)>, span: Span)
    ensures
        match last_type(entries, span) {
            Some(x) => exists|i: int|
                0 <= i < entries.len() && (#[trigger] entries[i]).0 == span && entries[i].1 == x && forall|j: int|
                    i < j < entries.len() ==> (#[trigger] entries[j]).0 != span,
            None => forall|j: int| 0 <= j < entries.len() ==> (#[trigger] entries[j]).0 != span,
        },
    decreases entries.len(),
{
    if entries.len() > 0 {
        let front = entries.drop_last();
        let n = entries.len() - 1;
        assert(entries[n] == entries.last());
        the_last_type_counts(front, span);
        assert forall|i: int| 0 <= i < n implies front[i] == #[trigger] entries[i] by {}
        if entries.last().0 != span {
            if last_type(front, span) is Some {
                let x = last_type(front, span)->0;
                let i = choose|i: int|
                    0 <= i < front.len() && (#[trigger] front[i]).0 == span && front[i].1 == x && forall|j: int|
                        i < j < front.len() ==> (#[trigger] front[j]).0 != span;
                assert(entries[i].0 == span);
                assert forall|j: int| i < j < entries.len() implies (#[trigger] entries[j]).0 != span by {
                    if j < n {
                        assert(front[j].0 != span);
                    }
                }
            } else {
                assert forall|j: int| 0 <= j < entries.len() implies (#[trigger] entries[j]).0 != span by {
                    if j < n {
                        assert(front[j].0 != span);
                    }
                }
            }
        }
    }
}

} // verus!
