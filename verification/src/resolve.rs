//! Names resolved: what every use of a name refers to, and the top-level symbols.
use vstd::prelude::*;

use crate::ast::Span;
use crate::text::same;

verus! {

/// What a top-level symbol declares.
#[derive(Debug, Clone, Copy, PartialEq, Eq, Hash, Structural)]
pub enum SymbolKind {
    Fn,
    Type,
    Trait,
    Automaton,
    Effect,
    Interrupt,
    Interface,
}

/// A top-level symbol.
#[derive(Debug, PartialEq, Eq)]
pub struct Symbol {
    pub name: String,
    pub kind: SymbolKind,
}

/// What a `#>` call refers to.
#[derive(Debug, Clone, Copy, PartialEq, Eq, Hash, Structural)]
pub enum CallContext {
    /// A top-level callable, called by its own name.
    Identity,
    /// A transition of some automaton.
    Transition,
}

/// What the use of a name refers to.
#[derive(Debug, PartialEq, Eq)]
pub enum BindingRef {
    /// A parameter or a `let` binding.
    Local { name: String },
    /// A top-level symbol.
    TopLevel(Symbol),
    /// A field of an automaton.
    AutomatonField { automaton: String, field: String },
    /// The callee of a `#>` call.
    Proc { name: String, ctx: CallContext },
}

/// The top-level symbols of a program.
#[derive(Debug, PartialEq, Eq)]
pub struct SymbolTable {
    entries: Vec<Symbol>,
}

/// The last of the symbols that has the given name.
pub open spec fn last_symbol(entries: Seq<Symbol>, name: Seq<char>) -> Option<Symbol>
    decreases entries.len(),
{
    if entries.len() == 0 {
        None
    } else if entries.last().name@ == name {
        Some(entries.last())
    } else {
        last_symbol(entries.drop_last(), name)
    }
}

impl SymbolTable {
    /// The symbol declared under a name.
    pub closed spec fn symbol(self, name: Seq<char>) -> Option<Symbol> {
        last_symbol(self.entries@, name)
    }

    /// A table without symbols.
    pub fn new() -> (r: SymbolTable)
        ensures
            forall|name: Seq<char>| r.symbol(name) is None,
    {
        SymbolTable { entries: Vec::new() }
    }

    /// Declares a symbol, in place of an earlier one of the same name.
    pub fn declare(&mut self, symbol: Symbol)
        ensures
            forall|name: Seq<char>|
                final(self).symbol(name) == if name == symbol.name@ {
                    Some(symbol)
                } else {
                    old(self).symbol(name)
                },
    {
        let ghost before = self.entries@;
        self.entries.push(symbol);
        assert(self.entries@.drop_last() =~= before);
    }

    /// The symbol declared under a name.
    pub fn lookup(&self, name: &str) -> (r: Option<&Symbol>)
        ensures
            match r {
                Some(s) => self.symbol(name@) == Some(*s),
                None => self.symbol(name@) is None,
            },
    {
        let mut i: usize = self.entries.len();
        assert(self.entries@.take(i as int) =~= self.entries@);
        while i > 0
            invariant
                i <= self.entries@.len(),
                last_symbol(self.entries@, name@) == last_symbol(
                    self.entries@.take(i as int),
                    name@,
                ),
            decreases i,
        {
            assert(self.entries@.take(i as int).drop_last() =~= self.entries@.take(i - 1));
            i = i - 1;
            if same(self.entries[i].name.as_str(), name) {
                return Some(&self.entries[i]);
            }
        }
        None
    }
}

/// What name resolution found out about a program.
#[derive(Debug, PartialEq, Eq)]
pub struct Resolution {
    /// What each range refers to; of two entries for one range the later counts.
    pub bindings: Vec<(Span, BindingRef)>,
    /// The top-level symbols.
    pub symbols: SymbolTable,
}

/// The last binding recorded for a range.
pub open spec fn last_binding(entries: Seq<(Span, BindingRef)>, span: Span) -> Option<BindingRef>
    decreases entries.len(),
{
    if entries.len() == 0 {
        None
    } else if entries.last().0 == span {
        Some(entries.last().1)
    } else {
        last_binding(entries.drop_last(), span)
    }
}

impl Resolution {
    /// What the construct at a range refers to.
    pub open spec fn binding(self, span: Span) -> Option<BindingRef> {
        last_binding(self.bindings@, span)
    }

    /// A resolution that knows nothing.
    pub fn new() -> (r: Resolution)
        ensures
            forall|span: Span| r.binding(span) is None,
            forall|name: Seq<char>| r.symbols.symbol(name) is None,
    {
        Resolution { bindings: Vec::new(), symbols: SymbolTable::new() }
    }

    /// Records what the construct at a range refers to.
    pub fn bind(&mut self, span: Span, binding: BindingRef)
        ensures
            final(self).symbols == old(self).symbols,
            forall|s: Span|
                final(self).binding(s) == if s == span {
                    Some(binding)
                } else {
                    old(self).binding(s)
                },
    {
        let ghost before = self.bindings@;
        self.bindings.push((span, binding));
        assert(self.bindings@.drop_last() =~= before);
    }

    /// What the construct at a range refers to.
    pub fn lookup(&self, span: Span) -> (r: Option<&BindingRef>)
        ensures
            match r {
                Some(b) => self.binding(span) == Some(*b),
                None => self.binding(span) is None,
            },
    {
        let mut i: usize = self.bindings.len();
        assert(self.bindings@.take(i as int) =~= self.bindings@);
        while i > 0
            invariant
                i <= self.bindings@.len(),
                last_binding(self.bindings@, span) == last_binding(
                    self.bindings@.take(i as int),
                    span,
                ),
            decreases i,
        {
            assert(self.bindings@.take(i as int).drop_last() =~= self.bindings@.take(i - 1));
            i = i - 1;
            if self.bindings[i].0 == span {
                return Some(&self.bindings[i].1);
            }
        }
        None
    }
}

impl Default for Resolution {
    fn default() -> (r: Resolution)
        ensures
            forall|span: Span| r.binding(span) is None,
            forall|name: Seq<char>| r.symbols.symbol(name) is None,
    {
        Resolution::new()
    }
}

/// Of the entries for one name the last counts, and there is none exactly where
/// there is no entry.
pub proof fn the_last_symbol_counts(entries: Seq<Symbol>, name: Seq<char>)
    ensures
        match last_symbol(entries, name) {
            Some(x) => exists|i: int|
                0 <= i < entries.len() && (#[trigger] entries[i]).name@ == name && entries[i] == x && forall|j: int|
                    i < j < entries.len() ==> (#[trigger] entries[j]).name@ != name,
            None => forall|j: int| 0 <= j < entries.len() ==> (#[trigger] entries[j]).name@ != name,
        },
    decreases entries.len(),
{
    if entries.len() > 0 {
        let front = entries.drop_last();
        let n = entries.len() - 1;
        assert(entries[n] == entries.last());
        the_last_symbol_counts(front, name);
        assert forall|i: int| 0 <= i < n implies front[i] == #[trigger] entries[i] by {}
        if entries.last().name@ != name {
            if last_symbol(front, name) is Some {
                let x = last_symbol(front, name)->0;
                let i = choose|i: int|
                    0 <= i < front.len() && (#[trigger] front[i]).name@ == name && front[i] == x && forall|j: int|
                        i < j < front.len() ==> (#[trigger] front[j]).name@ != name;
                assert(entries[i].name@ == name);
                assert forall|j: int| i < j < entries.len() implies (#[trigger] entries[j]).name@ != name by {
                    if j < n {
                        assert(front[j].name@ != name);
                    }
                }
            } else {
                assert forall|j: int| 0 <= j < entries.len() implies (#[trigger] entries[j]).name@ != name by {
                    if j < n {
                        assert(front[j].name@ != name);
                    }
                }
            }
        }
    }
}

/// Of the entries for one range the last counts, and there is none exactly where
/// there is no entry.
pub proof fn the_last_binding_counts(entries: Seq<(Span, BindingRef)>, span: Span)
    ensures
        match last_binding(entries, span) {
            Some(x) => exists|i: int|
                0 <= i < entries.len() && (#[trigger] entries[i]).0 == span && entries[i].1 == x && forall|j: int|
                    i < j < entries.len() ==> (#[trigger] entries[j]).0 != span,
            None => forall|j: int| 0 <= j < entries.len() ==> (#[trigger] entries[j]).0 != span,
        },
    decreases entries.len(),
{
    if entries.len() > 0 {
        let front = entries.drop_last();
        let n = entries.len() - 1;
        assert(entries[n] == entries.last());
        the_last_binding_counts(front, span);
        assert forall|i: int| 0 <= i < n implies front[i] == #[trigger] entries[i] by {}
        if entries.last().0 != span {
            if last_binding(front, span) is Some {
                let x = last_binding(front, span)->0;
                let i = choose|i: int|
                    0 <= i < front.len() && (#[trigger] front[i]).0 == span && front[i].1 == x && forall|j: int|
                        i < j < front.len() ==> (#[trigger] front[j]).0 != span;
                assert(entries[i].0 == span);
                assert forall|j: int| i < j < entries.len() implies (#[trigger] entries[j]).0 != span by {
                    if j < n {
                        assert(front[j].0 != span);
                    }
                }
            } else {
                assert forall|j: int| 0 <= j < entries.len() implies (#[trigger] entries[j]).0 != span by {
                    if j < n {
                        assert(front[j].0 != span);
                    }
                }
            }
        }
    }
}

} // verus!
