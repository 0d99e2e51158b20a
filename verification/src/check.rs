//! Semantic checks: the boundary between the layers, who may write what, and
//! that functions are total.
use vstd::prelude::*;

use crate::ast::{
    AutomatonDecl, Block, Expr, ExprKind, FieldAssign, FnDecl, Item, Program, Stmt, StmtKind,
    TransitionDecl,
};
use crate::collections::views;
use crate::effect::callable::FieldRefView;
use crate::effect::direct::{assigns_effects, stmt_effects, stmts_effects, Scope};
use crate::effect::laws::{expressions_only_read, lists_only_read};
use crate::effect::profile::{is_listed, listed};
use crate::order::{
    ascending, by_offset, sort_by_offset, sorting_orders_and_keeps, stable_sorted, Located,
};
use crate::resolve::{BindingRef, Resolution, SymbolKind};
use crate::text::{dec, decimal, same};

pub mod laws;

verus! {

// ─── Errors ────────────────────────────────────────────────────────────────

/// What a semantic check rejects.
#[derive(Debug, Clone, PartialEq, Eq)]
pub enum CheckError {
    /// An `@fn` body holds an imperative construct.
    ImperativeInFunctional {
        /// The construct.
        construct: &'static str,
        at: usize,
    },
    /// An `@fn` body calls an effect or an interrupt.
    CrossBoundaryCall { callee_name: String, callee_kind: &'static str, at: usize },
    /// A write to an automaton that the callable does not list.
    WriteToUndeclaredAutomaton { automaton: String, enclosing: String, at: usize },
    /// A write to an automaton that the callable forbids itself.
    WriteToCannotMutate { automaton: String, enclosing: String, at: usize },
    /// A function that is not `@partial` calls itself.
    TotalityViolation { fn_name: String, call_at: usize, decl_at: usize },
}

/// A [`CheckError`] as a mathematical value.
pub ghost enum CheckErrorView {
    ImperativeInFunctional { construct: Seq<char>, at: nat },
    CrossBoundaryCall { callee_name: Seq<char>, callee_kind: Seq<char>, at: nat },
    WriteToUndeclaredAutomaton { automaton: Seq<char>, enclosing: Seq<char>, at: nat },
    WriteToCannotMutate { automaton: Seq<char>, enclosing: Seq<char>, at: nat },
    TotalityViolation { fn_name: Seq<char>, call_at: nat, decl_at: nat },
}

impl View for CheckError {
    type V = CheckErrorView;

    open spec fn view(&self) -> CheckErrorView {
        match self {
            CheckError::ImperativeInFunctional { construct, at } => {
                CheckErrorView::ImperativeInFunctional { construct: construct@, at: *at as nat }
            },
            CheckError::CrossBoundaryCall { callee_name, callee_kind, at } => {
                CheckErrorView::CrossBoundaryCall {
                    callee_name: callee_name@,
                    callee_kind: callee_kind@,
                    at: *at as nat,
                }
            },
            CheckError::WriteToUndeclaredAutomaton { automaton, enclosing, at } => {
                CheckErrorView::WriteToUndeclaredAutomaton {
                    automaton: automaton@,
                    enclosing: enclosing@,
                    at: *at as nat,
                }
            },
            CheckError::WriteToCannotMutate { automaton, enclosing, at } => {
                CheckErrorView::WriteToCannotMutate {
                    automaton: automaton@,
                    enclosing: enclosing@,
                    at: *at as nat,
                }
            },
            CheckError::TotalityViolation { fn_name, call_at, decl_at } => {
                CheckErrorView::TotalityViolation {
                    fn_name: fn_name@,
                    call_at: *call_at as nat,
                    decl_at: *decl_at as nat,
                }
            },
        }
    }
}

impl CheckErrorView {
    /// The text shown to the user.
    pub open spec fn message(self) -> Seq<char> {
        match self {
            CheckErrorView::ImperativeInFunctional { construct, at } => {
                "E0101: imperative construct `"@ + construct
                    + "` in functional `@fn` body (at byte "@ + dec(at) + ")"@
            },
            CheckErrorView::CrossBoundaryCall { callee_name, callee_kind, at } => {
                "E0102: cross-boundary call: `@fn` body cannot call `"@ + callee_kind + " "@
                    + callee_name + "` (at byte "@ + dec(at) + ")"@
            },
            CheckErrorView::WriteToUndeclaredAutomaton { automaton, enclosing, at } => {
                "E0302: write to undeclared automaton `"@ + automaton + "`: not in `"@ + enclosing
                    + "`'s `#mutates` set (at byte "@ + dec(at) + ")"@
            },
            CheckErrorView::WriteToCannotMutate { automaton, enclosing, at } => {
                "E0306: write to forbidden automaton `"@ + automaton
                    + "`: explicitly listed in `"@ + enclosing
                    + "`'s `#cannot_mutate` clause (at byte "@ + dec(at) + ")"@
            },
            CheckErrorView::TotalityViolation { fn_name, call_at, decl_at } => {
                "E0540: non-`@partial` `@fn "@ + fn_name
                    + "` contains a recursive call to itself; mark it `@partial @fn` to opt out of the totality check or restructure to remove the recursion (call site at byte "@
                    + dec(call_at) + ", fn declared at byte "@ + dec(decl_at) + ")"@
            },
        }
    }

    /// The place in the source that the error points at.
    pub open spec fn offset(self) -> nat {
        match self {
            CheckErrorView::ImperativeInFunctional { at, .. } => at,
            CheckErrorView::CrossBoundaryCall { at, .. } => at,
            CheckErrorView::WriteToUndeclaredAutomaton { at, .. } => at,
            CheckErrorView::WriteToCannotMutate { at, .. } => at,
            CheckErrorView::TotalityViolation { call_at, .. } => call_at,
        }
    }
}

/// Appends the decimal numeral of an offset.
fn append_offset(out: &mut String, n: usize)
    ensures
        final(out)@ == old(out)@ + dec(n as nat),
{
    let d = decimal(n as u128);
    out.append(d.as_str());
}

impl CheckError {
    /// The text shown to the user.
    pub fn message(&self) -> (r: String)
        ensures
            r@ == self@.message(),
    {
        match self {
            CheckError::ImperativeInFunctional { construct, at } => {
                let mut out = "E0101: imperative construct `".to_owned();
                out.append(construct);
                out.append("` in functional `@fn` body (at byte ");
                append_offset(&mut out, *at);
                out.append(")");
                out
            },
            CheckError::CrossBoundaryCall { callee_name, callee_kind, at } => {
                let mut out = "E0102: cross-boundary call: `@fn` body cannot call `".to_owned();
                out.append(callee_kind);
                out.append(" ");
                out.append(callee_name.as_str());
                out.append("` (at byte ");
                append_offset(&mut out, *at);
                out.append(")");
                out
            },
            CheckError::WriteToUndeclaredAutomaton { automaton, enclosing, at } => {
                let mut out = "E0302: write to undeclared automaton `".to_owned();
                out.append(automaton.as_str());
                out.append("`: not in `");
                out.append(enclosing.as_str());
                out.append("`'s `#mutates` set (at byte ");
                append_offset(&mut out, *at);
                out.append(")");
                out
            },
            CheckError::WriteToCannotMutate { automaton, enclosing, at } => {
                let mut out = "E0306: write to forbidden automaton `".to_owned();
                out.append(automaton.as_str());
                out.append("`: explicitly listed in `");
                out.append(enclosing.as_str());
                out.append("`'s `#cannot_mutate` clause (at byte ");
                append_offset(&mut out, *at);
                out.append(")");
                out
            },
            CheckError::TotalityViolation { fn_name, call_at, decl_at } => {
                let mut out = "E0540: non-`@partial` `@fn ".to_owned();
                out.append(fn_name.as_str());
                out.append(
                    "` contains a recursive call to itself; mark it `@partial @fn` to opt out of the totality check or restructure to remove the recursion (call site at byte ",
                );
                append_offset(&mut out, *call_at);
                out.append(", fn declared at byte ");
                append_offset(&mut out, *decl_at);
                out.append(")");
                out
            },
        }
    }
}

impl Located for CheckError {
    open spec fn offset_of(v: CheckErrorView) -> nat {
        v.offset()
    }

    fn offset(&self) -> (r: usize) {
        match self {
            CheckError::ImperativeInFunctional { at, .. } => *at,
            CheckError::CrossBoundaryCall { at, .. } => *at,
            CheckError::WriteToUndeclaredAutomaton { at, .. } => *at,
            CheckError::WriteToCannotMutate { at, .. } => *at,
            CheckError::TotalityViolation { call_at, .. } => *call_at,
        }
    }
}

// ─── Model: the boundary ───────────────────────────────────────────────────

/// The faults found in some code.
pub type Faults = Seq<CheckErrorView>;

/// One imperative construct.
pub open spec fn imperative(construct: Seq<char>, at: usize) -> Faults {
    seq![CheckErrorView::ImperativeInFunctional { construct, at: at as nat }]
}

/// The fault of a call whose callee refers to an effect or an interrupt.
pub open spec fn call_fault(res: Resolution, callee: Expr, at: usize) -> Faults {
    match res.binding(callee.span) {
        Some(BindingRef::TopLevel(sym)) => if sym.kind == SymbolKind::Effect {
            seq![
                CheckErrorView::CrossBoundaryCall {
                    callee_name: sym.name@,
                    callee_kind: "#effect"@,
                    at: at as nat,
                },
            ]
        } else if sym.kind == SymbolKind::Interrupt {
            seq![
                CheckErrorView::CrossBoundaryCall {
                    callee_name: sym.name@,
                    callee_kind: "#interrupt"@,
                    at: at as nat,
                },
            ]
        } else {
            Seq::empty()
        },
        _ => Seq::empty(),
    }
}

/// What an expression in an `@fn` body does that only the imperative layer may.
pub open spec fn expr_faults(res: Resolution, e: Expr) -> Faults
    decreases e,
{
    match e.kind {
        ExprKind::UncheckedLoad { ptr, .. } => imperative("#unchecked_load"@, e.span.start)
            + expr_faults(res, *ptr),
        ExprKind::VolatileLoad { ptr, .. } => imperative("#volatile_load"@, e.span.start)
            + expr_faults(res, *ptr),
        ExprKind::UncheckedCast { value, .. } => imperative("#unchecked_cast"@, e.span.start)
            + expr_faults(res, *value),
        ExprKind::UncheckedOffset { ptr, n, .. } => imperative("#unchecked_offset"@, e.span.start)
            + expr_faults(res, *ptr) + expr_faults(res, *n),
        ExprKind::StateRead(_) => imperative("Auto@state"@, e.span.start),
        ExprKind::FieldAccess { obj, .. } => (match res.binding(e.span) {
            Some(BindingRef::AutomatonField { .. }) => imperative(
                "automaton-field read"@,
                e.span.start,
            ),
            _ => Seq::empty(),
        }) + expr_faults(res, *obj),
        ExprKind::Path(_) => match res.binding(e.span) {
            Some(BindingRef::TopLevel(sym)) => if sym.kind == SymbolKind::Automaton {
                imperative("bare automaton reference"@, e.span.start)
            } else {
                Seq::empty()
            },
            _ => Seq::empty(),
        },
        ExprKind::Call { callee, args } => expr_faults(res, *callee) + exprs_faults(res, args@)
            + call_fault(res, *callee, e.span.start),
        ExprKind::Paren(inner) => expr_faults(res, *inner),
        ExprKind::Tuple(elems) => exprs_faults(res, elems@),
        ExprKind::Array(elems) => exprs_faults(res, elems@),
        ExprKind::ArrayRepeat { value, count } => expr_faults(res, *value) + expr_faults(
            res,
            *count,
        ),
        ExprKind::Index { obj, index } => expr_faults(res, *obj) + expr_faults(res, *index),
        ExprKind::MethodCall { obj, args, .. } => expr_faults(res, *obj) + exprs_faults(res, args@),
        ExprKind::Unary { operand, .. } => expr_faults(res, *operand),
        ExprKind::Ref { operand, .. } => expr_faults(res, *operand),
        ExprKind::Binary { lhs, rhs, .. } => expr_faults(res, *lhs) + expr_faults(res, *rhs),
        ExprKind::Cast { value, .. } => expr_faults(res, *value),
        ExprKind::Range { lo, hi, .. } => expr_faults(res, *lo) + expr_faults(res, *hi),
        _ => Seq::empty(),
    }
}

/// The faults of several expressions.
pub open spec fn exprs_faults(res: Resolution, es: Seq<Expr>) -> Faults
    decreases es,
{
    if es.len() == 0 {
        Seq::empty()
    } else {
        exprs_faults(res, es.drop_last()) + expr_faults(res, es.last())
    }
}

/// The faults of the indexes and values of assignments.
pub open spec fn assigns_faults(res: Resolution, assigns: Seq<FieldAssign>) -> Faults
    decreases assigns.len(),
{
    if assigns.len() == 0 {
        Seq::empty()
    } else {
        assigns_faults(res, assigns.drop_last()) + (match assigns.last().index {
            Some(index) => expr_faults(res, index),
            None => Seq::empty(),
        }) + expr_faults(res, assigns.last().value)
    }
}

/// What a statement in an `@fn` body does that only the imperative layer may.
pub open spec fn stmt_faults(res: Resolution, s: Stmt) -> Faults
    decreases s, 0nat,
{
    match s.kind {
        StmtKind::Mutate { assigns, .. } => imperative("#mutate"@, s.span.start) + assigns_faults(
            res,
            assigns@,
        ),
        StmtKind::MutateShort { value, .. } => imperative("Auto.field <op>= …"@, s.span.start)
            + expr_faults(res, value),
        StmtKind::ProcCall { args, .. } => imperative("#> proc()"@, s.span.start) + exprs_faults(
            res,
            args@,
        ),
        StmtKind::UncheckedStore { ptr, value, .. } => imperative("#unchecked_store"@, s.span.start)
            + expr_faults(res, ptr) + expr_faults(res, value),
        StmtKind::VolatileStore { ptr, value, .. } => imperative("#volatile_store"@, s.span.start)
            + expr_faults(res, ptr) + expr_faults(res, value),
        StmtKind::Flush { .. } => imperative("#flush"@, s.span.start),
        StmtKind::Let { value, .. } => expr_faults(res, value),
        StmtKind::LetShort { value, .. } => expr_faults(res, value),
        StmtKind::Expr(e) => expr_faults(res, e),
        StmtKind::Return(Some(e)) => expr_faults(res, e),
        StmtKind::Assign { value, .. } => expr_faults(res, value),
        StmtKind::If { cond, then_block, else_block } => expr_faults(res, cond) + stmts_faults(
            res,
            then_block.stmts@,
        ) + (match else_block {
            Some(b) => stmts_faults(res, b.stmts@),
            None => Seq::empty(),
        }),
        StmtKind::Sigma { source, body, .. } => expr_faults(res, source) + stmts_faults(
            res,
            body.stmts@,
        ),
        _ => Seq::empty(),
    }
}

/// The faults of statements, nested blocks included.
pub open spec fn stmts_faults(res: Resolution, ss: Seq<Stmt>) -> Faults
    decreases ss, 1nat,
{
    if ss.len() == 0 {
        Seq::empty()
    } else {
        stmts_faults(res, ss.drop_last()) + stmt_faults(res, ss.last())
    }
}

// ─── Model: authority to write ─────────────────────────────────────────────

/// The fault of a write to an automaton. That the callable forbids it outranks
/// that the callable does not list it.
pub open spec fn write_fault(
    automaton: Seq<char>,
    at: usize,
    enclosing: Seq<char>,
    mutates: Seq<String>,
    cannot_mutate: Seq<String>,
) -> Faults {
    if listed(cannot_mutate, automaton) {
        seq![CheckErrorView::WriteToCannotMutate { automaton, enclosing, at: at as nat }]
    } else if !listed(mutates, automaton) {
        seq![CheckErrorView::WriteToUndeclaredAutomaton { automaton, enclosing, at: at as nat }]
    } else {
        Seq::empty()
    }
}

/// The writes in a statement that its callable may not make.
pub open spec fn stmt_write_faults(
    s: Stmt,
    enclosing: Seq<char>,
    mutates: Seq<String>,
    cannot_mutate: Seq<String>,
) -> Faults
    decreases s, 0nat,
{
    match s.kind {
        StmtKind::Mutate { automaton, .. } => write_fault(
            automaton@,
            s.span.start,
            enclosing,
            mutates,
            cannot_mutate,
        ),
        StmtKind::MutateShort { automaton, .. } => write_fault(
            automaton@,
            s.span.start,
            enclosing,
            mutates,
            cannot_mutate,
        ),
        StmtKind::If { then_block, else_block, .. } => write_faults(
            then_block.stmts@,
            enclosing,
            mutates,
            cannot_mutate,
        ) + (match else_block {
            Some(b) => write_faults(b.stmts@, enclosing, mutates, cannot_mutate),
            None => Seq::empty(),
        }),
        StmtKind::Sigma { body, .. } => write_faults(
            body.stmts@,
            enclosing,
            mutates,
            cannot_mutate,
        ),
        _ => Seq::empty(),
    }
}

/// The writes in statements, nested blocks included, that their callable may
/// not make.
pub open spec fn write_faults(
    ss: Seq<Stmt>,
    enclosing: Seq<char>,
    mutates: Seq<String>,
    cannot_mutate: Seq<String>,
) -> Faults
    decreases ss, 1nat,
{
    if ss.len() == 0 {
        Seq::empty()
    } else {
        write_faults(ss.drop_last(), enclosing, mutates, cannot_mutate) + stmt_write_faults(
            ss.last(),
            enclosing,
            mutates,
            cannot_mutate,
        )
    }
}

/// The faults of transitions, each of which may write its own automaton only.
pub open spec fn transitions_faults(owner: String, ts: Seq<TransitionDecl>) -> Faults
    decreases ts.len(),
{
    if ts.len() == 0 {
        Seq::empty()
    } else {
        transitions_faults(owner, ts.drop_last()) + write_faults(
            ts.last().body.stmts@,
            "#transition "@ + ts.last().name@ + " in #automaton "@ + owner@,
            seq![owner],
            Seq::empty(),
        )
    }
}

/// The faults of an item.
pub open spec fn item_faults(res: Resolution, i: Item) -> Faults {
    match i {
        Item::Fn(d) => stmts_faults(res, d.body.stmts@),
        Item::Effect(d) => write_faults(
            d.body.stmts@,
            "#effect "@ + d.name@,
            d.mutates@,
            d.cannot_mutate@,
        ),
        Item::Interrupt(d) => write_faults(
            d.body.stmts@,
            "#interrupt "@ + d.name@,
            d.mutates@,
            Seq::empty(),
        ),
        Item::Automaton(d) => transitions_faults(d.name, d.transitions@),
        _ => Seq::empty(),
    }
}

/// The faults of items.
pub open spec fn items_faults(res: Resolution, items: Seq<Item>) -> Faults
    decreases items.len(),
{
    if items.len() == 0 {
        Seq::empty()
    } else {
        items_faults(res, items.drop_last()) + item_faults(res, items.last())
    }
}

// ─── Model: totality ───────────────────────────────────────────────────────

/// The first of two finds.
pub open spec fn first_of(a: Option<nat>, b: Option<nat>) -> Option<nat> {
    match a {
        Some(x) => Some(x),
        None => b,
    }
}

/// The expression is a path of the one given name.
pub open spec fn is_name(e: Expr, name: Seq<char>) -> bool {
    match e.kind {
        ExprKind::Path(segs) => segs@.len() == 1 && segs@[0]@ == name,
        _ => false,
    }
}

/// Where an expression first calls the function of the given name.
pub open spec fn self_call(name: Seq<char>, e: Expr) -> Option<nat>
    decreases e,
{
    match e.kind {
        ExprKind::Call { callee, args } => if is_name(*callee, name) {
            Some(callee.span.start as nat)
        } else {
            first_of(self_call(name, *callee), self_calls(name, args@))
        },
        ExprKind::Binary { lhs, rhs, .. } => first_of(self_call(name, *lhs), self_call(name, *rhs)),
        ExprKind::Unary { operand, .. } => self_call(name, *operand),
        ExprKind::Ref { operand, .. } => self_call(name, *operand),
        ExprKind::Paren(inner) => self_call(name, *inner),
        ExprKind::Tuple(es) => self_calls(name, es@),
        ExprKind::Array(es) => self_calls(name, es@),
        ExprKind::ArrayRepeat { value, count } => first_of(
            self_call(name, *value),
            self_call(name, *count),
        ),
        ExprKind::FieldAccess { obj, .. } => self_call(name, *obj),
        ExprKind::Index { obj, index } => first_of(self_call(name, *obj), self_call(name, *index)),
        ExprKind::MethodCall { obj, args, .. } => first_of(
            self_call(name, *obj),
            self_calls(name, args@),
        ),
        ExprKind::Cast { value, .. } => self_call(name, *value),
        ExprKind::Range { lo, hi, .. } => first_of(self_call(name, *lo), self_call(name, *hi)),
        ExprKind::UncheckedLoad { ptr, .. } => self_call(name, *ptr),
        ExprKind::VolatileLoad { ptr, .. } => self_call(name, *ptr),
        ExprKind::UncheckedCast { value, .. } => self_call(name, *value),
        ExprKind::UncheckedOffset { ptr, n, .. } => first_of(
            self_call(name, *ptr),
            self_call(name, *n),
        ),
        _ => None,
    }
}

/// Where expressions first call the function of the given name.
pub open spec fn self_calls(name: Seq<char>, es: Seq<Expr>) -> Option<nat>
    decreases es,
{
    if es.len() == 0 {
        None
    } else {
        first_of(self_calls(name, es.drop_last()), self_call(name, es.last()))
    }
}

/// Where the indexes and values of assignments first call the function of the
/// given name.
pub open spec fn assigns_self_call(name: Seq<char>, assigns: Seq<FieldAssign>) -> Option<nat>
    decreases assigns.len(),
{
    if assigns.len() == 0 {
        None
    } else {
        first_of(
            first_of(
                assigns_self_call(name, assigns.drop_last()),
                match assigns.last().index {
                    Some(index) => self_call(name, index),
                    None => None,
                },
            ),
            self_call(name, assigns.last().value),
        )
    }
}

/// Where a statement first calls the function of the given name.
pub open spec fn stmt_self_call(name: Seq<char>, s: Stmt) -> Option<nat>
    decreases s, 0nat,
{
    match s.kind {
        StmtKind::Let { value, .. } => self_call(name, value),
        StmtKind::LetShort { value, .. } => self_call(name, value),
        StmtKind::Expr(e) => self_call(name, e),
        StmtKind::Return(Some(e)) => self_call(name, e),
        StmtKind::Assign { value, .. } => self_call(name, value),
        StmtKind::Mutate { assigns, .. } => assigns_self_call(name, assigns@),
        StmtKind::MutateShort { value, .. } => self_call(name, value),
        StmtKind::ProcCall { args, .. } => self_calls(name, args@),
        StmtKind::UncheckedStore { ptr, value, .. } => first_of(
            self_call(name, ptr),
            self_call(name, value),
        ),
        StmtKind::VolatileStore { ptr, value, .. } => first_of(
            self_call(name, ptr),
            self_call(name, value),
        ),
        StmtKind::If { cond, then_block, else_block } => first_of(
            first_of(self_call(name, cond), stmts_self_call(name, then_block.stmts@)),
            match else_block {
                Some(b) => stmts_self_call(name, b.stmts@),
                None => None,
            },
        ),
        StmtKind::Sigma { source, body, .. } => first_of(
            self_call(name, source),
            stmts_self_call(name, body.stmts@),
        ),
        _ => None,
    }
}

/// Where statements, nested blocks included, first call the function of the
/// given name.
pub open spec fn stmts_self_call(name: Seq<char>, ss: Seq<Stmt>) -> Option<nat>
    decreases ss, 1nat,
{
    if ss.len() == 0 {
        None
    } else {
        first_of(stmts_self_call(name, ss.drop_last()), stmt_self_call(name, ss.last()))
    }
}

/// The fault of a function that calls itself and is not marked for it.
pub open spec fn totality_fault(d: FnDecl) -> Faults {
    if d.partial {
        Seq::empty()
    } else {
        match stmts_self_call(d.name@, d.body.stmts@) {
            Some(call_at) => seq![
                CheckErrorView::TotalityViolation {
                    fn_name: d.name@,
                    call_at,
                    decl_at: d.span.start as nat,
                },
            ],
            None => Seq::empty(),
        }
    }
}

/// The faults of functions that call themselves.
pub open spec fn totality_faults(items: Seq<Item>) -> Faults
    decreases items.len(),
{
    if items.len() == 0 {
        Seq::empty()
    } else {
        totality_faults(items.drop_last()) + match items.last() {
            Item::Fn(d) => totality_fault(d),
            _ => Seq::empty(),
        }
    }
}

/// Everything that is wrong with a program.
pub open spec fn program_faults(program: Program, res: Resolution) -> Faults {
    items_faults(res, program.items@) + totality_faults(program.items@)
}

/// The outcome of the checks: success where nothing is wrong, else every fault,
/// ordered by source position.
pub open spec fn check_outcome(program: Program, res: Resolution) -> Result<(), Faults> {
    let faults = program_faults(program, res);
    if faults.len() == 0 {
        Ok(())
    } else {
        Err(stable_sorted(faults, by_offset::<CheckError>()))
    }
}

// ─── The checks ────────────────────────────────────────────────────────────

/// Adds up the faults of a walk.
struct Walker<'a> {
    resolution: &'a Resolution,
    errors: Vec<CheckError>,
}

impl<'a> Walker<'a> {
    spec fn faults(&self) -> Faults {
        views(self.errors@)
    }

    fn push(&mut self, e: CheckError)
        ensures
            final(self).resolution == old(self).resolution,
            final(self).faults() == old(self).faults() + seq![e@],
    {
        self.errors.push(e);
        assert(self.faults() =~= old(self).faults() + seq![e@]);
    }

    fn push_imperative(&mut self, construct: &'static str, at: usize)
        ensures
            final(self).resolution == old(self).resolution,
            final(self).faults() == old(self).faults() + imperative(construct@, at),
    {
        self.push(CheckError::ImperativeInFunctional { construct, at });
    }

    fn push_call_fault(&mut self, callee: &Expr, at: usize)
        ensures
            final(self).resolution == old(self).resolution,
            final(self).faults() == old(self).faults() + call_fault(
                *old(self).resolution,
                *callee,
                at,
            ),
    {
        assert(self.faults() =~= self.faults() + Seq::empty());
        let resolution = self.resolution;
        if let Some(BindingRef::TopLevel(sym)) = resolution.lookup(callee.span) {
            if sym.kind == SymbolKind::Effect {
                self.push(
                    CheckError::CrossBoundaryCall {
                        callee_name: sym.name.clone(),
                        callee_kind: "#effect",
                        at,
                    },
                );
            } else if sym.kind == SymbolKind::Interrupt {
                self.push(
                    CheckError::CrossBoundaryCall {
                        callee_name: sym.name.clone(),
                        callee_kind: "#interrupt",
                        at,
                    },
                );
            }
        }
    }

    /// Walks an expression of an `@fn` body.
    fn walk_expr(&mut self, e: &Expr)
        ensures
            final(self).resolution == old(self).resolution,
            final(self).faults() == old(self).faults() + expr_faults(*old(self).resolution, *e),
        decreases e,
    {
        let ghost start = self.faults();
        let ghost res = *self.resolution;
        match &e.kind {
            ExprKind::UncheckedLoad { ptr, .. } => {
                self.push_imperative("#unchecked_load", e.span.start);
                self.walk_expr(ptr);
            },
            ExprKind::VolatileLoad { ptr, .. } => {
                self.push_imperative("#volatile_load", e.span.start);
                self.walk_expr(ptr);
            },
            ExprKind::UncheckedCast { value, .. } => {
                self.push_imperative("#unchecked_cast", e.span.start);
                self.walk_expr(value);
            },
            ExprKind::UncheckedOffset { ptr, n, .. } => {
                self.push_imperative("#unchecked_offset", e.span.start);
                self.walk_expr(ptr);
                self.walk_expr(n);
            },
            ExprKind::StateRead(_) => self.push_imperative("Auto@state", e.span.start),
            ExprKind::FieldAccess { obj, .. } => {
                let is_field = match self.resolution.lookup(e.span) {
                    Some(BindingRef::AutomatonField { .. }) => true,
                    _ => false,
                };
                if is_field {
                    self.push_imperative("automaton-field read", e.span.start);
                }
                self.walk_expr(obj);
            },
            ExprKind::Path(_) => {
                let is_automaton = match self.resolution.lookup(e.span) {
                    Some(BindingRef::TopLevel(sym)) => sym.kind == SymbolKind::Automaton,
                    _ => false,
                };
                if is_automaton {
                    self.push_imperative("bare automaton reference", e.span.start);
                }
            },
            ExprKind::Call { callee, args } => {
                self.walk_expr(callee);
                self.walk_exprs(args);
                self.push_call_fault(callee, e.span.start);
            },
            ExprKind::Paren(inner) => self.walk_expr(inner),
            ExprKind::Tuple(elems) => self.walk_exprs(elems),
            ExprKind::Array(elems) => self.walk_exprs(elems),
            ExprKind::ArrayRepeat { value, count } => {
                self.walk_expr(value);
                self.walk_expr(count);
            },
            ExprKind::Index { obj, index } => {
                self.walk_expr(obj);
                self.walk_expr(index);
            },
            ExprKind::MethodCall { obj, args, .. } => {
                self.walk_expr(obj);
                self.walk_exprs(args);
            },
            ExprKind::Unary { operand, .. } => self.walk_expr(operand),
            ExprKind::Ref { operand, .. } => self.walk_expr(operand),
            ExprKind::Binary { lhs, rhs, .. } => {
                self.walk_expr(lhs);
                self.walk_expr(rhs);
            },
            ExprKind::Cast { value, .. } => self.walk_expr(value),
            ExprKind::Range { lo, hi, .. } => {
                self.walk_expr(lo);
                self.walk_expr(hi);
            },
            _ => {},
        }
        assert(self.faults() =~= start + expr_faults(res, *e));
    }

    /// Walks several expressions of an `@fn` body.
    fn walk_exprs(&mut self, es: &Vec<Expr>)
        ensures
            final(self).resolution == old(self).resolution,
            final(self).faults() == old(self).faults() + exprs_faults(
                *old(self).resolution,
                es@,
            ),
        decreases es@,
    {
        let ghost start = self.faults();
        let ghost res = *self.resolution;
        let mut i: usize = 0;
        assert(es@.take(0) =~= Seq::<Expr>::empty());
        assert(self.faults() =~= start + Seq::empty());
        while i < es.len()
            invariant
                i <= es@.len(),
                self.resolution == old(self).resolution,
                res == *self.resolution,
                self.faults() == start + exprs_faults(res, es@.take(i as int)),
            decreases es@.len() - i,
        {
            self.walk_expr(&es[i]);
            proof {
                assert(es@.take(i as int + 1).drop_last() =~= es@.take(i as int));
                assert(es@.take(i as int + 1).last() == es@[i as int]);
                assert(self.faults() =~= start + exprs_faults(res, es@.take(i as int + 1)));
            }
            i = i + 1;
        }
        assert(es@.take(i as int) =~= es@);
    }

    /// Walks the indexes and values of assignments in an `@fn` body.
    fn walk_assigns(&mut self, assigns: &Vec<FieldAssign>)
        ensures
            final(self).resolution == old(self).resolution,
            final(self).faults() == old(self).faults() + assigns_faults(
                *old(self).resolution,
                assigns@,
            ),
    {
        let ghost start = self.faults();
        let ghost res = *self.resolution;
        let ghost all = assigns@;
        let mut i: usize = 0;
        assert(all.take(0) =~= Seq::<FieldAssign>::empty());
        assert(self.faults() =~= start + Seq::empty());
        while i < assigns.len()
            invariant
                i <= all.len(),
                all == assigns@,
                self.resolution == old(self).resolution,
                res == *self.resolution,
                self.faults() == start + assigns_faults(res, all.take(i as int)),
            decreases all.len() - i,
        {
            let fa = &assigns[i];
            if let Some(index) = &fa.index {
                self.walk_expr(index);
            }
            self.walk_expr(&fa.value);
            proof {
                assert(all.take(i as int + 1).drop_last() =~= all.take(i as int));
                assert(all.take(i as int + 1).last() == all[i as int]);
                assert(self.faults() =~= start + assigns_faults(res, all.take(i as int + 1)));
            }
            i = i + 1;
        }
        assert(all.take(i as int) =~= all);
    }

    /// Walks a statement of an `@fn` body.
    fn walk_stmt(&mut self, s: &Stmt)
        ensures
            final(self).resolution == old(self).resolution,
            final(self).faults() == old(self).faults() + stmt_faults(*old(self).resolution, *s),
        decreases s, 0nat,
    {
        let ghost start = self.faults();
        let ghost res = *self.resolution;
        match &s.kind {
            StmtKind::Mutate { assigns, .. } => {
                self.push_imperative("#mutate", s.span.start);
                self.walk_assigns(assigns);
            },
            StmtKind::MutateShort { value, .. } => {
                self.push_imperative("Auto.field <op>= …", s.span.start);
                self.walk_expr(value);
            },
            StmtKind::ProcCall { args, .. } => {
                self.push_imperative("#> proc()", s.span.start);
                self.walk_exprs(args);
            },
            StmtKind::UncheckedStore { ptr, value, .. } => {
                self.push_imperative("#unchecked_store", s.span.start);
                self.walk_expr(ptr);
                self.walk_expr(value);
            },
            StmtKind::VolatileStore { ptr, value, .. } => {
                self.push_imperative("#volatile_store", s.span.start);
                self.walk_expr(ptr);
                self.walk_expr(value);
            },
            StmtKind::Flush { .. } => self.push_imperative("#flush", s.span.start),
            StmtKind::Let { value, .. } => self.walk_expr(value),
            StmtKind::LetShort { value, .. } => self.walk_expr(value),
            StmtKind::Expr(e) => self.walk_expr(e),
            StmtKind::Return(Some(e)) => self.walk_expr(e),
            StmtKind::Assign { value, .. } => self.walk_expr(value),
            StmtKind::If { cond, then_block, else_block } => {
                self.walk_expr(cond);
                self.walk_block(then_block);
                if let Some(b) = else_block {
                    self.walk_block(b);
                }
            },
            StmtKind::Sigma { source, body, .. } => {
                self.walk_expr(source);
                self.walk_block(body);
            },
            _ => {},
        }
        assert(self.faults() =~= start + stmt_faults(res, *s));
    }

    /// Walks a block of an `@fn` body.
    fn walk_block(&mut self, b: &Block)
        ensures
            final(self).resolution == old(self).resolution,
            final(self).faults() == old(self).faults() + stmts_faults(
                *old(self).resolution,
                b.stmts@,
            ),
        decreases b.stmts@, 1nat,
    {
        let ghost start = self.faults();
        let ghost res = *self.resolution;
        let ghost ss = b.stmts@;
        let mut i: usize = 0;
        assert(ss.take(0) =~= Seq::<Stmt>::empty());
        assert(self.faults() =~= start + Seq::empty());
        while i < b.stmts.len()
            invariant
                i <= ss.len(),
                ss == b.stmts@,
                self.resolution == old(self).resolution,
                res == *self.resolution,
                self.faults() == start + stmts_faults(res, ss.take(i as int)),
            decreases ss.len() - i,
        {
            self.walk_stmt(&b.stmts[i]);
            proof {
                assert(ss.take(i as int + 1).drop_last() =~= ss.take(i as int));
                assert(ss.take(i as int + 1).last() == ss[i as int]);
                assert(self.faults() =~= start + stmts_faults(res, ss.take(i as int + 1)));
            }
            i = i + 1;
        }
        assert(ss.take(i as int) =~= ss);
    }

    /// Checks one write against what the callable lists and forbids.
    fn check_mutation_target(
        &mut self,
        automaton: &str,
        at: usize,
        enclosing: &str,
        mutates: &Vec<String>,
        cannot_mutate: &Vec<String>,
    )
        ensures
            final(self).resolution == old(self).resolution,
            final(self).faults() == old(self).faults() + write_fault(
                automaton@,
                at,
                enclosing@,
                mutates@,
                cannot_mutate@,
            ),
    {
        assert(self.faults() =~= self.faults() + Seq::empty());
        if is_listed(cannot_mutate, automaton) {
            self.push(
                CheckError::WriteToCannotMutate {
                    automaton: automaton.to_owned(),
                    enclosing: enclosing.to_owned(),
                    at,
                },
            );
        } else if !is_listed(mutates, automaton) {
            self.push(
                CheckError::WriteToUndeclaredAutomaton {
                    automaton: automaton.to_owned(),
                    enclosing: enclosing.to_owned(),
                    at,
                },
            );
        }
    }

    /// Checks the writes in a statement of a callable.
    fn walk_imperative_stmt(
        &mut self,
        s: &Stmt,
        enclosing: &str,
        mutates: &Vec<String>,
        cannot_mutate: &Vec<String>,
    )
        ensures
            final(self).resolution == old(self).resolution,
            final(self).faults() == old(self).faults() + stmt_write_faults(
                *s,
                enclosing@,
                mutates@,
                cannot_mutate@,
            ),
        decreases s, 0nat,
    {
        let ghost start = self.faults();
        match &s.kind {
            StmtKind::Mutate { automaton, .. } => self.check_mutation_target(
                automaton.as_str(),
                s.span.start,
                enclosing,
                mutates,
                cannot_mutate,
            ),
            StmtKind::MutateShort { automaton, .. } => self.check_mutation_target(
                automaton.as_str(),
                s.span.start,
                enclosing,
                mutates,
                cannot_mutate,
            ),
            StmtKind::If { then_block, else_block, .. } => {
                self.walk_imperative_block(then_block, enclosing, mutates, cannot_mutate);
                if let Some(b) = else_block {
                    self.walk_imperative_block(b, enclosing, mutates, cannot_mutate);
                }
            },
            StmtKind::Sigma { body, .. } => self.walk_imperative_block(
                body,
                enclosing,
                mutates,
                cannot_mutate,
            ),
            _ => {},
        }
        assert(self.faults() =~= start + stmt_write_faults(
            *s,
            enclosing@,
            mutates@,
            cannot_mutate@,
        ));
    }

    /// Checks the writes in a block of a callable.
    fn walk_imperative_block(
        &mut self,
        b: &Block,
        enclosing: &str,
        mutates: &Vec<String>,
        cannot_mutate: &Vec<String>,
    )
        ensures
            final(self).resolution == old(self).resolution,
            final(self).faults() == old(self).faults() + write_faults(
                b.stmts@,
                enclosing@,
                mutates@,
                cannot_mutate@,
            ),
        decreases b.stmts@, 1nat,
    {
        let ghost start = self.faults();
        let ghost ss = b.stmts@;
        let mut i: usize = 0;
        assert(ss.take(0) =~= Seq::<Stmt>::empty());
        assert(self.faults() =~= start + Seq::empty());
        while i < b.stmts.len()
            invariant
                i <= ss.len(),
                ss == b.stmts@,
                self.resolution == old(self).resolution,
                self.faults() == start + write_faults(
                    ss.take(i as int),
                    enclosing@,
                    mutates@,
                    cannot_mutate@,
                ),
            decreases ss.len() - i,
        {
            self.walk_imperative_stmt(&b.stmts[i], enclosing, mutates, cannot_mutate);
            proof {
                assert(ss.take(i as int + 1).drop_last() =~= ss.take(i as int));
                assert(ss.take(i as int + 1).last() == ss[i as int]);
                assert(self.faults() =~= start + write_faults(
                    ss.take(i as int + 1),
                    enclosing@,
                    mutates@,
                    cannot_mutate@,
                ));
            }
            i = i + 1;
        }
        assert(ss.take(i as int) =~= ss);
    }

    /// Checks the writes in the transitions of an automaton.
    fn walk_automaton_decl(&mut self, d: &AutomatonDecl)
        ensures
            final(self).resolution == old(self).resolution,
            final(self).faults() == old(self).faults() + transitions_faults(
                d.name,
                d.transitions@,
            ),
    {
        let ghost start = self.faults();
        let ghost ts = d.transitions@;
        let own: Vec<String> = vec![d.name.clone()];
        let none: Vec<String> = Vec::new();
        let mut i: usize = 0;
        assert(own@ =~= seq![d.name]);
        assert(none@ =~= Seq::<String>::empty());
        assert(ts.take(0) =~= Seq::<TransitionDecl>::empty());
        assert(self.faults() =~= start + Seq::empty());
        while i < d.transitions.len()
            invariant
                i <= ts.len(),
                ts == d.transitions@,
                own@ == seq![d.name],
                none@ == Seq::<String>::empty(),
                self.resolution == old(self).resolution,
                self.faults() == start + transitions_faults(d.name, ts.take(i as int)),
            decreases ts.len() - i,
        {
            let t = &d.transitions[i];
            let mut enclosing = "#transition ".to_owned();
            enclosing.append(t.name.as_str());
            enclosing.append(" in #automaton ");
            enclosing.append(d.name.as_str());
            self.walk_imperative_block(&t.body, enclosing.as_str(), &own, &none);
            proof {
                assert(ts.take(i as int + 1).drop_last() =~= ts.take(i as int));
                assert(ts.take(i as int + 1).last() == ts[i as int]);
                assert(self.faults() =~= start + transitions_faults(
                    d.name,
                    ts.take(i as int + 1),
                ));
            }
            i = i + 1;
        }
        assert(ts.take(i as int) =~= ts);
    }

    /// Checks an item.
    fn walk_item(&mut self, item: &Item)
        ensures
            final(self).resolution == old(self).resolution,
            final(self).faults() == old(self).faults() + item_faults(
                *old(self).resolution,
                *item,
            ),
    {
        assert(self.faults() =~= self.faults() + Seq::empty());
        match item {
            Item::Fn(d) => self.walk_block(&d.body),
            Item::Effect(d) => {
                let mut enclosing = "#effect ".to_owned();
                enclosing.append(d.name.as_str());
                self.walk_imperative_block(
                    &d.body,
                    enclosing.as_str(),
                    &d.mutates,
                    &d.cannot_mutate,
                );
            },
            Item::Interrupt(d) => {
                let none: Vec<String> = Vec::new();
                assert(none@ =~= Seq::<String>::empty());
                let mut enclosing = "#interrupt ".to_owned();
                enclosing.append(d.name.as_str());
                self.walk_imperative_block(&d.body, enclosing.as_str(), &d.mutates, &none);
            },
            Item::Automaton(d) => self.walk_automaton_decl(d),
            _ => {},
        }
    }
}

/// A find as a mathematical value.
spec fn found_view(r: Option<usize>) -> Option<nat> {
    match r {
        Some(n) => Some(n as nat),
        None => None,
    }
}

/// Where an expression first calls the function of the given name.
fn find_self_call(name: &str, e: &Expr) -> (r: Option<usize>)
    ensures
        found_view(r) == self_call(name@, *e),
    decreases e,
{
    match &e.kind {
        ExprKind::Call { callee, args } => {
            if let ExprKind::Path(segs) = &callee.kind {
                if segs.len() == 1 && same(segs[0].as_str(), name) {
                    return Some(callee.span.start);
                }
            }
            match find_self_call(name, callee) {
                Some(at) => Some(at),
                None => find_self_calls(name, args),
            }
        },
        ExprKind::Binary { lhs, rhs, .. } => match find_self_call(name, lhs) {
            Some(at) => Some(at),
            None => find_self_call(name, rhs),
        },
        ExprKind::Unary { operand, .. } => find_self_call(name, operand),
        ExprKind::Ref { operand, .. } => find_self_call(name, operand),
        ExprKind::Paren(inner) => find_self_call(name, inner),
        ExprKind::Tuple(es) => find_self_calls(name, es),
        ExprKind::Array(es) => find_self_calls(name, es),
        ExprKind::ArrayRepeat { value, count } => match find_self_call(name, value) {
            Some(at) => Some(at),
            None => find_self_call(name, count),
        },
        ExprKind::FieldAccess { obj, .. } => find_self_call(name, obj),
        ExprKind::Index { obj, index } => match find_self_call(name, obj) {
            Some(at) => Some(at),
            None => find_self_call(name, index),
        },
        ExprKind::MethodCall { obj, args, .. } => match find_self_call(name, obj) {
            Some(at) => Some(at),
            None => find_self_calls(name, args),
        },
        ExprKind::Cast { value, .. } => find_self_call(name, value),
        ExprKind::Range { lo, hi, .. } => match find_self_call(name, lo) {
            Some(at) => Some(at),
            None => find_self_call(name, hi),
        },
        ExprKind::UncheckedLoad { ptr, .. } => find_self_call(name, ptr),
        ExprKind::VolatileLoad { ptr, .. } => find_self_call(name, ptr),
        ExprKind::UncheckedCast { value, .. } => find_self_call(name, value),
        ExprKind::UncheckedOffset { ptr, n, .. } => match find_self_call(name, ptr) {
            Some(at) => Some(at),
            None => find_self_call(name, n),
        },
        _ => None,
    }
}

proof fn self_calls_prefix(name: Seq<char>, es: Seq<Expr>, i: int)
    requires
        0 <= i <= es.len(),
        self_calls(name, es.take(i)) is Some,
    ensures
        self_calls(name, es) == self_calls(name, es.take(i)),
    decreases es.len(),
{
    if i == es.len() {
        assert(es.take(i) =~= es);
    } else {
        assert(es.drop_last().take(i) =~= es.take(i));
        self_calls_prefix(name, es.drop_last(), i);
    }
}

/// Where expressions first call the function of the given name.
fn find_self_calls(name: &str, es: &Vec<Expr>) -> (r: Option<usize>)
    ensures
        found_view(r) == self_calls(name@, es@),
    decreases es@,
{
    let mut i: usize = 0;
    assert(es@.take(0) =~= Seq::<Expr>::empty());
    while i < es.len()
        invariant
            i <= es@.len(),
            self_calls(name@, es@.take(i as int)) is None,
        decreases es@.len() - i,
    {
        proof {
            assert(es@.take(i as int + 1).drop_last() =~= es@.take(i as int));
            assert(es@.take(i as int + 1).last() == es@[i as int]);
        }
        if let Some(at) = find_self_call(name, &es[i]) {
            proof {
                self_calls_prefix(name@, es@, i + 1);
            }
            return Some(at);
        }
        i = i + 1;
    }
    assert(es@.take(i as int) =~= es@);
    None
}

proof fn stmts_self_call_prefix(name: Seq<char>, ss: Seq<Stmt>, i: int)
    requires
        0 <= i <= ss.len(),
        stmts_self_call(name, ss.take(i)) is Some,
    ensures
        stmts_self_call(name, ss) == stmts_self_call(name, ss.take(i)),
    decreases ss.len(),
{
    if i == ss.len() {
        assert(ss.take(i) =~= ss);
    } else {
        assert(ss.drop_last().take(i) =~= ss.take(i));
        stmts_self_call_prefix(name, ss.drop_last(), i);
    }
}

proof fn assigns_self_call_prefix(name: Seq<char>, assigns: Seq<FieldAssign>, i: int)
    requires
        0 <= i <= assigns.len(),
        assigns_self_call(name, assigns.take(i)) is Some,
    ensures
        assigns_self_call(name, assigns) == assigns_self_call(name, assigns.take(i)),
    decreases assigns.len(),
{
    if i == assigns.len() {
        assert(assigns.take(i) =~= assigns);
    } else {
        assert(assigns.drop_last().take(i) =~= assigns.take(i));
        assigns_self_call_prefix(name, assigns.drop_last(), i);
    }
}

/// Where the indexes and values of assignments first call the function of the
/// given name.
fn find_assigns_recursion(name: &str, assigns: &Vec<FieldAssign>) -> (r: Option<usize>)
    ensures
        found_view(r) == assigns_self_call(name@, assigns@),
{
    let ghost all = assigns@;
    let mut i: usize = 0;
    assert(all.take(0) =~= Seq::<FieldAssign>::empty());
    while i < assigns.len()
        invariant
            i <= all.len(),
            all == assigns@,
            assigns_self_call(name@, all.take(i as int)) is None,
        decreases all.len() - i,
    {
        proof {
            assert(all.take(i as int + 1).drop_last() =~= all.take(i as int));
            assert(all.take(i as int + 1).last() == all[i as int]);
        }
        let fa = &assigns[i];
        if let Some(index) = &fa.index {
            if let Some(at) = find_self_call(name, index) {
                proof {
                    assigns_self_call_prefix(name@, all, i + 1);
                }
                return Some(at);
            }
        }
        if let Some(at) = find_self_call(name, &fa.value) {
            proof {
                assigns_self_call_prefix(name@, all, i + 1);
            }
            return Some(at);
        }
        i = i + 1;
    }
    assert(all.take(i as int) =~= all);
    None
}

/// Where a statement first calls the function of the given name.
fn find_stmt_recursion(name: &str, s: &Stmt) -> (r: Option<usize>)
    ensures
        found_view(r) == stmt_self_call(name@, *s),
    decreases s, 0nat,
{
    match &s.kind {
        StmtKind::Let { value, .. } => find_self_call(name, value),
        StmtKind::LetShort { value, .. } => find_self_call(name, value),
        StmtKind::Expr(e) => find_self_call(name, e),
        StmtKind::Return(Some(e)) => find_self_call(name, e),
        StmtKind::Assign { value, .. } => find_self_call(name, value),
        StmtKind::Mutate { assigns, .. } => find_assigns_recursion(name, assigns),
        StmtKind::MutateShort { value, .. } => find_self_call(name, value),
        StmtKind::ProcCall { args, .. } => find_self_calls(name, args),
        StmtKind::UncheckedStore { ptr, value, .. } => match find_self_call(name, ptr) {
            Some(at) => Some(at),
            None => find_self_call(name, value),
        },
        StmtKind::VolatileStore { ptr, value, .. } => match find_self_call(name, ptr) {
            Some(at) => Some(at),
            None => find_self_call(name, value),
        },
        StmtKind::If { cond, then_block, else_block } => {
            if let Some(at) = find_self_call(name, cond) {
                return Some(at);
            }
            if let Some(at) = find_recursion(name, then_block) {
                return Some(at);
            }
            match else_block {
                Some(b) => find_recursion(name, b),
                None => None,
            }
        },
        StmtKind::Sigma { source, body, .. } => match find_self_call(name, source) {
            Some(at) => Some(at),
            None => find_recursion(name, body),
        },
        _ => None,
    }
}

/// Where a block first calls the function of the given name.
fn find_recursion(name: &str, b: &Block) -> (r: Option<usize>)
    ensures
        found_view(r) == stmts_self_call(name@, b.stmts@),
    decreases b.stmts@, 1nat,
{
    let ghost ss = b.stmts@;
    let mut i: usize = 0;
    assert(ss.take(0) =~= Seq::<Stmt>::empty());
    while i < b.stmts.len()
        invariant
            i <= ss.len(),
            ss == b.stmts@,
            stmts_self_call(name@, ss.take(i as int)) is None,
        decreases ss.len() - i,
    {
        proof {
            assert(ss.take(i as int + 1).drop_last() =~= ss.take(i as int));
            assert(ss.take(i as int + 1).last() == ss[i as int]);
        }
        if let Some(at) = find_stmt_recursion(name, &b.stmts[i]) {
            proof {
                stmts_self_call_prefix(name@, ss, i + 1);
            }
            return Some(at);
        }
        i = i + 1;
    }
    assert(ss.take(i as int) =~= ss);
    None
}

/// Adds the functions that call themselves and are not marked for it.
fn check_totality(program: &Program, errors: &mut Vec<CheckError>)
    ensures
        views(final(errors)@) == views(old(errors)@) + totality_faults(program.items@),
{
    let ghost start = views(errors@);
    let ghost items = program.items@;
    let mut i: usize = 0;
    assert(items.take(0) =~= Seq::<Item>::empty());
    assert(views(errors@) =~= start + Seq::empty());
    while i < program.items.len()
        invariant
            i <= items.len(),
            items == program.items@,
            views(errors@) == start + totality_faults(items.take(i as int)),
        decreases items.len() - i,
    {
        let ghost before = views(errors@);
        proof {
            assert(items.take(i as int + 1).drop_last() =~= items.take(i as int));
            assert(items.take(i as int + 1).last() == items[i as int]);
            assert(before =~= before + Seq::empty());
        }
        if let Item::Fn(d) = &program.items[i] {
            if !d.partial {
                if let Some(call_at) = find_recursion(d.name.as_str(), &d.body) {
                    let e = CheckError::TotalityViolation {
                        fn_name: d.name.clone(),
                        call_at,
                        decl_at: d.span.start,
                    };
                    errors.push(e);
                    assert(views(errors@) =~= before + seq![e@]);
                }
            }
        }
        assert(views(errors@) =~= start + totality_faults(items.take(i as int + 1)));
        i = i + 1;
    }
    assert(items.take(i as int) =~= items);
}

/// The outcome of the checks as a mathematical value.
pub open spec fn outcome(r: Result<(), Vec<CheckError>>) -> Result<(), Faults> {
    match r {
        Ok(_) => Ok(()),
        Err(errors) => Err(views(errors@)),
    }
}

/// Checks a program.
///
/// An `@fn` body must hold no imperative construct and call no effect or
/// interrupt; effects, interrupts and transitions must write only what they
/// may; and a function that calls itself must be `@partial`. All faults are
/// given, ordered by source position.
pub fn check(program: &Program, resolution: &Resolution) -> (r: Result<(), Vec<CheckError>>)
    ensures
        outcome(r) == check_outcome(*program, *resolution),
{
    let ghost items = program.items@;
    let mut walker = Walker { resolution, errors: Vec::new() };
    let mut i: usize = 0;
    assert(items.take(0) =~= Seq::<Item>::empty());
    assert(walker.faults() =~= Seq::<CheckErrorView>::empty());
    while i < program.items.len()
        invariant
            i <= items.len(),
            items == program.items@,
            *walker.resolution == *resolution,
            walker.faults() == items_faults(*resolution, items.take(i as int)),
        decreases items.len() - i,
    {
        walker.walk_item(&program.items[i]);
        proof {
            assert(items.take(i as int + 1).drop_last() =~= items.take(i as int));
            assert(items.take(i as int + 1).last() == items[i as int]);
        }
        i = i + 1;
    }
    assert(items.take(i as int) =~= items);
    let mut errors = walker.errors;
    check_totality(program, &mut errors);
    if errors.len() == 0 {
        Ok(())
    } else {
        Err(sort_by_offset(errors))
    }
}

// ─── Laws ──────────────────────────────────────────────────────────────────

/// Where the checks fail, every fault is given once and in source order, and
/// there is at least one.
pub proof fn faults_are_ordered(program: Program, res: Resolution)
    ensures
        match check_outcome(program, res) {
            Ok(_) => program_faults(program, res).len() == 0,
            Err(errors) => {
                &&& errors.len() > 0
                &&& ascending(errors, by_offset::<CheckError>())
                &&& errors.to_multiset() == program_faults(program, res).to_multiset()
            },
        },
{
    sorting_orders_and_keeps(program_faults(program, res), by_offset::<CheckError>());
}

/// What a callable forbids itself it may not write, even where it lists it too.
pub proof fn prohibition_outranks_permission(
    automaton: Seq<char>,
    at: usize,
    enclosing: Seq<char>,
    mutates: Seq<String>,
    cannot_mutate: Seq<String>,
)
    requires
        listed(cannot_mutate, automaton),
    ensures
        write_fault(automaton, at, enclosing, mutates, cannot_mutate) == seq![
            CheckErrorView::WriteToCannotMutate { automaton, enclosing, at: at as nat },
        ],
{
}

/// Calls from the functional layer to anything but effects and interrupts are
/// no fault.
pub proof fn downward_calls_are_free(res: Resolution, callee: Expr, at: usize)
    requires
        match res.binding(callee.span) {
            Some(BindingRef::TopLevel(sym)) => sym.kind != SymbolKind::Effect && sym.kind
                != SymbolKind::Interrupt,
            _ => true,
        },
    ensures
        call_fault(res, callee, at).len() == 0,
{
}

proof fn items_faults_iff(res: Resolution, items: Seq<Item>)
    ensures
        items_faults(res, items).len() == 0 <==> forall|i: int|
            0 <= i < items.len() ==> item_faults(res, #[trigger] items[i]).len() == 0,
    decreases items.len(),
{
    if items.len() > 0 {
        let front = items.drop_last();
        items_faults_iff(res, front);
        assert(items[items.len() - 1] == items.last());
        if forall|i: int|
            0 <= i < front.len() ==> item_faults(res, #[trigger] front[i]).len() == 0 {
            assert forall|i: int| 0 <= i < front.len() implies item_faults(
                res,
                #[trigger] items[i],
            ).len() == 0 by {
                assert(item_faults(res, front[i]).len() == 0);
            }
        }
        if forall|i: int|
            0 <= i < items.len() ==> item_faults(res, #[trigger] items[i]).len() == 0 {
            assert forall|i: int| 0 <= i < front.len() implies item_faults(
                res,
                #[trigger] front[i],
            ).len() == 0 by {
                assert(item_faults(res, items[i]).len() == 0);
            }
        }
    }
}

/// The item is no function that calls itself without being `@partial`.
pub open spec fn is_total_or_partial(i: Item) -> bool {
    match i {
        Item::Fn(d) => d.partial || stmts_self_call(d.name@, d.body.stmts@) is None,
        _ => true,
    }
}

proof fn totality_faults_iff(items: Seq<Item>)
    ensures
        totality_faults(items).len() == 0 <==> forall|i: int|
            0 <= i < items.len() ==> is_total_or_partial(#[trigger] items[i]),
    decreases items.len(),
{
    if items.len() > 0 {
        let front = items.drop_last();
        totality_faults_iff(front);
        assert(items[items.len() - 1] == items.last());
        if forall|i: int| 0 <= i < front.len() ==> is_total_or_partial(#[trigger] front[i]) {
            assert forall|i: int| 0 <= i < front.len() implies is_total_or_partial(
                #[trigger] items[i],
            ) by {
                assert(is_total_or_partial(front[i]));
            }
        }
        if forall|i: int| 0 <= i < items.len() ==> is_total_or_partial(#[trigger] items[i]) {
            assert forall|i: int| 0 <= i < front.len() implies is_total_or_partial(
                #[trigger] front[i],
            ) by {
                assert(is_total_or_partial(items[i]));
            }
        }
    }
}

/// A program is accepted exactly where no item oversteps its layer or its
/// authority and every function is total or marked otherwise.
pub proof fn accepted_iff_every_item_is(program: Program, res: Resolution)
    ensures
        check_outcome(program, res) is Ok <==> forall|i: int|
            0 <= i < program.items@.len() ==> item_faults(res, #[trigger] program.items@[i]).len()
                == 0 && is_total_or_partial(program.items@[i]),
{
    let items = program.items@;
    items_faults_iff(res, items);
    totality_faults_iff(items);
    if check_outcome(program, res) is Ok {
        assert forall|i: int| 0 <= i < items.len() implies item_faults(
            res,
            #[trigger] items[i],
        ).len() == 0 && is_total_or_partial(items[i]) by {}
    }
    if forall|i: int|
        0 <= i < items.len() ==> item_faults(res, #[trigger] items[i]).len() == 0
            && is_total_or_partial(items[i]) {
        assert forall|i: int| 0 <= i < items.len() implies is_total_or_partial(
            #[trigger] items[i],
        ) by {
            assert(item_faults(res, items[i]).len() == 0);
        }
    }
}

/// The statement, with its nested blocks, flushes nothing.
pub open spec fn flushes_nothing(s: Stmt) -> bool
    decreases s, 0nat,
{
    match s.kind {
        StmtKind::Flush { .. } => false,
        StmtKind::If { then_block, else_block, .. } => all_flush_nothing(then_block.stmts@) && (
        match else_block {
            Some(b) => all_flush_nothing(b.stmts@),
            None => true,
        }),
        StmtKind::Sigma { body, .. } => all_flush_nothing(body.stmts@),
        _ => true,
    }
}

/// The statements, with their nested blocks, flush nothing.
pub open spec fn all_flush_nothing(ss: Seq<Stmt>) -> bool
    decreases ss, 1nat,
{
    ss.len() == 0 || (all_flush_nothing(ss.drop_last()) && flushes_nothing(ss.last()))
}

/// Every automaton of a written field is listed and not forbidden.
pub open spec fn writes_permitted(
    writes: Set<FieldRefView>,
    mutates: Seq<String>,
    cannot_mutate: Seq<String>,
) -> bool {
    forall|f: FieldRefView| #[trigger]
        writes.contains(f) ==> listed(mutates, f.automaton) && !listed(cannot_mutate, f.automaton)
}

proof fn assigned_fields(sc: Scope, automaton: Seq<char>, assigns: Seq<FieldAssign>)
    ensures
        forall|f: FieldRefView| #[trigger]
            assigns_effects(sc, automaton, assigns).writes.contains(f) ==> f.automaton == automaton,
    decreases assigns.len(),
{
    if assigns.len() > 0 {
        assigned_fields(sc, automaton, assigns.drop_last());
        let fa = assigns.last();
        expressions_only_read(sc, fa.value);
        if let Some(index) = fa.index {
            expressions_only_read(sc, index);
        }
        let before = assigns_effects(sc, automaton, assigns.drop_last()).writes;
        let after = assigns_effects(sc, automaton, assigns).writes;
        assert forall|f: FieldRefView| #[trigger] after.contains(f) implies f.automaton
            == automaton by {
            assert(before.contains(f) || f == (FieldRefView { automaton, field: fa.field@ }));
        }
    }
}

proof fn permitted_statement(
    sc: Scope,
    s: Stmt,
    enclosing: Seq<char>,
    mutates: Seq<String>,
    cannot_mutate: Seq<String>,
)
    requires
        stmt_write_faults(s, enclosing, mutates, cannot_mutate).len() == 0,
        flushes_nothing(s),
    ensures
        writes_permitted(stmt_effects(sc, s).writes, mutates, cannot_mutate),
    decreases s, 0nat,
{
    match s.kind {
        StmtKind::Mutate { automaton, assigns } => assigned_fields(sc, automaton@, assigns@),
        StmtKind::MutateShort { value, .. } => expressions_only_read(sc, value),
        StmtKind::ProcCall { args, .. } => lists_only_read(sc, args@),
        StmtKind::Let { value, .. } => expressions_only_read(sc, value),
        StmtKind::LetShort { value, .. } => expressions_only_read(sc, value),
        StmtKind::Expr(e) => expressions_only_read(sc, e),
        StmtKind::Return(Some(e)) => expressions_only_read(sc, e),
        StmtKind::UncheckedStore { ptr, value, .. } => {
            expressions_only_read(sc, ptr);
            expressions_only_read(sc, value);
        },
        StmtKind::VolatileStore { ptr, value, .. } => {
            expressions_only_read(sc, ptr);
            expressions_only_read(sc, value);
        },
        StmtKind::Assign { value, .. } => expressions_only_read(sc, value),
        StmtKind::If { cond, then_block, else_block } => {
            expressions_only_read(sc, cond);
            accepted_bodies_write_what_they_may(
                sc,
                then_block.stmts@,
                enclosing,
                mutates,
                cannot_mutate,
            );
            if let Some(b) = else_block {
                accepted_bodies_write_what_they_may(
                    sc,
                    b.stmts@,
                    enclosing,
                    mutates,
                    cannot_mutate,
                );
            }
        },
        StmtKind::Sigma { source, body, .. } => {
            expressions_only_read(sc, source);
            accepted_bodies_write_what_they_may(
                sc,
                body.stmts@,
                enclosing,
                mutates,
                cannot_mutate,
            );
        },
        _ => {},
    }
}

/// A body that passes the check and flushes nothing writes by itself only what
/// its callable lists, and nothing that it forbids.
pub proof fn accepted_bodies_write_what_they_may(
    sc: Scope,
    ss: Seq<Stmt>,
    enclosing: Seq<char>,
    mutates: Seq<String>,
    cannot_mutate: Seq<String>,
)
    requires
        write_faults(ss, enclosing, mutates, cannot_mutate).len() == 0,
        all_flush_nothing(ss),
    ensures
        writes_permitted(stmts_effects(sc, ss).writes, mutates, cannot_mutate),
    decreases ss, 1nat,
{
    if ss.len() > 0 {
        accepted_bodies_write_what_they_may(
            sc,
            ss.drop_last(),
            enclosing,
            mutates,
            cannot_mutate,
        );
        permitted_statement(sc, ss.last(), enclosing, mutates, cannot_mutate);
    }
}

proof fn functional_statement(res: Resolution, sc: Scope, s: Stmt)
    requires
        stmt_faults(res, s).len() == 0,
    ensures
        stmt_effects(sc, s).writes =~= Set::empty(),
        stmt_effects(sc, s).proc_calls =~= Set::empty(),
    decreases s, 0nat,
{
    match s.kind {
        StmtKind::Let { value, .. } => expressions_only_read(sc, value),
        StmtKind::LetShort { value, .. } => expressions_only_read(sc, value),
        StmtKind::Expr(e) => expressions_only_read(sc, e),
        StmtKind::Return(Some(e)) => expressions_only_read(sc, e),
        StmtKind::Assign { value, .. } => expressions_only_read(sc, value),
        StmtKind::If { cond, then_block, else_block } => {
            expressions_only_read(sc, cond);
            functional_code_changes_nothing(res, sc, then_block.stmts@);
            if let Some(b) = else_block {
                functional_code_changes_nothing(res, sc, b.stmts@);
            }
        },
        StmtKind::Sigma { source, body, .. } => {
            expressions_only_read(sc, source);
            functional_code_changes_nothing(res, sc, body.stmts@);
        },
        _ => {},
    }
}

/// An `@fn` body that passes the check writes no field and calls no effect and
/// no transition, in whatever scope it stands.
pub proof fn functional_code_changes_nothing(res: Resolution, sc: Scope, ss: Seq<Stmt>)
    requires
        stmts_faults(res, ss).len() == 0,
    ensures
        stmts_effects(sc, ss).writes =~= Set::empty(),
        stmts_effects(sc, ss).proc_calls =~= Set::empty(),
    decreases ss, 1nat,
{
    if ss.len() > 0 {
        functional_code_changes_nothing(res, sc, ss.drop_last());
        functional_statement(res, sc, ss.last());
    }
}

} // verus!
