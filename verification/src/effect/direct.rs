//! What the body of each callable does by itself: the fields it writes and
//! reads, and the callables it calls.
use vstd::prelude::*;

use crate::ast::{
    AssignOp, AutomatonDecl, Block, Expr, ExprKind, FieldAssign, Item, Program, Stmt, StmtKind,
    TransitionDecl,
};
use crate::collections::{KeyMap, KeySet};
use crate::effect::callable::{CallableId, CallableView, FieldRef, FieldRefView};
use crate::resolve::{BindingRef, CallContext, Resolution, SymbolKind};
use crate::text::same;

verus! {

// ─── Model ─────────────────────────────────────────────────────────────────

/// What a piece of code does by itself.
pub ghost struct DirectView {
    pub writes: Set<FieldRefView>,
    pub reads: Set<FieldRefView>,
    /// The callables it calls. A transition is named without its automaton.
    pub proc_calls: Set<CallableView>,
}

impl DirectView {
    /// Nothing.
    pub open spec fn none() -> DirectView {
        DirectView { writes: Set::empty(), reads: Set::empty(), proc_calls: Set::empty() }
    }

    /// What either does.
    pub open spec fn and(self, other: DirectView) -> DirectView {
        DirectView {
            writes: self.writes.union(other.writes),
            reads: self.reads.union(other.reads),
            proc_calls: self.proc_calls.union(other.proc_calls),
        }
    }

    /// One write.
    pub open spec fn write(automaton: Seq<char>, field: Seq<char>) -> DirectView {
        DirectView {
            writes: set![FieldRefView { automaton, field }],
            ..DirectView::none()
        }
    }

    /// One read.
    pub open spec fn read(automaton: Seq<char>, field: Seq<char>) -> DirectView {
        DirectView { reads: set![FieldRefView { automaton, field }], ..DirectView::none() }
    }

    /// One call.
    pub open spec fn call(id: CallableView) -> DirectView {
        DirectView { proc_calls: set![id], ..DirectView::none() }
    }
}

/// The last automaton declared under a name.
pub open spec fn last_automaton(items: Seq<Item>, name: Seq<char>) -> Option<AutomatonDecl>
    decreases items.len(),
{
    if items.len() == 0 {
        None
    } else {
        match items.last() {
            Item::Automaton(d) if d.name@ == name => Some(d),
            _ => last_automaton(items.drop_last(), name),
        }
    }
}

/// What the walk over a body may consult.
pub ghost struct Scope {
    pub items: Seq<Item>,
    pub resolution: Resolution,
    /// The automaton whose transition the body belongs to.
    pub owner: Option<Seq<char>>,
}

impl Scope {
    /// The automaton that `obj` in `obj.field` names.
    pub open spec fn receiver(self, obj: Expr) -> Option<Seq<char>> {
        match obj.kind {
            ExprKind::Path(segs) => if segs@.len() != 1 {
                None
            } else if segs@[0]@ == "Self"@ {
                self.owner
            } else {
                match self.resolution.symbols.symbol(segs@[0]@) {
                    Some(s) => if s.kind == SymbolKind::Automaton {
                        Some(segs@[0]@)
                    } else {
                        None
                    },
                    None => None,
                }
            },
            _ => None,
        }
    }

    /// A write to every field of an automaton.
    pub open spec fn flush(self, automaton: Seq<char>) -> DirectView {
        match last_automaton(self.items, automaton) {
            None => DirectView::none(),
            Some(d) => field_writes(automaton, d, d.fields@.len()),
        }
    }

    /// The callable that the `#>` call in a statement refers to.
    pub open spec fn callee(self, s: Stmt, name: Seq<char>) -> DirectView {
        match self.resolution.binding(s.span) {
            Some(BindingRef::Proc { name: pn, ctx }) => DirectView::call(
                match ctx {
                    CallContext::Identity => CallableView::Effect(pn@),
                    CallContext::Transition => CallableView::Transition {
                        automaton: Seq::empty(),
                        name,
                    },
                },
            ),
            _ => DirectView::none(),
        }
    }
}

/// Writes to the first `n` fields of an automaton.
pub open spec fn field_writes(automaton: Seq<char>, d: AutomatonDecl, n: nat) -> DirectView
    decreases n,
{
    if n == 0 {
        DirectView::none()
    } else {
        field_writes(automaton, d, (n - 1) as nat).and(
            DirectView::write(automaton, d.fields@[n - 1].name@),
        )
    }
}

/// The reads in an expression: every `Auto.field` and, in a transition, every
/// `Self.field`. Snapshots, shadow reads and state reads do not count.
pub open spec fn expr_reads(sc: Scope, e: Expr) -> DirectView
    decreases e,
{
    match e.kind {
        ExprKind::FieldAccess { obj, field } => (match sc.receiver(*obj) {
            Some(owner) => DirectView::read(owner, field@),
            None => DirectView::none(),
        }).and(expr_reads(sc, *obj)),
        ExprKind::Index { obj, index } => expr_reads(sc, *obj).and(expr_reads(sc, *index)),
        ExprKind::Binary { lhs, rhs, .. } => expr_reads(sc, *lhs).and(expr_reads(sc, *rhs)),
        ExprKind::Unary { operand, .. } => expr_reads(sc, *operand),
        ExprKind::Ref { operand, .. } => expr_reads(sc, *operand),
        ExprKind::Paren(inner) => expr_reads(sc, *inner),
        ExprKind::Cast { value, .. } => expr_reads(sc, *value),
        ExprKind::Call { callee, args } => expr_reads(sc, *callee).and(exprs_reads(sc, args@)),
        ExprKind::MethodCall { obj, args, .. } => expr_reads(sc, *obj).and(exprs_reads(sc, args@)),
        ExprKind::Range { lo, hi, .. } => expr_reads(sc, *lo).and(expr_reads(sc, *hi)),
        ExprKind::Tuple(elems) => exprs_reads(sc, elems@),
        ExprKind::Array(elems) => exprs_reads(sc, elems@),
        ExprKind::ArrayRepeat { value, count } => expr_reads(sc, *value).and(
            expr_reads(sc, *count),
        ),
        ExprKind::UncheckedLoad { ptr, .. } => expr_reads(sc, *ptr),
        ExprKind::VolatileLoad { ptr, .. } => expr_reads(sc, *ptr),
        ExprKind::UncheckedCast { value, .. } => expr_reads(sc, *value),
        ExprKind::UncheckedOffset { ptr, n, .. } => expr_reads(sc, *ptr).and(expr_reads(sc, *n)),
        _ => DirectView::none(),
    }
}

/// The reads in several expressions.
pub open spec fn exprs_reads(sc: Scope, es: Seq<Expr>) -> DirectView
    decreases es,
{
    if es.len() == 0 {
        DirectView::none()
    } else {
        exprs_reads(sc, es.drop_last()).and(expr_reads(sc, es.last()))
    }
}

/// What the assignments of a `#mutate` do.
pub open spec fn assigns_effects(sc: Scope, automaton: Seq<char>, assigns: Seq<FieldAssign>) -> DirectView
    decreases assigns.len(),
{
    if assigns.len() == 0 {
        DirectView::none()
    } else {
        let fa = assigns.last();
        assigns_effects(sc, automaton, assigns.drop_last()).and(
            DirectView::write(automaton, fa.field@),
        ).and(
            match fa.index {
                Some(index) => expr_reads(sc, index),
                None => DirectView::none(),
            },
        ).and(expr_reads(sc, fa.value))
    }
}

/// What a statement does by itself.
pub open spec fn stmt_effects(sc: Scope, s: Stmt) -> DirectView
    decreases s, 0nat,
{
    match s.kind {
        StmtKind::Mutate { automaton, assigns } => assigns_effects(sc, automaton@, assigns@),
        StmtKind::MutateShort { automaton, field, op, value } => DirectView::write(
            automaton@,
            field@,
        ).and(
            if op == AssignOp::Eq {
                DirectView::none()
            } else {
                DirectView::read(automaton@, field@)
            },
        ).and(expr_reads(sc, value)),
        StmtKind::ProcCall { name, args } => sc.callee(s, name@).and(exprs_reads(sc, args@)),
        StmtKind::Let { value, .. } => expr_reads(sc, value),
        StmtKind::LetShort { value, .. } => expr_reads(sc, value),
        StmtKind::Expr(e) => expr_reads(sc, e),
        StmtKind::Return(Some(e)) => expr_reads(sc, e),
        StmtKind::Return(None) => DirectView::none(),
        StmtKind::UncheckedStore { ptr, value, .. } => expr_reads(sc, ptr).and(
            expr_reads(sc, value),
        ),
        StmtKind::VolatileStore { ptr, value, .. } => expr_reads(sc, ptr).and(
            expr_reads(sc, value),
        ),
        StmtKind::Assign { value, .. } => expr_reads(sc, value),
        StmtKind::If { cond, then_block, else_block } => expr_reads(sc, cond).and(
            stmts_effects(sc, then_block.stmts@),
        ).and(
            match else_block {
                Some(b) => stmts_effects(sc, b.stmts@),
                None => DirectView::none(),
            },
        ),
        StmtKind::Sigma { source, body, .. } => expr_reads(sc, source).and(
            stmts_effects(sc, body.stmts@),
        ),
        StmtKind::Flush { automaton } => sc.flush(automaton@),
        StmtKind::Break => DirectView::none(),
        StmtKind::Continue => DirectView::none(),
    }
}

/// What statements do by themselves.
pub open spec fn stmts_effects(sc: Scope, ss: Seq<Stmt>) -> DirectView
    decreases ss, 1nat,
{
    if ss.len() == 0 {
        DirectView::none()
    } else {
        stmts_effects(sc, ss.drop_last()).and(stmt_effects(sc, ss.last()))
    }
}

/// What each of the transitions does by itself, added to what is known.
pub open spec fn with_transitions(
    known: Map<CallableView, DirectView>,
    items: Seq<Item>,
    resolution: Resolution,
    automaton: Seq<char>,
    ts: Seq<TransitionDecl>,
) -> Map<CallableView, DirectView>
    decreases ts.len(),
{
    if ts.len() == 0 {
        known
    } else {
        with_transitions(known, items, resolution, automaton, ts.drop_last()).insert(
            CallableView::Transition { automaton, name: ts.last().name@ },
            stmts_effects(
                Scope { items, resolution, owner: Some(automaton) },
                ts.last().body.stmts@,
            ),
        )
    }
}

/// What each callable among the first items does by itself. Of two callables
/// with one identity the later counts.
pub open spec fn direct_effects(all: Seq<Item>, resolution: Resolution, items: Seq<Item>) -> Map<
    CallableView,
    DirectView,
>
    decreases items.len(),
{
    if items.len() == 0 {
        Map::empty()
    } else {
        let front = direct_effects(all, resolution, items.drop_last());
        let sc = Scope { items: all, resolution, owner: None };
        match items.last() {
            Item::Effect(d) => front.insert(
                CallableView::Effect(d.name@),
                stmts_effects(sc, d.body.stmts@),
            ),
            Item::Interrupt(d) => front.insert(
                CallableView::Interrupt(d.name@),
                stmts_effects(sc, d.body.stmts@),
            ),
            Item::Automaton(d) => with_transitions(
                front,
                all,
                resolution,
                d.name@,
                d.transitions@,
            ),
            _ => front,
        }
    }
}

/// What each callable of a program does by itself.
pub open spec fn program_effects(program: Program, resolution: Resolution) -> Map<
    CallableView,
    DirectView,
> {
    direct_effects(program.items@, resolution, program.items@)
}

// ─── Collection ────────────────────────────────────────────────────────────

/// What a callable does by itself.
pub struct DirectProfile {
    pub writes: KeySet<FieldRef>,
    pub reads: KeySet<FieldRef>,
    pub proc_calls: KeySet<CallableId>,
}

impl View for DirectProfile {
    type V = DirectView;

    open spec fn view(&self) -> DirectView {
        DirectView { writes: self.writes@, reads: self.reads@, proc_calls: self.proc_calls@ }
    }
}

impl DirectProfile {
    fn new() -> (r: DirectProfile)
        ensures
            r@ == DirectView::none(),
    {
        DirectProfile { writes: KeySet::new(), reads: KeySet::new(), proc_calls: KeySet::new() }
    }

    fn add_write(&mut self, automaton: &str, field: &str)
        ensures
            final(self)@ == old(self)@.and(DirectView::write(automaton@, field@)),
    {
        let _ = self.writes.insert(
            FieldRef { automaton: automaton.to_owned(), field: field.to_owned() },
        );
        proof {
            same_effects(self@, old(self)@.and(DirectView::write(automaton@, field@)));
        }
    }

    fn add_read(&mut self, automaton: &str, field: &str)
        ensures
            final(self)@ == old(self)@.and(DirectView::read(automaton@, field@)),
    {
        let _ = self.reads.insert(
            FieldRef { automaton: automaton.to_owned(), field: field.to_owned() },
        );
        proof {
            same_effects(self@, old(self)@.and(DirectView::read(automaton@, field@)));
        }
    }

    fn add_call(&mut self, id: CallableId)
        ensures
            final(self)@ == old(self)@.and(DirectView::call(id@)),
    {
        let _ = self.proc_calls.insert(id);
        proof {
            same_effects(self@, old(self)@.and(DirectView::call(id@)));
        }
    }
}

proof fn same_effects(a: DirectView, b: DirectView)
    requires
        a.writes =~= b.writes,
        a.reads =~= b.reads,
        a.proc_calls =~= b.proc_calls,
    ensures
        a == b,
{
}

proof fn and_none(a: DirectView)
    ensures
        a.and(DirectView::none()) == a,
        DirectView::none().and(a) == a,
{
    same_effects(a.and(DirectView::none()), a);
    same_effects(DirectView::none().and(a), a);
}

proof fn and_and(a: DirectView, b: DirectView, c: DirectView)
    ensures
        a.and(b).and(c) == a.and(b.and(c)),
{
    same_effects(a.and(b).and(c), a.and(b.and(c)));
}

/// What the walk over a body may consult.
#[derive(Clone, Copy)]
struct Walk<'a> {
    program: &'a Program,
    resolution: &'a Resolution,
    owner: Option<&'a str>,
}

impl<'a> View for Walk<'a> {
    type V = Scope;

    closed spec fn view(&self) -> Scope {
        Scope {
            items: self.program.items@,
            resolution: *self.resolution,
            owner: match self.owner {
                Some(o) => Some(o@),
                None => None,
            },
        }
    }
}

impl<'a> Walk<'a> {
    /// The automaton that `obj` in `obj.field` names.
    fn receiver(&self, obj: &'a Expr) -> (r: Option<&'a str>)
        ensures
            match r {
                Some(o) => self@.receiver(*obj) == Some(o@),
                None => self@.receiver(*obj) is None,
            },
    {
        match &obj.kind {
            ExprKind::Path(segs) => {
                if segs.len() != 1 {
                    return None;
                }
                let head = segs[0].as_str();
                if same(head, "Self") {
                    self.owner
                } else {
                    match self.resolution.symbols.lookup(head) {
                        Some(s) => if s.kind == SymbolKind::Automaton {
                            Some(head)
                        } else {
                            None
                        },
                        None => None,
                    }
                }
            },
            _ => None,
        }
    }

    /// Adds the reads in an expression.
    fn walk_expr_for_reads(&self, e: &'a Expr, out: &mut DirectProfile)
        ensures
            final(out)@ == old(out)@.and(expr_reads(self@, *e)),
        decreases e,
    {
        let ghost o = out@;
        proof {
            and_none(o);
        }
        match &e.kind {
            ExprKind::FieldAccess { obj, field } => {
                match self.receiver(obj) {
                    Some(owner) => {
                        out.add_read(owner, field.as_str());
                        proof {
                            and_and(
                                o,
                                DirectView::read(owner@, field@),
                                expr_reads(self@, **obj),
                            );
                        }
                    },
                    None => {
                        proof {
                            and_none(expr_reads(self@, **obj));
                        }
                    },
                }
                self.walk_expr_for_reads(obj, out);
            },
            ExprKind::Index { obj, index } => {
                self.walk_expr_for_reads(obj, out);
                self.walk_expr_for_reads(index, out);
                proof {
                    and_and(o, expr_reads(self@, **obj), expr_reads(self@, **index));
                }
            },
            ExprKind::Binary { lhs, rhs, .. } => {
                self.walk_expr_for_reads(lhs, out);
                self.walk_expr_for_reads(rhs, out);
                proof {
                    and_and(o, expr_reads(self@, **lhs), expr_reads(self@, **rhs));
                }
            },
            ExprKind::Unary { operand, .. } => self.walk_expr_for_reads(operand, out),
            ExprKind::Ref { operand, .. } => self.walk_expr_for_reads(operand, out),
            ExprKind::Paren(inner) => self.walk_expr_for_reads(inner, out),
            ExprKind::Cast { value, .. } => self.walk_expr_for_reads(value, out),
            ExprKind::Call { callee, args } => {
                self.walk_expr_for_reads(callee, out);
                self.walk_exprs_for_reads(args, out);
                proof {
                    and_and(o, expr_reads(self@, **callee), exprs_reads(self@, args@));
                }
            },
            ExprKind::MethodCall { obj, args, .. } => {
                self.walk_expr_for_reads(obj, out);
                self.walk_exprs_for_reads(args, out);
                proof {
                    and_and(o, expr_reads(self@, **obj), exprs_reads(self@, args@));
                }
            },
            ExprKind::Range { lo, hi, .. } => {
                self.walk_expr_for_reads(lo, out);
                self.walk_expr_for_reads(hi, out);
                proof {
                    and_and(o, expr_reads(self@, **lo), expr_reads(self@, **hi));
                }
            },
            ExprKind::Tuple(elems) => self.walk_exprs_for_reads(elems, out),
            ExprKind::Array(elems) => self.walk_exprs_for_reads(elems, out),
            ExprKind::ArrayRepeat { value, count } => {
                self.walk_expr_for_reads(value, out);
                self.walk_expr_for_reads(count, out);
                proof {
                    and_and(o, expr_reads(self@, **value), expr_reads(self@, **count));
                }
            },
            ExprKind::UncheckedLoad { ptr, .. } => self.walk_expr_for_reads(ptr, out),
            ExprKind::VolatileLoad { ptr, .. } => self.walk_expr_for_reads(ptr, out),
            ExprKind::UncheckedCast { value, .. } => self.walk_expr_for_reads(value, out),
            ExprKind::UncheckedOffset { ptr, n, .. } => {
                self.walk_expr_for_reads(ptr, out);
                self.walk_expr_for_reads(n, out);
                proof {
                    and_and(o, expr_reads(self@, **ptr), expr_reads(self@, **n));
                }
            },
            _ => {},
        }
    }

    /// Adds the reads in several expressions.
    fn walk_exprs_for_reads(&self, es: &'a Vec<Expr>, out: &mut DirectProfile)
        ensures
            final(out)@ == old(out)@.and(exprs_reads(self@, es@)),
        decreases es@,
    {
        let ghost o = out@;
        let mut i: usize = 0;
        proof {
            and_none(o);
            assert(es@.take(0) =~= Seq::<Expr>::empty());
        }
        while i < es.len()
            invariant
                i <= es@.len(),
                out@ == o.and(exprs_reads(self@, es@.take(i as int))),
            decreases es@.len() - i,
        {
            self.walk_expr_for_reads(&es[i], out);
            proof {
                assert(es@.take(i as int + 1).drop_last() =~= es@.take(i as int));
                assert(es@.take(i as int + 1).last() == es@[i as int]);
                and_and(
                    o,
                    exprs_reads(self@, es@.take(i as int)),
                    expr_reads(self@, es@[i as int]),
                );
            }
            i = i + 1;
        }
        assert(es@.take(i as int) =~= es@);
    }

    /// Adds what the assignments of a `#mutate` do.
    fn walk_assigns(&self, automaton: &str, assigns: &'a Vec<FieldAssign>, out: &mut DirectProfile)
        ensures
            final(out)@ == old(out)@.and(assigns_effects(self@, automaton@, assigns@)),
    {
        let ghost o = out@;
        let mut i: usize = 0;
        proof {
            and_none(o);
            assert(assigns@.take(0) =~= Seq::<FieldAssign>::empty());
        }
        while i < assigns.len()
            invariant
                i <= assigns@.len(),
                out@ == o.and(assigns_effects(self@, automaton@, assigns@.take(i as int))),
            decreases assigns@.len() - i,
        {
            let fa = &assigns[i];
            let ghost sofar = assigns_effects(self@, automaton@, assigns@.take(i as int));
            let ghost w = DirectView::write(automaton@, fa.field@);
            let ghost x = match &fa.index {
                Some(index) => expr_reads(self@, *index),
                None => DirectView::none(),
            };
            let ghost v = expr_reads(self@, fa.value);
            out.add_write(automaton, fa.field.as_str());
            proof {
                and_and(o, sofar, w);
                and_none(out@);
            }
            if let Some(index) = &fa.index {
                self.walk_expr_for_reads(index, out);
            }
            proof {
                and_and(o, sofar.and(w), x);
            }
            self.walk_expr_for_reads(&fa.value, out);
            proof {
                and_and(o, sofar.and(w).and(x), v);
                assert(assigns@.take(i as int + 1).drop_last() =~= assigns@.take(i as int));
                assert(assigns@.take(i as int + 1).last() == *fa);
            }
            i = i + 1;
        }
        assert(assigns@.take(i as int) =~= assigns@);
    }

    /// The last automaton declared under a name.
    fn find_automaton(&self, name: &str) -> (r: Option<&'a AutomatonDecl>)
        ensures
            match r {
                Some(d) => last_automaton(self@.items, name@) == Some(*d),
                None => last_automaton(self@.items, name@) is None,
            },
    {
        let ghost items = self.program.items@;
        let mut i: usize = self.program.items.len();
        assert(items.take(i as int) =~= items);
        while i > 0
            invariant
                i <= items.len(),
                items == self.program.items@,
                last_automaton(items, name@) == last_automaton(items.take(i as int), name@),
            decreases i,
        {
            assert(items.take(i as int).drop_last() =~= items.take(i - 1));
            i = i - 1;
            if let Item::Automaton(d) = &self.program.items[i] {
                if same(d.name.as_str(), name) {
                    return Some(d);
                }
            }
        }
        None
    }

    /// Adds a write to every field of an automaton.
    fn walk_flush(&self, automaton: &str, out: &mut DirectProfile)
        ensures
            final(out)@ == old(out)@.and(self@.flush(automaton@)),
    {
        let ghost o = out@;
        proof {
            and_none(o);
        }
        if let Some(d) = self.find_automaton(automaton) {
            let mut i: usize = 0;
            while i < d.fields.len()
                invariant
                    i <= d.fields@.len(),
                    out@ == o.and(field_writes(automaton@, *d, i as nat)),
                decreases d.fields@.len() - i,
            {
                out.add_write(automaton, d.fields[i].name.as_str());
                proof {
                    and_and(
                        o,
                        field_writes(automaton@, *d, i as nat),
                        DirectView::write(automaton@, d.fields@[i as int].name@),
                    );
                }
                i = i + 1;
            }
        }
    }

    /// Adds the callable that the `#>` call in a statement refers to.
    fn walk_callee(&self, s: &Stmt, name: &str, out: &mut DirectProfile)
        ensures
            final(out)@ == old(out)@.and(self@.callee(*s, name@)),
    {
        proof {
            and_none(out@);
        }
        match self.resolution.lookup(s.span) {
            Some(BindingRef::Proc { name: pn, ctx }) => {
                let id = match ctx {
                    CallContext::Identity => CallableId::Effect(pn.clone()),
                    CallContext::Transition => CallableId::Transition {
                        automaton: String::new(),
                        name: name.to_owned(),
                    },
                };
                out.add_call(id);
            },
            _ => {},
        }
    }

    /// Adds what a statement does.
    fn walk_stmt(&self, s: &'a Stmt, out: &mut DirectProfile)
        ensures
            final(out)@ == old(out)@.and(stmt_effects(self@, *s)),
        decreases s, 0nat,
    {
        let ghost o = out@;
        proof {
            and_none(o);
        }
        match &s.kind {
            StmtKind::Mutate { automaton, assigns } => self.walk_assigns(
                automaton.as_str(),
                assigns,
                out,
            ),
            StmtKind::MutateShort { automaton, field, op, value } => {
                let ghost w = DirectView::write(automaton@, field@);
                let ghost x = if *op == AssignOp::Eq {
                    DirectView::none()
                } else {
                    DirectView::read(automaton@, field@)
                };
                out.add_write(automaton.as_str(), field.as_str());
                proof {
                    and_none(out@);
                }
                if *op != AssignOp::Eq {
                    out.add_read(automaton.as_str(), field.as_str());
                }
                proof {
                    and_and(o, w, x);
                    and_and(o, w.and(x), expr_reads(self@, *value));
                }
                self.walk_expr_for_reads(value, out);
            },
            StmtKind::ProcCall { name, args } => {
                self.walk_callee(s, name.as_str(), out);
                self.walk_exprs_for_reads(args, out);
                proof {
                    and_and(o, self@.callee(*s, name@), exprs_reads(self@, args@));
                }
            },
            StmtKind::Let { value, .. } => self.walk_expr_for_reads(value, out),
            StmtKind::LetShort { value, .. } => self.walk_expr_for_reads(value, out),
            StmtKind::Expr(e) => self.walk_expr_for_reads(e, out),
            StmtKind::Return(Some(e)) => self.walk_expr_for_reads(e, out),
            StmtKind::Return(None) => {},
            StmtKind::UncheckedStore { ptr, value, .. } => {
                self.walk_expr_for_reads(ptr, out);
                self.walk_expr_for_reads(value, out);
                proof {
                    and_and(o, expr_reads(self@, *ptr), expr_reads(self@, *value));
                }
            },
            StmtKind::VolatileStore { ptr, value, .. } => {
                self.walk_expr_for_reads(ptr, out);
                self.walk_expr_for_reads(value, out);
                proof {
                    and_and(o, expr_reads(self@, *ptr), expr_reads(self@, *value));
                }
            },
            StmtKind::Assign { value, .. } => self.walk_expr_for_reads(value, out),
            StmtKind::If { cond, then_block, else_block } => {
                let ghost c = expr_reads(self@, *cond);
                let ghost t = stmts_effects(self@, then_block.stmts@);
                self.walk_expr_for_reads(cond, out);
                self.walk_stmts(&then_block.stmts, out);
                proof {
                    and_and(o, c, t);
                    and_none(out@);
                    and_none(c.and(t));
                }
                if let Some(b) = else_block {
                    self.walk_stmts(&b.stmts, out);
                    proof {
                        and_and(o, c.and(t), stmts_effects(self@, b.stmts@));
                    }
                }
            },
            StmtKind::Sigma { source, body, .. } => {
                self.walk_expr_for_reads(source, out);
                self.walk_stmts(&body.stmts, out);
                proof {
                    and_and(
                        o,
                        expr_reads(self@, *source),
                        stmts_effects(self@, body.stmts@),
                    );
                }
            },
            StmtKind::Flush { automaton } => self.walk_flush(automaton.as_str(), out),
            StmtKind::Break => {},
            StmtKind::Continue => {},
        }
    }

    /// Adds what statements do.
    fn walk_stmts(&self, ss: &'a Vec<Stmt>, out: &mut DirectProfile)
        ensures
            final(out)@ == old(out)@.and(stmts_effects(self@, ss@)),
        decreases ss@, 1nat,
    {
        let ghost o = out@;
        let mut i: usize = 0;
        proof {
            and_none(o);
            assert(ss@.take(0) =~= Seq::<Stmt>::empty());
        }
        while i < ss.len()
            invariant
                i <= ss@.len(),
                out@ == o.and(stmts_effects(self@, ss@.take(i as int))),
            decreases ss@.len() - i,
        {
            self.walk_stmt(&ss[i], out);
            proof {
                assert(ss@.take(i as int + 1).drop_last() =~= ss@.take(i as int));
                assert(ss@.take(i as int + 1).last() == ss@[i as int]);
                and_and(
                    o,
                    stmts_effects(self@, ss@.take(i as int)),
                    stmt_effects(self@, ss@[i as int]),
                );
            }
            i = i + 1;
        }
        assert(ss@.take(i as int) =~= ss@);
    }

    /// What a body does.
    fn walk_body(&self, b: &'a Block) -> (r: DirectProfile)
        ensures
            r@ == stmts_effects(self@, b.stmts@),
    {
        let mut out = DirectProfile::new();
        self.walk_stmts(&b.stmts, &mut out);
        proof {
            and_none(stmts_effects(self@, b.stmts@));
        }
        out
    }
}

/// What each callable of a program does by itself.
pub fn collect_direct_profiles(program: &Program, resolution: &Resolution) -> (r: KeyMap<
    CallableId,
    DirectProfile,
>)
    ensures
        r@ == program_effects(*program, *resolution),
{
    let ghost items = program.items@;
    let walk = Walk { program, resolution, owner: None };
    let mut map: KeyMap<CallableId, DirectProfile> = KeyMap::new();
    let mut i: usize = 0;
    assert(items.take(0) =~= Seq::<Item>::empty());
    while i < program.items.len()
        invariant
            i <= items.len(),
            items == program.items@,
            walk@ == (Scope { items, resolution: *resolution, owner: None }),
            map@ == direct_effects(items, *resolution, items.take(i as int)),
        decreases items.len() - i,
    {
        proof {
            assert(items.take(i as int + 1).drop_last() =~= items.take(i as int));
            assert(items.take(i as int + 1).last() == items[i as int]);
        }
        match &program.items[i] {
            Item::Effect(d) => {
                let profile = walk.walk_body(&d.body);
                map.insert(CallableId::Effect(d.name.clone()), profile);
            },
            Item::Interrupt(d) => {
                let profile = walk.walk_body(&d.body);
                map.insert(CallableId::Interrupt(d.name.clone()), profile);
            },
            Item::Automaton(d) => collect_transitions(program, resolution, d, &mut map),
            _ => {},
        }
        i = i + 1;
    }
    assert(items.take(i as int) =~= items);
    map
}

/// Adds what each transition of an automaton does.
fn collect_transitions(
    program: &Program,
    resolution: &Resolution,
    d: &AutomatonDecl,
    map: &mut KeyMap<CallableId, DirectProfile>,
)
    ensures
        final(map)@ == with_transitions(
            old(map)@,
            program.items@,
            *resolution,
            d.name@,
            d.transitions@,
        ),
{
    let walk = Walk { program, resolution, owner: Some(d.name.as_str()) };
    let ghost known = map@;
    let ghost ts = d.transitions@;
    let mut i: usize = 0;
    assert(ts.take(0) =~= Seq::<TransitionDecl>::empty());
    while i < d.transitions.len()
        invariant
            i <= ts.len(),
            ts == d.transitions@,
            walk@ == (Scope {
                items: program.items@,
                resolution: *resolution,
                owner: Some(d.name@),
            }),
            map@ == with_transitions(
                known,
                program.items@,
                *resolution,
                d.name@,
                ts.take(i as int),
            ),
        decreases ts.len() - i,
    {
        proof {
            assert(ts.take(i as int + 1).drop_last() =~= ts.take(i as int));
            assert(ts.take(i as int + 1).last() == ts[i as int]);
        }
        let t = &d.transitions[i];
        let profile = walk.walk_body(&t.body);
        map.insert(
            CallableId::Transition { automaton: d.name.clone(), name: t.name.clone() },
            profile,
        );
        i = i + 1;
    }
    assert(ts.take(i as int) =~= ts);
}

} // verus!
