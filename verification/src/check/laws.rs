//! The checks find what stands in a program, at whatever depth, and nothing
//! else.
use vstd::prelude::*;
use vstd::multiset::Multiset;
use vstd::seq_lib::lemma_multiset_commutative;

use crate::ast::{Expr, ExprKind, FieldAssign, Item, Program, Stmt, StmtKind, TransitionDecl};
use crate::check::{
    assigns_faults, assigns_self_call, call_fault, check_outcome, expr_faults, exprs_faults,
    faults_are_ordered, first_of, item_faults, items_faults, program_faults, self_call, self_calls,
    stmt_faults, stmt_self_call, stmt_write_faults, stmts_faults, stmts_self_call, totality_fault,
    totality_faults, transitions_faults, write_faults, CheckErrorView, Faults,
};
use crate::collections::views;
use crate::resolve::{BindingRef, Resolution, SymbolKind};
use crate::syntax::{
    assigned, expressions_of, expressions_of_a_row, expressions_of_a_statement, operands,
    operands_are_smaller, own_expressions, own_parts, own_parts_of_one, parts, parts_of,
    parts_unfold, statements, statements_of,
};

verus! {

// ─── Totality ──────────────────────────────────────────────────────────────

/// The expression is a call of the function of the given name.
pub open spec fn is_call_of(e: Expr, name: Seq<char>) -> bool {
    match e.kind {
        ExprKind::Call { callee, .. } => match callee.kind {
            ExprKind::Path(segs) => segs@.len() == 1 && segs@[0]@ == name,
            _ => false,
        },
        _ => false,
    }
}

/// Where the callee of a call stands.
pub open spec fn callee_place(e: Expr) -> nat {
    e.kind->Call_callee.span.start as nat
}

/// Where the first call of the function among the expressions stands, or that
/// there is none.
pub open spec fn is_first_call(es: Seq<Expr>, name: Seq<char>, r: Option<nat>) -> bool {
    match r {
        None => forall|i: int| 0 <= i < es.len() ==> !is_call_of(#[trigger] es[i], name),
        Some(at) => exists|i: int|
            0 <= i < es.len() && is_call_of(#[trigger] es[i], name) && callee_place(es[i]) == at
                && forall|j: int| 0 <= j < i ==> !is_call_of(#[trigger] es[j], name),
    }
}

proof fn first_call_of_both(
    a: Seq<Expr>,
    b: Seq<Expr>,
    name: Seq<char>,
    r: Option<nat>,
    t: Option<nat>,
)
    requires
        is_first_call(a, name, r),
        is_first_call(b, name, t),
    ensures
        is_first_call(a + b, name, first_of(r, t)),
{
    let c = a + b;
    assert forall|i: int| 0 <= i < a.len() implies c[i] == #[trigger] a[i] by {}
    assert forall|i: int| 0 <= i < b.len() implies c[a.len() + i] == #[trigger] b[i] by {}
    if r is Some {
        let i = choose|i: int|
            0 <= i < a.len() && is_call_of(#[trigger] a[i], name) && callee_place(a[i]) == r->0
                && forall|j: int| 0 <= j < i ==> !is_call_of(#[trigger] a[j], name);
        assert(is_call_of(c[i], name));
        assert forall|j: int| 0 <= j < i implies !is_call_of(#[trigger] c[j], name) by {
            assert(!is_call_of(a[j], name));
        }
    } else if t is Some {
        let i = choose|i: int|
            0 <= i < b.len() && is_call_of(#[trigger] b[i], name) && callee_place(b[i]) == t->0
                && forall|j: int| 0 <= j < i ==> !is_call_of(#[trigger] b[j], name);
        assert(is_call_of(c[a.len() + i], name));
        assert forall|j: int| 0 <= j < a.len() + i implies !is_call_of(#[trigger] c[j], name) by {
            if j < a.len() {
                assert(!is_call_of(a[j], name));
            } else {
                assert(!is_call_of(b[j - a.len()], name));
            }
        }
    } else {
        assert forall|j: int| 0 <= j < c.len() implies !is_call_of(#[trigger] c[j], name) by {
            if j < a.len() {
                assert(!is_call_of(a[j], name));
            } else {
                assert(!is_call_of(b[j - a.len()], name));
            }
        }
    }
}

proof fn self_calls_of_both(name: Seq<char>, a: Seq<Expr>, b: Seq<Expr>)
    ensures
        self_calls(name, a + b) == first_of(self_calls(name, a), self_calls(name, b)),
    decreases b.len(),
{
    if b.len() == 0 {
        assert(a + b =~= a);
    } else {
        self_calls_of_both(name, a, b.drop_last());
        assert((a + b).drop_last() =~= a + b.drop_last());
        assert((a + b).last() == b.last());
    }
}

proof fn self_calls_of_one(name: Seq<char>, e: Expr)
    ensures
        self_calls(name, seq![e]) == self_call(name, e),
{
    assert(seq![e].drop_last() =~= Seq::<Expr>::empty());
    assert(self_calls(name, seq![e].drop_last()) is None);
}

proof fn self_calls_of_two(name: Seq<char>, a: Expr, b: Expr)
    ensures
        self_calls(name, seq![a, b]) == first_of(self_call(name, a), self_call(name, b)),
{
    assert(seq![a, b] =~= seq![a] + seq![b]);
    self_calls_of_both(name, seq![a], seq![b]);
    self_calls_of_one(name, a);
    self_calls_of_one(name, b);
}

proof fn self_call_unfold(name: Seq<char>, e: Expr)
    ensures
        self_call(name, e) == if is_call_of(e, name) {
            Some(callee_place(e))
        } else {
            self_calls(name, operands(e))
        },
{
    match e.kind {
        ExprKind::FieldAccess { obj, .. } => self_calls_of_one(name, *obj),
        ExprKind::Index { obj, index } => self_calls_of_two(name, *obj, *index),
        ExprKind::Binary { lhs, rhs, .. } => self_calls_of_two(name, *lhs, *rhs),
        ExprKind::Unary { operand, .. } => self_calls_of_one(name, *operand),
        ExprKind::Ref { operand, .. } => self_calls_of_one(name, *operand),
        ExprKind::Paren(inner) => self_calls_of_one(name, *inner),
        ExprKind::Cast { value, .. } => self_calls_of_one(name, *value),
        ExprKind::Call { callee, args } => {
            self_calls_of_both(name, seq![*callee], args@);
            self_calls_of_one(name, *callee);
        },
        ExprKind::MethodCall { obj, args, .. } => {
            self_calls_of_both(name, seq![*obj], args@);
            self_calls_of_one(name, *obj);
        },
        ExprKind::Range { lo, hi, .. } => self_calls_of_two(name, *lo, *hi),
        ExprKind::ArrayRepeat { value, count } => self_calls_of_two(name, *value, *count),
        ExprKind::UncheckedLoad { ptr, .. } => self_calls_of_one(name, *ptr),
        ExprKind::VolatileLoad { ptr, .. } => self_calls_of_one(name, *ptr),
        ExprKind::UncheckedCast { value, .. } => self_calls_of_one(name, *value),
        ExprKind::UncheckedOffset { ptr, n, .. } => self_calls_of_two(name, *ptr, *n),
        _ => {},
    }
}

proof fn first_call_in_a_row(name: Seq<char>, es: Seq<Expr>)
    requires
        forall|i: int|
            0 <= i < es.len() ==> is_first_call(
                parts(#[trigger] es[i]),
                name,
                self_call(name, es[i]),
            ),
    ensures
        is_first_call(parts_of(es), name, self_calls(name, es)),
    decreases es.len(),
{
    if es.len() > 0 {
        let front = es.drop_last();
        assert forall|i: int| 0 <= i < front.len() implies is_first_call(
            parts(#[trigger] front[i]),
            name,
            self_call(name, front[i]),
        ) by {
            assert(front[i] == es[i]);
        }
        first_call_in_a_row(name, front);
        assert(es.last() == es[es.len() - 1]);
        first_call_of_both(
            parts_of(front),
            parts(es.last()),
            name,
            self_calls(name, front),
            self_call(name, es.last()),
        );
    }
}

/// The search of an expression finds the first call of the function among all
/// its parts, in whatever operand it stands, and none exactly where there is
/// none.
pub proof fn calls_are_found_in_every_operand(name: Seq<char>, e: Expr)
    ensures
        is_first_call(parts(e), name, self_call(name, e)),
    decreases e,
{
    assert forall|i: int| 0 <= i < operands(e).len() implies is_first_call(
        parts(#[trigger] operands(e)[i]),
        name,
        self_call(name, operands(e)[i]),
    ) by {
        operands_are_smaller(e, i);
        calls_are_found_in_every_operand(name, operands(e)[i]);
    }
    first_call_in_a_row(name, operands(e));
    self_call_unfold(name, e);
    parts_unfold(e);
    let own = if is_call_of(e, name) {
        Some(callee_place(e))
    } else {
        None
    };
    assert(is_first_call(seq![e], name, own)) by {
        assert(seq![e][0] == e);
        if is_call_of(e, name) {
            assert(is_call_of(seq![e][0], name));
        }
    }
    first_call_of_both(
        seq![e],
        parts_of(operands(e)),
        name,
        own,
        self_calls(name, operands(e)),
    );
}

proof fn calls_are_found_in_rows(name: Seq<char>, es: Seq<Expr>)
    ensures
        is_first_call(parts_of(es), name, self_calls(name, es)),
{
    assert forall|i: int| 0 <= i < es.len() implies is_first_call(
        parts(#[trigger] es[i]),
        name,
        self_call(name, es[i]),
    ) by {
        calls_are_found_in_every_operand(name, es[i]);
    }
    first_call_in_a_row(name, es);
}

proof fn assigned_self_calls(name: Seq<char>, assigns: Seq<FieldAssign>)
    ensures
        assigns_self_call(name, assigns) == self_calls(name, assigned(assigns)),
    decreases assigns.len(),
{
    if assigns.len() > 0 {
        let front = assigns.drop_last();
        let fa = assigns.last();
        assigned_self_calls(name, front);
        match fa.index {
            Some(index) => {
                self_calls_of_both(name, assigned(front), seq![index, fa.value]);
                self_calls_of_two(name, index, fa.value);
            },
            None => {
                self_calls_of_both(name, assigned(front), seq![fa.value]);
                self_calls_of_one(name, fa.value);
            },
        }
    }
}

proof fn own_self_call(name: Seq<char>, s: Stmt)
    ensures
        stmt_self_call(name, s) == first_of(
            self_calls(name, own_expressions(s)),
            match s.kind {
                StmtKind::Sigma { body, .. } => stmts_self_call(name, body.stmts@),
                StmtKind::If { then_block, else_block, .. } => first_of(
                    stmts_self_call(name, then_block.stmts@),
                    match else_block {
                        Some(b) => stmts_self_call(name, b.stmts@),
                        None => None,
                    },
                ),
                _ => None,
            },
        ),
{
    match s.kind {
        StmtKind::Let { value, .. } => self_calls_of_one(name, value),
        StmtKind::LetShort { value, .. } => self_calls_of_one(name, value),
        StmtKind::Expr(e) => self_calls_of_one(name, e),
        StmtKind::Return(Some(e)) => self_calls_of_one(name, e),
        StmtKind::Mutate { assigns, .. } => assigned_self_calls(name, assigns@),
        StmtKind::MutateShort { value, .. } => self_calls_of_one(name, value),
        StmtKind::UncheckedStore { ptr, value, .. } => self_calls_of_two(name, ptr, value),
        StmtKind::VolatileStore { ptr, value, .. } => self_calls_of_two(name, ptr, value),
        StmtKind::Sigma { source, .. } => self_calls_of_one(name, source),
        StmtKind::If { cond, .. } => self_calls_of_one(name, cond),
        StmtKind::Assign { value, .. } => self_calls_of_one(name, value),
        _ => {},
    }
}

proof fn calls_are_found_in_a_statement(name: Seq<char>, s: Stmt)
    ensures
        is_first_call(own_parts(statements(s)), name, stmt_self_call(name, s)),
    decreases s, 0nat,
{
    own_self_call(name, s);
    expressions_of_a_statement(s);
    let own = parts_of(own_expressions(s));
    let r = self_calls(name, own_expressions(s));
    calls_are_found_in_rows(name, own_expressions(s));
    match s.kind {
        StmtKind::Sigma { body, .. } => {
            calls_are_found_in_every_block(name, body.stmts@);
            first_call_of_both(
                own,
                expressions_of(body.stmts@),
                name,
                r,
                stmts_self_call(name, body.stmts@),
            );
        },
        StmtKind::If { then_block, else_block, .. } => {
            calls_are_found_in_every_block(name, then_block.stmts@);
            let yes = expressions_of(then_block.stmts@);
            let found = stmts_self_call(name, then_block.stmts@);
            match else_block {
                Some(b) => {
                    calls_are_found_in_every_block(name, b.stmts@);
                    let no = expressions_of(b.stmts@);
                    first_call_of_both(yes, no, name, found, stmts_self_call(name, b.stmts@));
                    first_call_of_both(
                        own,
                        yes + no,
                        name,
                        r,
                        first_of(found, stmts_self_call(name, b.stmts@)),
                    );
                },
                None => {
                    assert(yes + Seq::<Expr>::empty() =~= yes);
                    first_call_of_both(own, yes, name, r, found);
                },
            }
        },
        _ => {
            assert(own + Seq::<Expr>::empty() =~= own);
        },
    }
}

/// The search of a body finds the first call of the function in it, in whatever
/// block and operand it stands, and none exactly where there is none.
pub proof fn calls_are_found_in_every_block(name: Seq<char>, ss: Seq<Stmt>)
    ensures
        is_first_call(expressions_of(ss), name, stmts_self_call(name, ss)),
    decreases ss, 1nat,
{
    if ss.len() > 0 {
        calls_are_found_in_every_block(name, ss.drop_last());
        calls_are_found_in_a_statement(name, ss.last());
        expressions_of_a_row(ss);
        first_call_of_both(
            expressions_of(ss.drop_last()),
            own_parts(statements(ss.last())),
            name,
            stmts_self_call(name, ss.drop_last()),
            stmt_self_call(name, ss.last()),
        );
    }
}

/// The function is not marked `@partial`, and its body calls it, first at the
/// given place.
pub open spec fn recurses(i: Item, fn_name: Seq<char>, call_at: nat, decl_at: nat) -> bool {
    match i {
        Item::Fn(d) => {
            &&& !d.partial
            &&& d.name@ == fn_name
            &&& d.span.start as nat == decl_at
            &&& is_first_call(expressions_of(d.body.stmts@), fn_name, Some(call_at))
        },
        _ => false,
    }
}

proof fn first_call_is_one(es: Seq<Expr>, name: Seq<char>, r: Option<nat>, t: Option<nat>)
    requires
        is_first_call(es, name, r),
        is_first_call(es, name, t),
    ensures
        r == t,
{
    if r is Some && t is Some {
        let i = choose|i: int|
            0 <= i < es.len() && is_call_of(#[trigger] es[i], name) && callee_place(es[i]) == r->0
                && forall|j: int| 0 <= j < i ==> !is_call_of(#[trigger] es[j], name);
        let k = choose|i: int|
            0 <= i < es.len() && is_call_of(#[trigger] es[i], name) && callee_place(es[i]) == t->0
                && forall|j: int| 0 <= j < i ==> !is_call_of(#[trigger] es[j], name);
        assert(i == k);
    }
}

proof fn recursion_is_reported(items: Seq<Item>, fn_name: Seq<char>, call_at: nat, decl_at: nat)
    ensures
        totality_faults(items).contains(
            CheckErrorView::TotalityViolation { fn_name, call_at, decl_at },
        ) <==> exists|i: int|
            0 <= i < items.len() && recurses(#[trigger] items[i], fn_name, call_at, decl_at),
    decreases items.len(),
{
    let x = CheckErrorView::TotalityViolation { fn_name, call_at, decl_at };
    if items.len() > 0 {
        let front = items.drop_last();
        let n = items.len() - 1;
        assert(items[n] == items.last());
        recursion_is_reported(front, fn_name, call_at, decl_at);
        let last = match items.last() {
            Item::Fn(d) => totality_fault(d),
            _ => Seq::empty(),
        };
        if let Item::Fn(d) = items.last() {
            calls_are_found_in_every_block(d.name@, d.body.stmts@);
            let r = stmts_self_call(d.name@, d.body.stmts@);
            if recurses(items.last(), fn_name, call_at, decl_at) {
                first_call_is_one(expressions_of(d.body.stmts@), d.name@, r, Some(call_at));
                assert(last[0] == x);
            }
            if last.contains(x) {
                assert(recurses(items[n], fn_name, call_at, decl_at));
            }
        }
        contained_in_both(totality_faults(front), last, x);
        if exists|i: int|
            0 <= i < front.len() && recurses(#[trigger] front[i], fn_name, call_at, decl_at) {
            let i = choose|i: int|
                0 <= i < front.len() && recurses(#[trigger] front[i], fn_name, call_at, decl_at);
            assert(recurses(items[i], fn_name, call_at, decl_at));
        }
        if exists|i: int|
            0 <= i < items.len() && recurses(#[trigger] items[i], fn_name, call_at, decl_at) {
            let i = choose|i: int|
                0 <= i < items.len() && recurses(#[trigger] items[i], fn_name, call_at, decl_at);
            if i < n {
                assert(recurses(front[i], fn_name, call_at, decl_at));
            }
        }
    }
}

proof fn contained_in_both(a: Faults, b: Faults, x: CheckErrorView)
    ensures
        (a + b).contains(x) <==> a.contains(x) || b.contains(x),
{
    let c = a + b;
    if a.contains(x) {
        let i = choose|i: int| 0 <= i < a.len() && a[i] == x;
        assert(c[i] == x);
    }
    if b.contains(x) {
        let i = choose|i: int| 0 <= i < b.len() && b[i] == x;
        assert(c[a.len() + i] == x);
    }
    if c.contains(x) {
        let i = choose|i: int| 0 <= i < c.len() && c[i] == x;
        if i < a.len() {
            assert(a[i] == x);
        } else {
            assert(b[i - a.len()] == x);
        }
    }
}

proof fn statement_faults_are_no_violations(res: Resolution, ss: Seq<Stmt>, x: CheckErrorView)
    requires
        x is TotalityViolation,
    ensures
        !stmts_faults(res, ss).contains(x),
{
    boundary_faults_of_a_body(res, ss);
    let all = crossings(res, expressions_of(ss)) + imperatives(statements_of(ss));
    same_bag_same_members(stmts_faults(res, ss), all, x);
    contained_in_both(crossings(res, expressions_of(ss)), imperatives(statements_of(ss)), x);
    crossings_are_no_violations(res, expressions_of(ss), x);
    imperatives_are_no_violations(statements_of(ss), x);
}

proof fn same_bag_same_members(a: Faults, b: Faults, x: CheckErrorView)
    requires
        a.to_multiset() == b.to_multiset(),
    ensures
        a.contains(x) <==> b.contains(x),
{
    a.to_multiset_ensures();
    b.to_multiset_ensures();
    assert(a.contains(x) <==> a.to_multiset().count(x) > 0);
    assert(b.contains(x) <==> b.to_multiset().count(x) > 0);
}

proof fn crossings_are_no_violations(res: Resolution, es: Seq<Expr>, x: CheckErrorView)
    requires
        x is TotalityViolation,
    ensures
        !crossings(res, es).contains(x),
    decreases es.len(),
{
    if es.len() > 0 {
        crossings_are_no_violations(res, es.drop_last(), x);
        contained_in_both(crossings(res, es.drop_last()), crossing(res, es.last()), x);
    }
}

proof fn imperatives_are_no_violations(ss: Seq<Stmt>, x: CheckErrorView)
    requires
        x is TotalityViolation,
    ensures
        !imperatives(ss).contains(x),
    decreases ss.len(),
{
    if ss.len() > 0 {
        imperatives_are_no_violations(ss.drop_last(), x);
        contained_in_both(imperatives(ss.drop_last()), imperative_construct(ss.last()), x);
    }
}

proof fn write_faults_are_no_violations(
    ss: Seq<Stmt>,
    enclosing: Seq<char>,
    mutates: Seq<String>,
    cannot_mutate: Seq<String>,
    x: CheckErrorView,
)
    requires
        x is TotalityViolation,
    ensures
        !unauthorised(ss, enclosing, mutates, cannot_mutate).contains(x),
    decreases ss.len(),
{
    if ss.len() > 0 {
        write_faults_are_no_violations(ss.drop_last(), enclosing, mutates, cannot_mutate, x);
        contained_in_both(
            unauthorised(ss.drop_last(), enclosing, mutates, cannot_mutate),
            unauthorised_write(ss.last(), enclosing, mutates, cannot_mutate),
            x,
        );
    }
}

proof fn transition_faults_are_no_violations(
    owner: String,
    ts: Seq<TransitionDecl>,
    x: CheckErrorView,
)
    requires
        x is TotalityViolation,
    ensures
        !transitions_faults(owner, ts).contains(x),
    decreases ts.len(),
{
    if ts.len() > 0 {
        transition_faults_are_no_violations(owner, ts.drop_last(), x);
        let t = ts.last();
        let enclosing = "#transition "@ + t.name@ + " in #automaton "@ + owner@;
        writes_are_checked_in_every_block(t.body.stmts@, enclosing, seq![owner], Seq::empty());
        write_faults_are_no_violations(
            statements_of(t.body.stmts@),
            enclosing,
            seq![owner],
            Seq::empty(),
            x,
        );
        contained_in_both(
            transitions_faults(owner, ts.drop_last()),
            write_faults(t.body.stmts@, enclosing, seq![owner], Seq::empty()),
            x,
        );
    }
}

proof fn item_faults_are_no_violations(res: Resolution, items: Seq<Item>, x: CheckErrorView)
    requires
        x is TotalityViolation,
    ensures
        !items_faults(res, items).contains(x),
    decreases items.len(),
{
    if items.len() > 0 {
        item_faults_are_no_violations(res, items.drop_last(), x);
        contained_in_both(items_faults(res, items.drop_last()), item_faults(res, items.last()), x);
        match items.last() {
            Item::Fn(d) => statement_faults_are_no_violations(res, d.body.stmts@, x),
            Item::Effect(d) => {
                let enclosing = "#effect "@ + d.name@;
                writes_are_checked_in_every_block(
                    d.body.stmts@,
                    enclosing,
                    d.mutates@,
                    d.cannot_mutate@,
                );
                write_faults_are_no_violations(
                    statements_of(d.body.stmts@),
                    enclosing,
                    d.mutates@,
                    d.cannot_mutate@,
                    x,
                );
            },
            Item::Interrupt(d) => {
                let enclosing = "#interrupt "@ + d.name@;
                writes_are_checked_in_every_block(
                    d.body.stmts@,
                    enclosing,
                    d.mutates@,
                    Seq::empty(),
                );
                write_faults_are_no_violations(
                    statements_of(d.body.stmts@),
                    enclosing,
                    d.mutates@,
                    Seq::empty(),
                    x,
                );
            },
            Item::Automaton(d) => transition_faults_are_no_violations(d.name, d.transitions@, x),
            _ => {},
        }
    }
}

/// A violation of totality is reported exactly for the functions that are not
/// `@partial` and whose body calls them, in whatever block and operand, and at
/// the first such call.
pub proof fn exactly_the_recursive_functions_are_reported(
    program: Program,
    res: Resolution,
    fn_name: Seq<char>,
    call_at: nat,
    decl_at: nat,
)
    ensures
        (check_outcome(program, res) is Err && check_outcome(program, res)->Err_0.contains(
            CheckErrorView::TotalityViolation { fn_name, call_at, decl_at },
        )) <==> exists|i: int|
            0 <= i < program.items@.len() && recurses(
                #[trigger] program.items@[i],
                fn_name,
                call_at,
                decl_at,
            ),
{
    let x = CheckErrorView::TotalityViolation { fn_name, call_at, decl_at };
    recursion_is_reported(program.items@, fn_name, call_at, decl_at);
    item_faults_are_no_violations(res, program.items@, x);
    contained_in_both(items_faults(res, program.items@), totality_faults(program.items@), x);
    faults_are_ordered(program, res);
    if check_outcome(program, res) is Err {
        same_bag_same_members(
            check_outcome(program, res)->Err_0,
            program_faults(program, res),
            x,
        );
    }
}

// ─── The boundary ──────────────────────────────────────────────────────────

/// An imperative construct at the place of an expression.
pub open spec fn found_at(construct: Seq<char>, e: Expr) -> Faults {
    seq![CheckErrorView::ImperativeInFunctional { construct, at: e.span.start as nat }]
}

/// What the expression itself, its operands aside, does that only the
/// imperative layer may.
pub open spec fn crossing(res: Resolution, e: Expr) -> Faults {
    match (e.kind, res.binding(e.span)) {
        (ExprKind::UncheckedLoad { .. }, _) => found_at("#unchecked_load"@, e),
        (ExprKind::VolatileLoad { .. }, _) => found_at("#volatile_load"@, e),
        (ExprKind::UncheckedCast { .. }, _) => found_at("#unchecked_cast"@, e),
        (ExprKind::UncheckedOffset { .. }, _) => found_at("#unchecked_offset"@, e),
        (ExprKind::StateRead(_), _) => found_at("Auto@state"@, e),
        (ExprKind::FieldAccess { .. }, Some(BindingRef::AutomatonField { .. })) => found_at(
            "automaton-field read"@,
            e,
        ),
        (ExprKind::Path(_), Some(BindingRef::TopLevel(sym))) => if sym.kind
            == SymbolKind::Automaton {
            found_at("bare automaton reference"@, e)
        } else {
            Seq::empty()
        },
        (ExprKind::Call { callee, .. }, _) => match res.binding(callee.span) {
            Some(BindingRef::TopLevel(sym)) => if sym.kind == SymbolKind::Effect || sym.kind
                == SymbolKind::Interrupt {
                seq![
                    CheckErrorView::CrossBoundaryCall {
                        callee_name: sym.name@,
                        callee_kind: if sym.kind == SymbolKind::Effect {
                            "#effect"@
                        } else {
                            "#interrupt"@
                        },
                        at: e.span.start as nat,
                    },
                ]
            } else {
                Seq::empty()
            },
            _ => Seq::empty(),
        },
        _ => Seq::empty(),
    }
}

/// What expressions in a row do, each by itself, that only the imperative layer
/// may.
pub open spec fn crossings(res: Resolution, es: Seq<Expr>) -> Faults
    decreases es.len(),
{
    if es.len() == 0 {
        Seq::empty()
    } else {
        crossings(res, es.drop_last()) + crossing(res, es.last())
    }
}

/// The statement is one that only the imperative layer may hold.
pub open spec fn imperative_construct(s: Stmt) -> Faults {
    let construct = match s.kind {
        StmtKind::Mutate { .. } => Some("#mutate"@),
        StmtKind::MutateShort { .. } => Some("Auto.field <op>= …"@),
        StmtKind::ProcCall { .. } => Some("#> proc()"@),
        StmtKind::UncheckedStore { .. } => Some("#unchecked_store"@),
        StmtKind::VolatileStore { .. } => Some("#volatile_store"@),
        StmtKind::Flush { .. } => Some("#flush"@),
        _ => None,
    };
    match construct {
        Some(construct) => seq![
            CheckErrorView::ImperativeInFunctional { construct, at: s.span.start as nat },
        ],
        None => Seq::empty(),
    }
}

/// The statements in a row that only the imperative layer may hold.
pub open spec fn imperatives(ss: Seq<Stmt>) -> Faults
    decreases ss.len(),
{
    if ss.len() == 0 {
        Seq::empty()
    } else {
        imperatives(ss.drop_last()) + imperative_construct(ss.last())
    }
}

proof fn crossings_of_both(res: Resolution, a: Seq<Expr>, b: Seq<Expr>)
    ensures
        crossings(res, a + b) =~= crossings(res, a) + crossings(res, b),
    decreases b.len(),
{
    if b.len() == 0 {
        assert(a + b =~= a);
    } else {
        crossings_of_both(res, a, b.drop_last());
        assert((a + b).drop_last() =~= a + b.drop_last());
        assert((a + b).last() == b.last());
    }
}

proof fn crossings_of_one(res: Resolution, e: Expr)
    ensures
        crossings(res, seq![e]) =~= crossing(res, e),
{
    assert(seq![e].drop_last() =~= Seq::<Expr>::empty());
    assert(crossings(res, seq![e].drop_last()) =~= Seq::empty());
}

proof fn imperatives_of_both(a: Seq<Stmt>, b: Seq<Stmt>)
    ensures
        imperatives(a + b) =~= imperatives(a) + imperatives(b),
    decreases b.len(),
{
    if b.len() == 0 {
        assert(a + b =~= a);
    } else {
        imperatives_of_both(a, b.drop_last());
        assert((a + b).drop_last() =~= a + b.drop_last());
        assert((a + b).last() == b.last());
    }
}

proof fn imperatives_of_one(s: Stmt)
    ensures
        imperatives(seq![s]) =~= imperative_construct(s),
{
    assert(seq![s].drop_last() =~= Seq::<Stmt>::empty());
    assert(imperatives(seq![s].drop_last()) =~= Seq::empty());
}

proof fn listed_faults_of_both(res: Resolution, a: Seq<Expr>, b: Seq<Expr>)
    ensures
        exprs_faults(res, a + b) =~= exprs_faults(res, a) + exprs_faults(res, b),
    decreases b.len(),
{
    if b.len() == 0 {
        assert(a + b =~= a);
    } else {
        listed_faults_of_both(res, a, b.drop_last());
        assert((a + b).drop_last() =~= a + b.drop_last());
        assert((a + b).last() == b.last());
    }
}

proof fn listed_faults_of_one(res: Resolution, e: Expr)
    ensures
        exprs_faults(res, seq![e]) =~= expr_faults(res, e),
{
    assert(seq![e].drop_last() =~= Seq::<Expr>::empty());
    assert(exprs_faults(res, seq![e].drop_last()) =~= Seq::empty());
}

proof fn listed_faults_of_two(res: Resolution, a: Expr, b: Expr)
    ensures
        exprs_faults(res, seq![a, b]) =~= expr_faults(res, a) + expr_faults(res, b),
{
    assert(seq![a, b] =~= seq![a] + seq![b]);
    listed_faults_of_both(res, seq![a], seq![b]);
    listed_faults_of_one(res, a);
    listed_faults_of_one(res, b);
}

proof fn faults_unfold(res: Resolution, e: Expr)
    ensures
        expr_faults(res, e).to_multiset() =~= crossing(res, e).to_multiset().add(
            exprs_faults(res, operands(e)).to_multiset(),
        ),
{
    let own = crossing(res, e);
    let rest = exprs_faults(res, operands(e));
    lemma_multiset_commutative(own, rest);
    lemma_multiset_commutative(rest, own);
    match e.kind {
        ExprKind::FieldAccess { obj, .. } => {
            listed_faults_of_one(res, *obj);
            assert(expr_faults(res, e) =~= own + rest);
        },
        ExprKind::Index { obj, index } => {
            listed_faults_of_two(res, *obj, *index);
            assert(expr_faults(res, e) =~= own + rest);
        },
        ExprKind::Binary { lhs, rhs, .. } => {
            listed_faults_of_two(res, *lhs, *rhs);
            assert(expr_faults(res, e) =~= own + rest);
        },
        ExprKind::Unary { operand, .. } => {
            listed_faults_of_one(res, *operand);
            assert(expr_faults(res, e) =~= own + rest);
        },
        ExprKind::Ref { operand, .. } => {
            listed_faults_of_one(res, *operand);
            assert(expr_faults(res, e) =~= own + rest);
        },
        ExprKind::Paren(inner) => {
            listed_faults_of_one(res, *inner);
            assert(expr_faults(res, e) =~= own + rest);
        },
        ExprKind::Cast { value, .. } => {
            listed_faults_of_one(res, *value);
            assert(expr_faults(res, e) =~= own + rest);
        },
        ExprKind::Call { callee, args } => {
            listed_faults_of_both(res, seq![*callee], args@);
            listed_faults_of_one(res, *callee);
            assert(call_fault(res, *callee, e.span.start) =~= own);
            assert(expr_faults(res, e) =~= rest + own);
        },
        ExprKind::MethodCall { obj, args, .. } => {
            listed_faults_of_both(res, seq![*obj], args@);
            listed_faults_of_one(res, *obj);
            assert(expr_faults(res, e) =~= own + rest);
        },
        ExprKind::Range { lo, hi, .. } => {
            listed_faults_of_two(res, *lo, *hi);
            assert(expr_faults(res, e) =~= own + rest);
        },
        ExprKind::ArrayRepeat { value, count } => {
            listed_faults_of_two(res, *value, *count);
            assert(expr_faults(res, e) =~= own + rest);
        },
        ExprKind::UncheckedLoad { ptr, .. } => {
            listed_faults_of_one(res, *ptr);
            assert(expr_faults(res, e) =~= own + rest);
        },
        ExprKind::VolatileLoad { ptr, .. } => {
            listed_faults_of_one(res, *ptr);
            assert(expr_faults(res, e) =~= own + rest);
        },
        ExprKind::UncheckedCast { value, .. } => {
            listed_faults_of_one(res, *value);
            assert(expr_faults(res, e) =~= own + rest);
        },
        ExprKind::UncheckedOffset { ptr, n, .. } => {
            listed_faults_of_two(res, *ptr, *n);
            assert(expr_faults(res, e) =~= own + rest);
        },
        _ => {
            assert(expr_faults(res, e) =~= own + rest);
        },
    }
}

proof fn faults_of_a_row(res: Resolution, es: Seq<Expr>)
    requires
        forall|i: int|
            0 <= i < es.len() ==> expr_faults(res, #[trigger] es[i]).to_multiset() == crossings(
                res,
                parts(es[i]),
            ).to_multiset(),
    ensures
        exprs_faults(res, es).to_multiset() == crossings(res, parts_of(es)).to_multiset(),
    decreases es.len(),
{
    if es.len() > 0 {
        let front = es.drop_last();
        assert forall|i: int| 0 <= i < front.len() implies expr_faults(
            res,
            #[trigger] front[i],
        ).to_multiset() == crossings(res, parts(front[i])).to_multiset() by {
            assert(front[i] == es[i]);
        }
        faults_of_a_row(res, front);
        assert(es.last() == es[es.len() - 1]);
        crossings_of_both(res, parts_of(front), parts(es.last()));
        lemma_multiset_commutative(exprs_faults(res, front), expr_faults(res, es.last()));
        lemma_multiset_commutative(
            crossings(res, parts_of(front)),
            crossings(res, parts(es.last())),
        );
    }
}

/// The faults of an expression are those of its parts, in whatever operand they
/// stand, each once.
pub proof fn boundary_faults_of_an_expression(res: Resolution, e: Expr)
    ensures
        expr_faults(res, e).to_multiset() == crossings(res, parts(e)).to_multiset(),
    decreases e,
{
    assert forall|i: int| 0 <= i < operands(e).len() implies expr_faults(
        res,
        #[trigger] operands(e)[i],
    ).to_multiset() == crossings(res, parts(operands(e)[i])).to_multiset() by {
        operands_are_smaller(e, i);
        boundary_faults_of_an_expression(res, operands(e)[i]);
    }
    faults_of_a_row(res, operands(e));
    faults_unfold(res, e);
    parts_unfold(e);
    crossings_of_both(res, seq![e], parts_of(operands(e)));
    crossings_of_one(res, e);
    lemma_multiset_commutative(crossing(res, e), crossings(res, parts_of(operands(e))));
}

proof fn faults_of_rows(res: Resolution, es: Seq<Expr>)
    ensures
        exprs_faults(res, es).to_multiset() == crossings(res, parts_of(es)).to_multiset(),
{
    assert forall|i: int| 0 <= i < es.len() implies expr_faults(
        res,
        #[trigger] es[i],
    ).to_multiset() == crossings(res, parts(es[i])).to_multiset() by {
        boundary_faults_of_an_expression(res, es[i]);
    }
    faults_of_a_row(res, es);
}

proof fn assigned_faults(res: Resolution, assigns: Seq<FieldAssign>)
    ensures
        assigns_faults(res, assigns) =~= exprs_faults(res, assigned(assigns)),
    decreases assigns.len(),
{
    if assigns.len() > 0 {
        let front = assigns.drop_last();
        let fa = assigns.last();
        assigned_faults(res, front);
        match fa.index {
            Some(index) => {
                listed_faults_of_both(res, assigned(front), seq![index, fa.value]);
                listed_faults_of_two(res, index, fa.value);
            },
            None => {
                listed_faults_of_both(res, assigned(front), seq![fa.value]);
                listed_faults_of_one(res, fa.value);
            },
        }
    }
}

/// The faults of a statement, its blocks included.
spec fn statement_faults(res: Resolution, all: Seq<Stmt>) -> Multiset<CheckErrorView> {
    crossings(res, own_parts(all)).to_multiset().add(imperatives(all).to_multiset())
}

proof fn statement_faults_of_both(res: Resolution, a: Seq<Stmt>, b: Seq<Stmt>)
    ensures
        statement_faults(res, a + b) =~= statement_faults(res, a).add(statement_faults(res, b)),
{
    crate::syntax::own_parts_of_both(a, b);
    crossings_of_both(res, own_parts(a), own_parts(b));
    imperatives_of_both(a, b);
    lemma_multiset_commutative(crossings(res, own_parts(a)), crossings(res, own_parts(b)));
    lemma_multiset_commutative(imperatives(a), imperatives(b));
}

proof fn own_faults(res: Resolution, s: Stmt)
    ensures
        stmt_faults(res, s) =~= imperative_construct(s) + exprs_faults(res, own_expressions(s)) + (
        match s.kind {
            StmtKind::Sigma { body, .. } => stmts_faults(res, body.stmts@),
            StmtKind::If { then_block, else_block, .. } => stmts_faults(res, then_block.stmts@) + (
            match else_block {
                Some(b) => stmts_faults(res, b.stmts@),
                None => Seq::empty(),
            }),
            _ => Seq::empty(),
        }),
{
    match s.kind {
        StmtKind::Let { value, .. } => listed_faults_of_one(res, value),
        StmtKind::LetShort { value, .. } => listed_faults_of_one(res, value),
        StmtKind::Expr(e) => listed_faults_of_one(res, e),
        StmtKind::Return(Some(e)) => listed_faults_of_one(res, e),
        StmtKind::Mutate { assigns, .. } => assigned_faults(res, assigns@),
        StmtKind::MutateShort { value, .. } => listed_faults_of_one(res, value),
        StmtKind::UncheckedStore { ptr, value, .. } => listed_faults_of_two(res, ptr, value),
        StmtKind::VolatileStore { ptr, value, .. } => listed_faults_of_two(res, ptr, value),
        StmtKind::Sigma { source, .. } => listed_faults_of_one(res, source),
        StmtKind::If { cond, .. } => listed_faults_of_one(res, cond),
        StmtKind::Assign { value, .. } => listed_faults_of_one(res, value),
        _ => {},
    }
}

proof fn faults_of_a_statement(res: Resolution, s: Stmt)
    ensures
        stmt_faults(res, s).to_multiset() =~= statement_faults(res, statements(s)),
    decreases s, 0nat,
{
    own_faults(res, s);
    faults_of_rows(res, own_expressions(s));
    own_parts_of_one(s);
    imperatives_of_one(s);
    let listed = exprs_faults(res, own_expressions(s));
    let own = imperative_construct(s) + listed;
    lemma_multiset_commutative(imperative_construct(s), listed);
    assert(own.to_multiset() =~= statement_faults(res, seq![s]));
    match s.kind {
        StmtKind::Sigma { body, .. } => {
            faults_of_a_body(res, body.stmts@);
            statement_faults_of_both(res, seq![s], statements_of(body.stmts@));
            lemma_multiset_commutative(own, stmts_faults(res, body.stmts@));
        },
        StmtKind::If { then_block, else_block, .. } => {
            faults_of_a_body(res, then_block.stmts@);
            let yes = stmts_faults(res, then_block.stmts@);
            match else_block {
                Some(b) => {
                    faults_of_a_body(res, b.stmts@);
                    let no = stmts_faults(res, b.stmts@);
                    lemma_multiset_commutative(yes, no);
                    lemma_multiset_commutative(own, yes + no);
                    statement_faults_of_both(
                        res,
                        statements_of(then_block.stmts@),
                        statements_of(b.stmts@),
                    );
                    statement_faults_of_both(
                        res,
                        seq![s],
                        statements_of(then_block.stmts@) + statements_of(b.stmts@),
                    );
                },
                None => {
                    assert(yes + Seq::<CheckErrorView>::empty() =~= yes);
                    lemma_multiset_commutative(own, yes);
                    statement_faults_of_both(res, seq![s], statements_of(then_block.stmts@));
                },
            }
        },
        _ => {
            assert(own + Seq::<CheckErrorView>::empty() =~= own);
            assert(statements(s) =~= seq![s]);
        },
    }
}

proof fn faults_of_a_body(res: Resolution, ss: Seq<Stmt>)
    ensures
        stmts_faults(res, ss).to_multiset() =~= statement_faults(res, statements_of(ss)),
    decreases ss, 1nat,
{
    if ss.len() > 0 {
        faults_of_a_body(res, ss.drop_last());
        faults_of_a_statement(res, ss.last());
        lemma_multiset_commutative(
            stmts_faults(res, ss.drop_last()),
            stmt_faults(res, ss.last()),
        );
        statement_faults_of_both(res, statements_of(ss.drop_last()), statements(ss.last()));
    } else {
        let none = Seq::<CheckErrorView>::empty();
        lemma_multiset_commutative(none, none);
        assert(none + none =~= none);
    }
}

/// The faults of an `@fn` body are the imperative statements and expressions in
/// it, in whatever block and operand they stand, each once.
pub proof fn boundary_faults_of_a_body(res: Resolution, ss: Seq<Stmt>)
    ensures
        stmts_faults(res, ss).to_multiset() == (crossings(res, expressions_of(ss)) + imperatives(
            statements_of(ss),
        )).to_multiset(),
{
    faults_of_a_body(res, ss);
    lemma_multiset_commutative(
        crossings(res, expressions_of(ss)),
        imperatives(statements_of(ss)),
    );
}

// ─── Authority ─────────────────────────────────────────────────────────────

/// The name stands among the names.
pub open spec fn among(names: Seq<String>, name: Seq<char>) -> bool {
    exists|i: int| 0 <= i < names.len() && (#[trigger] names[i])@ == name
}

/// The automaton that the statement itself, its blocks aside, assigns to.
pub open spec fn target(s: Stmt) -> Option<Seq<char>> {
    match s.kind {
        StmtKind::Mutate { automaton, .. } => Some(automaton@),
        StmtKind::MutateShort { automaton, .. } => Some(automaton@),
        _ => None,
    }
}

/// The fault of a statement that assigns to an automaton against the lists.
pub open spec fn unauthorised_write(
    s: Stmt,
    enclosing: Seq<char>,
    mutates: Seq<String>,
    cannot_mutate: Seq<String>,
) -> Faults {
    let at = s.span.start as nat;
    match target(s) {
        None => Seq::empty(),
        Some(automaton) => if among(cannot_mutate, automaton) {
            seq![CheckErrorView::WriteToCannotMutate { automaton, enclosing, at }]
        } else if among(mutates, automaton) {
            Seq::empty()
        } else {
            seq![CheckErrorView::WriteToUndeclaredAutomaton { automaton, enclosing, at }]
        },
    }
}

/// The faults of statements in a row that assign against the lists.
pub open spec fn unauthorised(
    ss: Seq<Stmt>,
    enclosing: Seq<char>,
    mutates: Seq<String>,
    cannot_mutate: Seq<String>,
) -> Faults
    decreases ss.len(),
{
    if ss.len() == 0 {
        Seq::empty()
    } else {
        unauthorised(ss.drop_last(), enclosing, mutates, cannot_mutate) + unauthorised_write(
            ss.last(),
            enclosing,
            mutates,
            cannot_mutate,
        )
    }
}

proof fn unauthorised_of_both(
    a: Seq<Stmt>,
    b: Seq<Stmt>,
    enclosing: Seq<char>,
    mutates: Seq<String>,
    cannot_mutate: Seq<String>,
)
    ensures
        unauthorised(a + b, enclosing, mutates, cannot_mutate) =~= unauthorised(
            a,
            enclosing,
            mutates,
            cannot_mutate,
        ) + unauthorised(b, enclosing, mutates, cannot_mutate),
    decreases b.len(),
{
    if b.len() == 0 {
        assert(a + b =~= a);
    } else {
        unauthorised_of_both(a, b.drop_last(), enclosing, mutates, cannot_mutate);
        assert((a + b).drop_last() =~= a + b.drop_last());
        assert((a + b).last() == b.last());
    }
}

proof fn among_is_listed(names: Seq<String>, name: Seq<char>)
    ensures
        among(names, name) <==> crate::effect::profile::listed(names, name),
{
    let vs = views(names);
    if among(names, name) {
        let i = choose|i: int| 0 <= i < names.len() && (#[trigger] names[i])@ == name;
        assert(vs[i] == name);
    }
    if vs.contains(name) {
        let i = choose|i: int| 0 <= i < vs.len() && vs[i] == name;
        assert(names[i]@ == name);
    }
}

proof fn writes_are_checked_in_a_statement(
    s: Stmt,
    enclosing: Seq<char>,
    mutates: Seq<String>,
    cannot_mutate: Seq<String>,
)
    ensures
        stmt_write_faults(s, enclosing, mutates, cannot_mutate) =~= unauthorised(
            statements(s),
            enclosing,
            mutates,
            cannot_mutate,
        ),
    decreases s, 0nat,
{
    let own = seq![s];
    assert(own.drop_last() =~= Seq::<Stmt>::empty());
    assert(unauthorised(own.drop_last(), enclosing, mutates, cannot_mutate) =~= Seq::empty());
    assert(unauthorised(own, enclosing, mutates, cannot_mutate) =~= unauthorised_write(
        s,
        enclosing,
        mutates,
        cannot_mutate,
    ));
    match s.kind {
        StmtKind::Mutate { automaton, .. } => {
            among_is_listed(mutates, automaton@);
            among_is_listed(cannot_mutate, automaton@);
            assert(statements(s) =~= own);
        },
        StmtKind::MutateShort { automaton, .. } => {
            among_is_listed(mutates, automaton@);
            among_is_listed(cannot_mutate, automaton@);
            assert(statements(s) =~= own);
        },
        StmtKind::Sigma { body, .. } => {
            writes_are_checked_in_every_block(body.stmts@, enclosing, mutates, cannot_mutate);
            unauthorised_of_both(
                own,
                statements_of(body.stmts@),
                enclosing,
                mutates,
                cannot_mutate,
            );
        },
        StmtKind::If { then_block, else_block, .. } => {
            let yes = statements_of(then_block.stmts@);
            writes_are_checked_in_every_block(
                then_block.stmts@,
                enclosing,
                mutates,
                cannot_mutate,
            );
            match else_block {
                Some(b) => {
                    let no = statements_of(b.stmts@);
                    writes_are_checked_in_every_block(
                        b.stmts@,
                        enclosing,
                        mutates,
                        cannot_mutate,
                    );
                    unauthorised_of_both(yes, no, enclosing, mutates, cannot_mutate);
                    unauthorised_of_both(own, yes + no, enclosing, mutates, cannot_mutate);
                },
                None => unauthorised_of_both(own, yes, enclosing, mutates, cannot_mutate),
            }
        },
        _ => {
            assert(statements(s) =~= own);
        },
    }
}

/// Every assignment to an automaton in a body, in whatever block it stands, is
/// held against the lists of the callable: a forbidden automaton first, then
/// one that is not listed.
pub proof fn writes_are_checked_in_every_block(
    ss: Seq<Stmt>,
    enclosing: Seq<char>,
    mutates: Seq<String>,
    cannot_mutate: Seq<String>,
)
    ensures
        write_faults(ss, enclosing, mutates, cannot_mutate) =~= unauthorised(
            statements_of(ss),
            enclosing,
            mutates,
            cannot_mutate,
        ),
    decreases ss, 1nat,
{
    if ss.len() > 0 {
        writes_are_checked_in_every_block(ss.drop_last(), enclosing, mutates, cannot_mutate);
        writes_are_checked_in_a_statement(ss.last(), enclosing, mutates, cannot_mutate);
        unauthorised_of_both(
            statements_of(ss.drop_last()),
            statements(ss.last()),
            enclosing,
            mutates,
            cannot_mutate,
        );
    }
}

/// The fault stands in an item: an imperative construct in an `@fn`, or an
/// assignment that an effect, an interrupt or a transition may not make. A
/// transition may assign to its own automaton only.
pub open spec fn stands_in(res: Resolution, item: Item, x: CheckErrorView) -> bool {
    match item {
        Item::Fn(d) => crossings(res, expressions_of(d.body.stmts@)).contains(x) || imperatives(
            statements_of(d.body.stmts@),
        ).contains(x),
        Item::Effect(d) => unauthorised(
            statements_of(d.body.stmts@),
            "#effect "@ + d.name@,
            d.mutates@,
            d.cannot_mutate@,
        ).contains(x),
        Item::Interrupt(d) => unauthorised(
            statements_of(d.body.stmts@),
            "#interrupt "@ + d.name@,
            d.mutates@,
            Seq::empty(),
        ).contains(x),
        Item::Automaton(d) => exists|t: int|
            0 <= t < d.transitions@.len() && unauthorised(
                statements_of((#[trigger] d.transitions@[t]).body.stmts@),
                "#transition "@ + d.transitions@[t].name@ + " in #automaton "@ + d.name@,
                seq![d.name],
                Seq::empty(),
            ).contains(x),
        _ => false,
    }
}

proof fn transition_faults(owner: String, ts: Seq<TransitionDecl>, x: CheckErrorView)
    ensures
        transitions_faults(owner, ts).contains(x) <==> exists|t: int|
            0 <= t < ts.len() && unauthorised(
                statements_of((#[trigger] ts[t]).body.stmts@),
                "#transition "@ + ts[t].name@ + " in #automaton "@ + owner@,
                seq![owner],
                Seq::empty(),
            ).contains(x),
    decreases ts.len(),
{
    if ts.len() > 0 {
        let front = ts.drop_last();
        let n = ts.len() - 1;
        let last = ts.last();
        assert(ts[n] == last);
        transition_faults(owner, front, x);
        assert forall|t: int| 0 <= t < front.len() implies front[t] == #[trigger] ts[t] by {}
        let enclosing = "#transition "@ + last.name@ + " in #automaton "@ + owner@;
        writes_are_checked_in_every_block(last.body.stmts@, enclosing, seq![owner], Seq::empty());
        contained_in_both(
            transitions_faults(owner, front),
            write_faults(last.body.stmts@, enclosing, seq![owner], Seq::empty()),
            x,
        );
        if transitions_faults(owner, front).contains(x) {
            let t = choose|t: int|
                0 <= t < front.len() && unauthorised(
                    statements_of((#[trigger] front[t]).body.stmts@),
                    "#transition "@ + front[t].name@ + " in #automaton "@ + owner@,
                    seq![owner],
                    Seq::empty(),
                ).contains(x);
            assert(ts[t] == front[t]);
        }
        if exists|t: int|
            0 <= t < ts.len() && unauthorised(
                statements_of((#[trigger] ts[t]).body.stmts@),
                "#transition "@ + ts[t].name@ + " in #automaton "@ + owner@,
                seq![owner],
                Seq::empty(),
            ).contains(x) {
            let t = choose|t: int|
                0 <= t < ts.len() && unauthorised(
                    statements_of((#[trigger] ts[t]).body.stmts@),
                    "#transition "@ + ts[t].name@ + " in #automaton "@ + owner@,
                    seq![owner],
                    Seq::empty(),
                ).contains(x);
            if t < n {
                assert(front[t] == ts[t]);
            }
        }
    }
}

proof fn faults_stand_in_items(res: Resolution, items: Seq<Item>, x: CheckErrorView)
    ensures
        items_faults(res, items).contains(x) <==> exists|i: int|
            0 <= i < items.len() && stands_in(res, #[trigger] items[i], x),
    decreases items.len(),
{
    if items.len() > 0 {
        let front = items.drop_last();
        let n = items.len() - 1;
        let last = items.last();
        assert(items[n] == last);
        faults_stand_in_items(res, front, x);
        contained_in_both(items_faults(res, front), item_faults(res, last), x);
        match last {
            Item::Fn(d) => {
                let ss = d.body.stmts@;
                boundary_faults_of_a_body(res, ss);
                let a = crossings(res, expressions_of(ss));
                let b = imperatives(statements_of(ss));
                same_bag_same_members(stmts_faults(res, ss), a + b, x);
                contained_in_both(a, b, x);
            },
            Item::Effect(d) => writes_are_checked_in_every_block(
                d.body.stmts@,
                "#effect "@ + d.name@,
                d.mutates@,
                d.cannot_mutate@,
            ),
            Item::Interrupt(d) => writes_are_checked_in_every_block(
                d.body.stmts@,
                "#interrupt "@ + d.name@,
                d.mutates@,
                Seq::empty(),
            ),
            Item::Automaton(d) => transition_faults(d.name, d.transitions@, x),
            _ => {},
        }
        assert(item_faults(res, last).contains(x) <==> stands_in(res, last, x));
        if items_faults(res, front).contains(x) {
            let i = choose|i: int| 0 <= i < front.len() && stands_in(res, #[trigger] front[i], x);
            assert(stands_in(res, items[i], x));
        }
        if exists|i: int| 0 <= i < items.len() && stands_in(res, #[trigger] items[i], x) {
            let i = choose|i: int| 0 <= i < items.len() && stands_in(res, #[trigger] items[i], x);
            if i < n {
                assert(stands_in(res, front[i], x));
            }
        }
    }
}

/// What the checks report, violations of totality aside, is exactly what stands
/// in the items of the program.
pub proof fn exactly_what_stands_in_items_is_reported(
    program: Program,
    res: Resolution,
    x: CheckErrorView,
)
    requires
        !(x is TotalityViolation),
    ensures
        (check_outcome(program, res) is Err && check_outcome(program, res)->Err_0.contains(x))
            <==> exists|i: int|
            0 <= i < program.items@.len() && stands_in(res, #[trigger] program.items@[i], x),
{
    faults_stand_in_items(res, program.items@, x);
    violations_alone(program.items@, x);
    contained_in_both(items_faults(res, program.items@), totality_faults(program.items@), x);
    faults_are_ordered(program, res);
    if check_outcome(program, res) is Err {
        same_bag_same_members(
            check_outcome(program, res)->Err_0,
            program_faults(program, res),
            x,
        );
    }
}

proof fn violations_alone(items: Seq<Item>, x: CheckErrorView)
    requires
        !(x is TotalityViolation),
    ensures
        !totality_faults(items).contains(x),
    decreases items.len(),
{
    if items.len() > 0 {
        violations_alone(items.drop_last(), x);
        let last = match items.last() {
            Item::Fn(d) => totality_fault(d),
            _ => Seq::empty(),
        };
        contained_in_both(totality_faults(items.drop_last()), last, x);
    }
}

} // verus!
