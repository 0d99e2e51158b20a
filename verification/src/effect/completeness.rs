//! What a body does is what stands in it, at whatever depth.
use vstd::prelude::*;

use crate::ast::{
    AssignOp, AutomatonDecl, Expr, ExprKind, FieldAssign, Item, Program, Stmt, StmtKind,
    TransitionDecl,
};
use crate::effect::callable::{CallableView, FieldRefView};
use crate::effect::direct::{
    assigns_effects, direct_effects, expr_reads, exprs_reads, field_writes, last_automaton,
    program_effects, stmt_effects, stmts_effects, with_transitions, DirectView, Scope,
};
use crate::effect::laws::{
    expressions_only_read, extracted_iff_all_keep_their_word, item_keeps_its_word, lists_only_read,
};
use crate::effect::profile::{
    callers_do_what_callees_do, calls, listed, own_deeds_count, profiles_of, profiles_outcome,
    reads_of, refers_to, writes_of,
};
use crate::resolve::{BindingRef, CallContext, Resolution, SymbolKind};
use crate::syntax::{
    assigned, expressions_of, expressions_of_a_row, expressions_of_a_statement, operands,
    operands_are_smaller, own_expressions, own_parts, parts, parts_of, parts_of_both, parts_of_one,
    parts_unfold, statements, statements_of,
};

verus! {

// ─── What a single piece of code does ──────────────────────────────────────

/// The expression names the automaton: by its own name, or by `Self` inside one
/// of its transitions.
pub open spec fn names_automaton(sc: Scope, e: Expr, automaton: Seq<char>) -> bool {
    match e.kind {
        ExprKind::Path(segs) => segs@.len() == 1 && if segs@[0]@ == "Self"@ {
            sc.owner == Some(automaton)
        } else {
            segs@[0]@ == automaton && match sc.resolution.symbols.symbol(automaton) {
                Some(s) => s.kind == SymbolKind::Automaton,
                None => false,
            }
        },
        _ => false,
    }
}

/// The expression itself, its operands aside, reads the field.
pub open spec fn is_read(sc: Scope, e: Expr, f: FieldRefView) -> bool {
    match e.kind {
        ExprKind::FieldAccess { obj, field } => field@ == f.field && names_automaton(
            sc,
            *obj,
            f.automaton,
        ),
        _ => false,
    }
}

/// One of the expressions reads the field.
pub open spec fn some_reads(sc: Scope, es: Seq<Expr>, f: FieldRefView) -> bool {
    exists|i: int| 0 <= i < es.len() && is_read(sc, #[trigger] es[i], f)
}

/// The declaration is the last under its name.
pub open spec fn declared_last(items: Seq<Item>, d: AutomatonDecl) -> bool {
    exists|j: int|
        0 <= j < items.len() && #[trigger] items[j] == Item::Automaton(d) && forall|k: int|
            j < k < items.len() ==> !(#[trigger] items[k] is Automaton && items[k]->Automaton_0.name@
                == d.name@)
}

/// One of the assignments is to the field.
pub open spec fn assigns_field(assigns: Seq<FieldAssign>, field: Seq<char>) -> bool {
    exists|i: int| 0 <= i < assigns.len() && (#[trigger] assigns[i]).field@ == field
}

/// The automaton has the field.
pub open spec fn has_field(d: AutomatonDecl, field: Seq<char>) -> bool {
    exists|i: int| 0 <= i < d.fields@.len() && (#[trigger] d.fields@[i]).name@ == field
}

/// The statement itself, its blocks aside, writes the field.
pub open spec fn is_write(sc: Scope, s: Stmt, f: FieldRefView) -> bool {
    match s.kind {
        StmtKind::Mutate { automaton, assigns } => automaton@ == f.automaton && assigns_field(
            assigns@,
            f.field,
        ),
        StmtKind::MutateShort { automaton, field, .. } => automaton@ == f.automaton && field@
            == f.field,
        StmtKind::Flush { automaton } => automaton@ == f.automaton && exists|d: AutomatonDecl|
            #[trigger] declared_last(sc.items, d) && d.name@ == f.automaton && has_field(
                d,
                f.field,
            ),
        _ => false,
    }
}

/// The statement changes the field by a compound assignment, and so reads it.
pub open spec fn is_update(s: Stmt, f: FieldRefView) -> bool {
    match s.kind {
        StmtKind::MutateShort { automaton, field, op, .. } => op != AssignOp::Eq && automaton@
            == f.automaton && field@ == f.field,
        _ => false,
    }
}

/// The statement is a `#>` call that is bound to the callable. A transition is
/// called by its name alone.
pub open spec fn is_call(sc: Scope, s: Stmt, id: CallableView) -> bool {
    match s.kind {
        StmtKind::ProcCall { name, .. } => match sc.resolution.binding(s.span) {
            Some(BindingRef::Proc { name: bound, ctx: CallContext::Identity }) => id
                == CallableView::Effect(bound@),
            Some(BindingRef::Proc { ctx: CallContext::Transition, .. }) => id
                == (CallableView::Transition { automaton: Seq::empty(), name: name@ }),
            _ => false,
        },
        _ => false,
    }
}

/// One of the statements writes the field.
pub open spec fn some_writes(sc: Scope, ss: Seq<Stmt>, f: FieldRefView) -> bool {
    exists|i: int| 0 <= i < ss.len() && is_write(sc, #[trigger] ss[i], f)
}

/// One of the statements changes the field by a compound assignment.
pub open spec fn some_updates(ss: Seq<Stmt>, f: FieldRefView) -> bool {
    exists|i: int| 0 <= i < ss.len() && is_update(#[trigger] ss[i], f)
}

/// One of the statements calls the callable.
pub open spec fn some_calls(sc: Scope, ss: Seq<Stmt>, id: CallableView) -> bool {
    exists|i: int| 0 <= i < ss.len() && is_call(sc, #[trigger] ss[i], id)
}

// ─── Expressions ───────────────────────────────────────────────────────────

proof fn reads_of_both(sc: Scope, a: Seq<Expr>, b: Seq<Expr>, f: FieldRefView)
    ensures
        some_reads(sc, a + b, f) <==> some_reads(sc, a, f) || some_reads(sc, b, f),
{
    let c = a + b;
    if some_reads(sc, a, f) {
        let i = choose|i: int| 0 <= i < a.len() && is_read(sc, #[trigger] a[i], f);
        assert(is_read(sc, c[i], f));
    }
    if some_reads(sc, b, f) {
        let i = choose|i: int| 0 <= i < b.len() && is_read(sc, #[trigger] b[i], f);
        assert(is_read(sc, c[a.len() + i], f));
    }
    if some_reads(sc, c, f) {
        let i = choose|i: int| 0 <= i < c.len() && is_read(sc, #[trigger] c[i], f);
        if i < a.len() {
            assert(is_read(sc, a[i], f));
        } else {
            assert(is_read(sc, b[i - a.len()], f));
        }
    }
}

proof fn reads_of_one(sc: Scope, e: Expr, f: FieldRefView)
    ensures
        some_reads(sc, seq![e], f) <==> is_read(sc, e, f),
{
    if is_read(sc, e, f) {
        assert(is_read(sc, seq![e][0], f));
    }
}

proof fn listed_reads_of_both(sc: Scope, a: Seq<Expr>, b: Seq<Expr>)
    ensures
        exprs_reads(sc, a + b).reads =~= exprs_reads(sc, a).reads.union(exprs_reads(sc, b).reads),
    decreases b.len(),
{
    if b.len() == 0 {
        assert(a + b =~= a);
    } else {
        listed_reads_of_both(sc, a, b.drop_last());
        assert((a + b).drop_last() =~= a + b.drop_last());
        assert((a + b).last() == b.last());
    }
}

proof fn listed_reads_of_one(sc: Scope, e: Expr)
    ensures
        exprs_reads(sc, seq![e]).reads =~= expr_reads(sc, e).reads,
{
    assert(seq![e].drop_last() =~= Seq::<Expr>::empty());
    assert(exprs_reads(sc, seq![e].drop_last()) == DirectView::none());
}

proof fn listed_reads_of_two(sc: Scope, a: Expr, b: Expr)
    ensures
        exprs_reads(sc, seq![a, b]).reads =~= expr_reads(sc, a).reads.union(
            expr_reads(sc, b).reads,
        ),
{
    assert(seq![a, b] =~= seq![a] + seq![b]);
    listed_reads_of_both(sc, seq![a], seq![b]);
    listed_reads_of_one(sc, a);
    listed_reads_of_one(sc, b);
}

proof fn reads_unfold(sc: Scope, e: Expr, f: FieldRefView)
    ensures
        expr_reads(sc, e).reads.contains(f) <==> is_read(sc, e, f) || exprs_reads(
            sc,
            operands(e),
        ).reads.contains(f),
{
    match e.kind {
        ExprKind::FieldAccess { obj, .. } => listed_reads_of_one(sc, *obj),
        ExprKind::Index { obj, index } => listed_reads_of_two(sc, *obj, *index),
        ExprKind::Binary { lhs, rhs, .. } => listed_reads_of_two(sc, *lhs, *rhs),
        ExprKind::Unary { operand, .. } => listed_reads_of_one(sc, *operand),
        ExprKind::Ref { operand, .. } => listed_reads_of_one(sc, *operand),
        ExprKind::Paren(inner) => listed_reads_of_one(sc, *inner),
        ExprKind::Cast { value, .. } => listed_reads_of_one(sc, *value),
        ExprKind::Call { callee, args } => {
            listed_reads_of_both(sc, seq![*callee], args@);
            listed_reads_of_one(sc, *callee);
        },
        ExprKind::MethodCall { obj, args, .. } => {
            listed_reads_of_both(sc, seq![*obj], args@);
            listed_reads_of_one(sc, *obj);
        },
        ExprKind::Range { lo, hi, .. } => listed_reads_of_two(sc, *lo, *hi),
        ExprKind::ArrayRepeat { value, count } => listed_reads_of_two(sc, *value, *count),
        ExprKind::UncheckedLoad { ptr, .. } => listed_reads_of_one(sc, *ptr),
        ExprKind::VolatileLoad { ptr, .. } => listed_reads_of_one(sc, *ptr),
        ExprKind::UncheckedCast { value, .. } => listed_reads_of_one(sc, *value),
        ExprKind::UncheckedOffset { ptr, n, .. } => listed_reads_of_two(sc, *ptr, *n),
        _ => {},
    }
}

proof fn listed_reads_stand_in_parts(sc: Scope, es: Seq<Expr>, f: FieldRefView)
    requires
        forall|i: int|
            0 <= i < es.len() ==> (expr_reads(sc, #[trigger] es[i]).reads.contains(f)
                <==> some_reads(sc, parts(es[i]), f)),
    ensures
        exprs_reads(sc, es).reads.contains(f) <==> some_reads(sc, parts_of(es), f),
    decreases es.len(),
{
    if es.len() > 0 {
        let front = es.drop_last();
        assert forall|i: int| 0 <= i < front.len() implies (expr_reads(
            sc,
            #[trigger] front[i],
        ).reads.contains(f) <==> some_reads(sc, parts(front[i]), f)) by {
            assert(front[i] == es[i]);
        }
        listed_reads_stand_in_parts(sc, front, f);
        assert(es.last() == es[es.len() - 1]);
        reads_of_both(sc, parts_of(front), parts(es.last()), f);
    }
}

/// An expression reads a field exactly where one of its parts, however deep,
/// is `Auto.field` or, in a transition, `Self.field`.
pub proof fn an_expression_reads_what_stands_in_it(sc: Scope, e: Expr, f: FieldRefView)
    ensures
        expr_reads(sc, e).reads.contains(f) <==> some_reads(sc, parts(e), f),
    decreases e,
{
    assert forall|i: int| 0 <= i < operands(e).len() implies (expr_reads(
        sc,
        #[trigger] operands(e)[i],
    ).reads.contains(f) <==> some_reads(sc, parts(operands(e)[i]), f)) by {
        operands_are_smaller(e, i);
        an_expression_reads_what_stands_in_it(sc, operands(e)[i], f);
    }
    listed_reads_stand_in_parts(sc, operands(e), f);
    reads_unfold(sc, e, f);
    parts_unfold(e);
    reads_of_both(sc, seq![e], parts_of(operands(e)), f);
    reads_of_one(sc, e, f);
}

proof fn listed_reads(sc: Scope, es: Seq<Expr>, f: FieldRefView)
    ensures
        exprs_reads(sc, es).reads.contains(f) <==> some_reads(sc, parts_of(es), f),
{
    assert forall|i: int| 0 <= i < es.len() implies (expr_reads(
        sc,
        #[trigger] es[i],
    ).reads.contains(f) <==> some_reads(sc, parts(es[i]), f)) by {
        an_expression_reads_what_stands_in_it(sc, es[i], f);
    }
    listed_reads_stand_in_parts(sc, es, f);
}

// ─── Statements ────────────────────────────────────────────────────────────

proof fn deeds_of_both(sc: Scope, a: Seq<Stmt>, b: Seq<Stmt>, f: FieldRefView, id: CallableView)
    ensures
        some_writes(sc, a + b, f) <==> some_writes(sc, a, f) || some_writes(sc, b, f),
        some_updates(a + b, f) <==> some_updates(a, f) || some_updates(b, f),
        some_calls(sc, a + b, id) <==> some_calls(sc, a, id) || some_calls(sc, b, id),
{
    let c = a + b;
    assert forall|i: int| 0 <= i < a.len() implies #[trigger] a[i] == c[i] by {}
    assert forall|i: int| 0 <= i < b.len() implies #[trigger] b[i] == c[a.len() + i] by {}
    assert forall|i: int| 0 <= i < c.len() implies #[trigger] c[i] == (if i < a.len() {
        a[i]
    } else {
        b[i - a.len()]
    }) by {}
    if some_writes(sc, a, f) {
        let i = choose|i: int| 0 <= i < a.len() && is_write(sc, #[trigger] a[i], f);
        assert(is_write(sc, c[i], f));
    }
    if some_writes(sc, b, f) {
        let i = choose|i: int| 0 <= i < b.len() && is_write(sc, #[trigger] b[i], f);
        assert(is_write(sc, c[a.len() + i], f));
    }
    if some_updates(a, f) {
        let i = choose|i: int| 0 <= i < a.len() && is_update(#[trigger] a[i], f);
        assert(is_update(c[i], f));
    }
    if some_updates(b, f) {
        let i = choose|i: int| 0 <= i < b.len() && is_update(#[trigger] b[i], f);
        assert(is_update(c[a.len() + i], f));
    }
    if some_calls(sc, a, id) {
        let i = choose|i: int| 0 <= i < a.len() && is_call(sc, #[trigger] a[i], id);
        assert(is_call(sc, c[i], id));
    }
    if some_calls(sc, b, id) {
        let i = choose|i: int| 0 <= i < b.len() && is_call(sc, #[trigger] b[i], id);
        assert(is_call(sc, c[a.len() + i], id));
    }
}

proof fn deeds_of_one(sc: Scope, s: Stmt, f: FieldRefView, id: CallableView)
    ensures
        some_writes(sc, seq![s], f) <==> is_write(sc, s, f),
        some_updates(seq![s], f) <==> is_update(s, f),
        some_calls(sc, seq![s], id) <==> is_call(sc, s, id),
{
    assert(seq![s][0] == s);
    if is_write(sc, s, f) {
        assert(is_write(sc, seq![s][0], f));
    }
    if is_update(s, f) {
        assert(is_update(seq![s][0], f));
    }
    if is_call(sc, s, id) {
        assert(is_call(sc, seq![s][0], id));
    }
}

proof fn last_automaton_is_declared_last(items: Seq<Item>, name: Seq<char>)
    ensures
        match last_automaton(items, name) {
            Some(d) => d.name@ == name && declared_last(items, d),
            None => forall|i: int|
                0 <= i < items.len() ==> !(#[trigger] items[i] is Automaton
                    && items[i]->Automaton_0.name@ == name),
        },
        forall|d: AutomatonDecl| #[trigger]
            declared_last(items, d) && d.name@ == name ==> last_automaton(items, name) == Some(d),
    decreases items.len(),
{
    if items.len() > 0 {
        let front = items.drop_last();
        let n = items.len() - 1;
        assert(items[n] == items.last());
        last_automaton_is_declared_last(front, name);
        let hit = items.last() is Automaton && items.last()->Automaton_0.name@ == name;
        if hit {
            assert(items[n] == Item::Automaton(items.last()->Automaton_0));
            assert(declared_last(items, items.last()->Automaton_0));
        } else if last_automaton(front, name) is Some {
            let d = last_automaton(front, name)->0;
            let j = choose|j: int|
                0 <= j < front.len() && #[trigger] front[j] == Item::Automaton(d) && forall|k: int|
                    j < k < front.len() ==> !(#[trigger] front[k] is Automaton
                        && front[k]->Automaton_0.name@ == d.name@);
            assert(items[j] == Item::Automaton(d));
            assert forall|k: int| j < k < items.len() implies !(#[trigger] items[k] is Automaton
                && items[k]->Automaton_0.name@ == d.name@) by {
                if k < n {
                    assert(front[k] == items[k]);
                }
            }
        } else {
            assert forall|i: int| 0 <= i < items.len() implies !(#[trigger] items[i] is Automaton
                && items[i]->Automaton_0.name@ == name) by {
                if i < n {
                    assert(front[i] == items[i]);
                }
            }
        }
        assert forall|d: AutomatonDecl| #[trigger] declared_last(items, d) && d.name@
            == name implies last_automaton(items, name) == Some(d) by {
            let j = choose|j: int|
                0 <= j < items.len() && #[trigger] items[j] == Item::Automaton(d) && forall|k: int|
                    j < k < items.len() ==> !(#[trigger] items[k] is Automaton
                        && items[k]->Automaton_0.name@ == d.name@);
            if j < n {
                assert(front[j] == Item::Automaton(d));
                assert forall|k: int| j < k < front.len() implies !(#[trigger] front[k] is Automaton
                    && front[k]->Automaton_0.name@ == d.name@) by {
                    assert(front[k] == items[k]);
                }
                assert(declared_last(front, d));
                assert(!(items[n] is Automaton && items[n]->Automaton_0.name@ == d.name@));
            }
        }
    }
}

proof fn fields_written(automaton: Seq<char>, d: AutomatonDecl, n: nat, f: FieldRefView)
    requires
        n <= d.fields@.len(),
    ensures
        field_writes(automaton, d, n).writes.contains(f) <==> f.automaton == automaton && exists|
            i: int,
        |
            0 <= i < n && (#[trigger] d.fields@[i]).name@ == f.field,
        field_writes(automaton, d, n).reads == Set::<FieldRefView>::empty(),
        field_writes(automaton, d, n).proc_calls == Set::<CallableView>::empty(),
    decreases n,
{
    assert(Set::<FieldRefView>::empty().union(Set::empty()) =~= Set::empty());
    assert(Set::<CallableView>::empty().union(Set::empty()) =~= Set::empty());
    if n > 0 {
        fields_written(automaton, d, (n - 1) as nat, f);
        let one = DirectView::write(automaton, d.fields@[n - 1].name@).writes;
        assert(one.contains(f) <==> f.automaton == automaton && d.fields@[n - 1].name@ == f.field);
    }
}

proof fn assignments_written(
    sc: Scope,
    automaton: Seq<char>,
    assigns: Seq<FieldAssign>,
    f: FieldRefView,
)
    ensures
        assigns_effects(sc, automaton, assigns).writes.contains(f) <==> f.automaton == automaton
            && assigns_field(assigns, f.field),
        assigns_effects(sc, automaton, assigns).reads.contains(f) <==> some_reads(
            sc,
            parts_of(assigned(assigns)),
            f,
        ),
        assigns_effects(sc, automaton, assigns).proc_calls == Set::<CallableView>::empty(),
    decreases assigns.len(),
{
    assert(Set::<CallableView>::empty().union(Set::empty()) =~= Set::empty());
    if assigns.len() > 0 {
        let front = assigns.drop_last();
        let fa = assigns.last();
        assignments_written(sc, automaton, front, f);
        expressions_only_read(sc, fa.value);
        an_expression_reads_what_stands_in_it(sc, fa.value, f);
        let own = match fa.index {
            Some(index) => seq![index, fa.value],
            None => seq![fa.value],
        };
        parts_of_both(assigned(front), own);
        reads_of_both(sc, parts_of(assigned(front)), parts_of(own), f);
        if let Some(index) = fa.index {
            expressions_only_read(sc, index);
            an_expression_reads_what_stands_in_it(sc, index, f);
            assert(own =~= seq![index] + seq![fa.value]);
            parts_of_both(seq![index], seq![fa.value]);
            parts_of_one(index);
            reads_of_both(sc, parts(index), parts(fa.value), f);
        }
        parts_of_one(fa.value);
        let one = DirectView::write(automaton, fa.field@).writes;
        assert(one.contains(f) <==> f.automaton == automaton && fa.field@ == f.field);
        assert(assigns[assigns.len() - 1] == fa);
        if assigns_field(front, f.field) {
            let i = choose|i: int| 0 <= i < front.len() && (#[trigger] front[i]).field@ == f.field;
            assert(assigns[i].field@ == f.field);
        }
        if assigns_field(assigns, f.field) {
            let i = choose|i: int|
                0 <= i < assigns.len() && (#[trigger] assigns[i]).field@ == f.field;
            if i < front.len() {
                assert(front[i].field@ == f.field);
            }
        }
    }
}

/// What a statement does by itself, its blocks aside.
spec fn does_itself(sc: Scope, s: Stmt, f: FieldRefView, id: CallableView, deeds: DirectView) -> bool {
    &&& deeds.writes.contains(f) <==> is_write(sc, s, f)
    &&& deeds.reads.contains(f) <==> is_update(s, f) || some_reads(
        sc,
        parts_of(own_expressions(s)),
        f,
    )
    &&& deeds.proc_calls.contains(id) <==> is_call(sc, s, id)
}

proof fn simple_statement(sc: Scope, s: Stmt, f: FieldRefView, id: CallableView)
    requires
        !(s.kind is If) && !(s.kind is Sigma),
    ensures
        does_itself(sc, s, f, id, stmt_effects(sc, s)),
{
    let own = own_expressions(s);
    listed_reads(sc, own, f);
    lists_only_read(sc, own);
    match s.kind {
        StmtKind::Mutate { automaton, assigns } => assignments_written(
            sc,
            automaton@,
            assigns@,
            f,
        ),
        StmtKind::MutateShort { automaton, field, value, .. } => {
            listed_reads_of_one(sc, value);
            expressions_only_read(sc, value);
            let here = FieldRefView { automaton: automaton@, field: field@ };
            assert(here == f <==> automaton@ == f.automaton && field@ == f.field);
        },
        StmtKind::ProcCall { .. } => {},
        StmtKind::Let { value, .. } => {
            listed_reads_of_one(sc, value);
            expressions_only_read(sc, value);
        },
        StmtKind::LetShort { value, .. } => {
            listed_reads_of_one(sc, value);
            expressions_only_read(sc, value);
        },
        StmtKind::Expr(e) => {
            listed_reads_of_one(sc, e);
            expressions_only_read(sc, e);
        },
        StmtKind::Return(Some(e)) => {
            listed_reads_of_one(sc, e);
            expressions_only_read(sc, e);
        },
        StmtKind::UncheckedStore { ptr, value, .. } => {
            listed_reads_of_two(sc, ptr, value);
            expressions_only_read(sc, ptr);
            expressions_only_read(sc, value);
        },
        StmtKind::VolatileStore { ptr, value, .. } => {
            listed_reads_of_two(sc, ptr, value);
            expressions_only_read(sc, ptr);
            expressions_only_read(sc, value);
        },
        StmtKind::Assign { value, .. } => {
            listed_reads_of_one(sc, value);
            expressions_only_read(sc, value);
        },
        StmtKind::Flush { automaton } => {
            last_automaton_is_declared_last(sc.items, automaton@);
            match last_automaton(sc.items, automaton@) {
                Some(d) => {
                    fields_written(automaton@, d, d.fields@.len(), f);
                    if automaton@ == f.automaton && has_field(d, f.field) {
                        assert(declared_last(sc.items, d));
                    }
                },
                None => {
                    assert forall|d: AutomatonDecl| #[trigger]
                        declared_last(sc.items, d) implies d.name@ != automaton@ by {}
                },
            }
        },
        _ => {},
    }
}

/// What a body does, its blocks included.
spec fn does(
    sc: Scope,
    all: Seq<Stmt>,
    f: FieldRefView,
    id: CallableView,
    deeds: DirectView,
) -> bool {
    &&& deeds.writes.contains(f) <==> some_writes(sc, all, f)
    &&& deeds.reads.contains(f) <==> some_updates(all, f) || some_reads(sc, own_parts(all), f)
    &&& deeds.proc_calls.contains(id) <==> some_calls(sc, all, id)
}

proof fn statement_does_what_stands_in_it(sc: Scope, s: Stmt, f: FieldRefView, id: CallableView)
    ensures
        does(sc, statements(s), f, id, stmt_effects(sc, s)),
    decreases s, 0nat,
{
    deeds_of_one(sc, s, f, id);
    expressions_of_a_statement(s);
    match s.kind {
        StmtKind::If { cond, then_block, else_block } => {
            let yes = statements_of(then_block.stmts@);
            body_does_what_stands_in_it(sc, then_block.stmts@, f, id);
            listed_reads_of_one(sc, cond);
            listed_reads(sc, seq![cond], f);
            expressions_only_read(sc, cond);
            let own = parts_of(seq![cond]);
            match else_block {
                Some(b) => {
                    let no = statements_of(b.stmts@);
                    body_does_what_stands_in_it(sc, b.stmts@, f, id);
                    deeds_of_both(sc, yes, no, f, id);
                    deeds_of_both(sc, seq![s], yes + no, f, id);
                    reads_of_both(sc, own_parts(yes), own_parts(no), f);
                    reads_of_both(sc, own, own_parts(yes) + own_parts(no), f);
                },
                None => {
                    deeds_of_both(sc, seq![s], yes, f, id);
                    assert(own_parts(yes) + Seq::<Expr>::empty() =~= own_parts(yes));
                    reads_of_both(sc, own, own_parts(yes), f);
                },
            }
        },
        StmtKind::Sigma { source, body, .. } => {
            let inner = statements_of(body.stmts@);
            body_does_what_stands_in_it(sc, body.stmts@, f, id);
            listed_reads_of_one(sc, source);
            listed_reads(sc, seq![source], f);
            expressions_only_read(sc, source);
            deeds_of_both(sc, seq![s], inner, f, id);
            reads_of_both(sc, parts_of(seq![source]), own_parts(inner), f);
        },
        _ => {
            simple_statement(sc, s, f, id);
            assert(statements(s) =~= seq![s]);
            assert(own_parts(statements(s)) =~= parts_of(own_expressions(s)));
        },
    }
}

proof fn body_does_what_stands_in_it(sc: Scope, ss: Seq<Stmt>, f: FieldRefView, id: CallableView)
    ensures
        does(sc, statements_of(ss), f, id, stmts_effects(sc, ss)),
    decreases ss, 1nat,
{
    if ss.len() > 0 {
        body_does_what_stands_in_it(sc, ss.drop_last(), f, id);
        statement_does_what_stands_in_it(sc, ss.last(), f, id);
        let front = statements_of(ss.drop_last());
        let last = statements(ss.last());
        deeds_of_both(sc, front, last, f, id);
        expressions_of_a_row(ss);
        reads_of_both(sc, own_parts(front), own_parts(last), f);
    }
}

/// A body writes a field exactly where one of its statements, in whatever
/// block it stands, assigns it or flushes its automaton.
pub proof fn a_body_writes_what_stands_in_it(sc: Scope, ss: Seq<Stmt>, f: FieldRefView)
    ensures
        stmts_effects(sc, ss).writes.contains(f) <==> some_writes(sc, statements_of(ss), f),
{
    body_does_what_stands_in_it(sc, ss, f, CallableView::Effect(Seq::empty()));
}

/// A body reads a field exactly where one of its expressions, at whatever depth
/// of blocks and operands, reads it or one of its statements changes it by a
/// compound assignment.
pub proof fn a_body_reads_what_stands_in_it(sc: Scope, ss: Seq<Stmt>, f: FieldRefView)
    ensures
        stmts_effects(sc, ss).reads.contains(f) <==> some_reads(sc, expressions_of(ss), f)
            || some_updates(statements_of(ss), f),
{
    body_does_what_stands_in_it(sc, ss, f, CallableView::Effect(Seq::empty()));
}

/// A body calls a callable exactly where one of its statements, in whatever
/// block it stands, is a `#>` call that is bound to it.
pub proof fn a_body_calls_what_stands_in_it(sc: Scope, ss: Seq<Stmt>, id: CallableView)
    ensures
        stmts_effects(sc, ss).proc_calls.contains(id) <==> some_calls(sc, statements_of(ss), id),
{
    body_does_what_stands_in_it(
        sc,
        ss,
        FieldRefView { automaton: Seq::empty(), field: Seq::empty() },
        id,
    );
}

// ─── Programs ──────────────────────────────────────────────────────────────

/// The automaton is of the given name and has a transition of the given name.
pub open spec fn offers(item: Item, automaton: Seq<char>, name: Seq<char>) -> bool {
    match item {
        Item::Automaton(d) => d.name@ == automaton && exists|t: int|
            0 <= t < d.transitions@.len() && (#[trigger] d.transitions@[t]).name@ == name,
        _ => false,
    }
}

/// The statements are the body of the last transition of the given name.
pub open spec fn is_transition_body(
    ts: Seq<TransitionDecl>,
    name: Seq<char>,
    ss: Seq<Stmt>,
) -> bool {
    exists|t: int|
        0 <= t < ts.len() && (#[trigger] ts[t]).name@ == name && ts[t].body.stmts@ == ss && forall|
            u: int,
        |
            t < u < ts.len() ==> (#[trigger] ts[u]).name@ != name
}

/// The item declares the callable, with the statements as its body.
pub open spec fn declares(item: Item, id: CallableView, ss: Seq<Stmt>) -> bool {
    match (item, id) {
        (Item::Effect(d), CallableView::Effect(name)) => d.name@ == name && d.body.stmts@ == ss,
        (Item::Interrupt(d), CallableView::Interrupt(name)) => d.name@ == name && d.body.stmts@
            == ss,
        (Item::Automaton(d), CallableView::Transition { automaton, name }) => d.name@ == automaton
            && is_transition_body(d.transitions@, name, ss),
        _ => false,
    }
}

/// The item declares the callable, with whatever body.
pub open spec fn declares_some(item: Item, id: CallableView) -> bool {
    match (item, id) {
        (Item::Effect(d), CallableView::Effect(name)) => d.name@ == name,
        (Item::Interrupt(d), CallableView::Interrupt(name)) => d.name@ == name,
        (_, CallableView::Transition { automaton, name }) => offers(item, automaton, name),
        _ => false,
    }
}

/// The statements are the body of the callable; of two declarations of one
/// callable the later counts.
pub open spec fn is_body(items: Seq<Item>, id: CallableView, ss: Seq<Stmt>) -> bool {
    exists|j: int|
        0 <= j < items.len() && declares(#[trigger] items[j], id, ss) && forall|k: int|
            j < k < items.len() ==> !declares_some(#[trigger] items[k], id)
}

/// What the body of a callable may refer to.
pub open spec fn scope_of(items: Seq<Item>, resolution: Resolution, id: CallableView) -> Scope {
    Scope {
        items,
        resolution,
        owner: match id {
            CallableView::Transition { automaton, .. } => Some(automaton),
            _ => None,
        },
    }
}

proof fn transition_effects(
    known: Map<CallableView, DirectView>,
    items: Seq<Item>,
    resolution: Resolution,
    automaton: Seq<char>,
    ts: Seq<TransitionDecl>,
    id: CallableView,
    ss: Seq<Stmt>,
)
    ensures
        id is Transition && id->automaton == automaton && is_transition_body(
            ts,
            id->name,
            ss,
        ) ==> {
            let r = with_transitions(known, items, resolution, automaton, ts);
            r.dom().contains(id) && r[id] == stmts_effects(scope_of(items, resolution, id), ss)
        },
        !(id is Transition && id->automaton == automaton && exists|t: int|
            0 <= t < ts.len() && (#[trigger] ts[t]).name@ == id->name) ==> {
            let r = with_transitions(known, items, resolution, automaton, ts);
            (r.dom().contains(id) <==> known.dom().contains(id)) && r[id] == known[id]
        },
    decreases ts.len(),
{
    if ts.len() > 0 {
        let front = ts.drop_last();
        let n = ts.len() - 1;
        assert(ts[n] == ts.last());
        transition_effects(known, items, resolution, automaton, front, id, ss);
        if id is Transition && id->automaton == automaton && is_transition_body(ts, id->name, ss) {
            let t = choose|t: int|
                0 <= t < ts.len() && (#[trigger] ts[t]).name@ == id->name && ts[t].body.stmts@
                    == ss && forall|u: int|
                    t < u < ts.len() ==> (#[trigger] ts[u]).name@ != id->name;
            if t < n {
                assert(front[t] == ts[t]);
                assert(ts[n].name@ != id->name);
                assert forall|u: int| t < u < front.len() implies (#[trigger] front[u]).name@
                    != id->name by {
                    assert(front[u] == ts[u]);
                }
                assert(is_transition_body(front, id->name, ss));
            }
        }
        if !(id is Transition && id->automaton == automaton && exists|t: int|
            0 <= t < ts.len() && (#[trigger] ts[t]).name@ == id->name) {
            if id is Transition && id->automaton == automaton {
                assert forall|t: int| 0 <= t < front.len() implies (#[trigger] front[t]).name@
                    != id->name by {
                    assert(front[t] == ts[t]);
                }
                assert(ts[n].name@ != id->name);
            }
        }
    }
}

proof fn effects_of_bodies(
    all: Seq<Item>,
    resolution: Resolution,
    items: Seq<Item>,
    id: CallableView,
    ss: Seq<Stmt>,
)
    ensures
        is_body(items, id, ss) ==> {
            let r = direct_effects(all, resolution, items);
            r.dom().contains(id) && r[id] == stmts_effects(scope_of(all, resolution, id), ss)
        },
        (forall|j: int| 0 <= j < items.len() ==> !declares_some(#[trigger] items[j], id))
            ==> !direct_effects(all, resolution, items).dom().contains(id),
    decreases items.len(),
{
    if items.len() > 0 {
        let front = items.drop_last();
        let n = items.len() - 1;
        assert(items[n] == items.last());
        effects_of_bodies(all, resolution, front, id, ss);
        let known = direct_effects(all, resolution, front);
        if let Item::Automaton(d) = items.last() {
            transition_effects(known, all, resolution, d.name@, d.transitions@, id, ss);
        }
        if is_body(items, id, ss) {
            let j = choose|j: int|
                0 <= j < items.len() && declares(#[trigger] items[j], id, ss) && forall|k: int|
                    j < k < items.len() ==> !declares_some(#[trigger] items[k], id);
            if j < n {
                assert(front[j] == items[j]);
                assert forall|k: int| j < k < front.len() implies !declares_some(
                    #[trigger] front[k],
                    id,
                ) by {
                    assert(front[k] == items[k]);
                }
                assert(is_body(front, id, ss));
                assert(!declares_some(items[n], id));
            }
        }
        if forall|j: int| 0 <= j < items.len() ==> !declares_some(#[trigger] items[j], id) {
            assert forall|j: int| 0 <= j < front.len() implies !declares_some(
                #[trigger] front[j],
                id,
            ) by {
                assert(front[j] == items[j]);
            }
            assert(!declares_some(items[n], id));
        }
    }
}

/// Every callable that a program declares does by itself what stands in its
/// body: the fields that it writes and reads, and the calls.
pub proof fn callables_do_what_stands_in_their_bodies(
    program: Program,
    resolution: Resolution,
    id: CallableView,
    ss: Seq<Stmt>,
    f: FieldRefView,
    callee: CallableView,
)
    requires
        is_body(program.items@, id, ss),
    ensures
        program_effects(program, resolution).dom().contains(id),
        ({
            let sc = scope_of(program.items@, resolution, id);
            let deeds = program_effects(program, resolution)[id];
            &&& deeds.writes.contains(f) <==> some_writes(sc, statements_of(ss), f)
            &&& deeds.reads.contains(f) <==> some_reads(sc, expressions_of(ss), f) || some_updates(
                statements_of(ss),
                f,
            )
            &&& deeds.proc_calls.contains(callee) <==> some_calls(sc, statements_of(ss), callee)
        }),
{
    effects_of_bodies(program.items@, resolution, program.items@, id, ss);
    let sc = scope_of(program.items@, resolution, id);
    a_body_writes_what_stands_in_it(sc, ss, f);
    a_body_reads_what_stands_in_it(sc, ss, f);
    a_body_calls_what_stands_in_it(sc, ss, callee);
}

/// Only what a program declares is a callable of it.
pub proof fn only_declared_callables_count(program: Program, resolution: Resolution, id: CallableView)
    requires
        program_effects(program, resolution).dom().contains(id),
    ensures
        exists|j: int|
            0 <= j < program.items@.len() && declares_some(#[trigger] program.items@[j], id),
{
    effects_of_bodies(program.items@, resolution, program.items@, id, Seq::empty());
}

/// The statement is a `#>` call that may run the callable: an effect by the
/// name that the call is bound to, a transition of any automaton by the name
/// that is written.
pub open spec fn may_run(sc: Scope, s: Stmt, id: CallableView) -> bool {
    match s.kind {
        StmtKind::ProcCall { name, .. } => match sc.resolution.binding(s.span) {
            Some(BindingRef::Proc { name: bound, ctx: CallContext::Identity }) => id
                == CallableView::Effect(bound@),
            Some(BindingRef::Proc { ctx: CallContext::Transition, .. }) => id is Transition
                && id->name == name@,
            _ => false,
        },
        _ => false,
    }
}

/// One callable of a program calls another exactly where a statement of its
/// body, in whatever block it stands, is a `#>` call that may run the other.
pub proof fn calls_are_statements(
    program: Program,
    resolution: Resolution,
    a: CallableView,
    ss: Seq<Stmt>,
    b: CallableView,
)
    requires
        is_body(program.items@, a, ss),
        program_effects(program, resolution).dom().contains(b),
    ensures
        calls(program_effects(program, resolution), a, b) <==> exists|i: int|
            0 <= i < statements_of(ss).len() && may_run(
                scope_of(program.items@, resolution, a),
                #[trigger] statements_of(ss)[i],
                b,
            ),
{
    let direct = program_effects(program, resolution);
    let sc = scope_of(program.items@, resolution, a);
    let all = statements_of(ss);
    effects_of_bodies(program.items@, resolution, program.items@, a, ss);
    if calls(direct, a, b) {
        let c = choose|c: CallableView| #[trigger] direct[a].proc_calls.contains(c) && refers_to(
            c,
            b,
        );
        a_body_calls_what_stands_in_it(sc, ss, c);
        let i = choose|i: int| 0 <= i < all.len() && is_call(sc, #[trigger] all[i], c);
        assert(may_run(sc, all[i], b));
    }
    if exists|i: int| 0 <= i < all.len() && may_run(sc, #[trigger] all[i], b) {
        let i = choose|i: int| 0 <= i < all.len() && may_run(sc, #[trigger] all[i], b);
        let c = match b {
            CallableView::Transition { name, .. } => CallableView::Transition {
                automaton: Seq::empty(),
                name,
            },
            _ => b,
        };
        assert(is_call(sc, all[i], c));
        a_body_calls_what_stands_in_it(sc, ss, c);
        assert(direct[a].proc_calls.contains(c) && refers_to(c, b));
    }
}

/// The profile of a callable counts every write and every read in its body, at
/// whatever depth, and the automaton of every write.
pub proof fn profiles_count_the_body(
    program: Program,
    resolution: Resolution,
    id: CallableView,
    ss: Seq<Stmt>,
    f: FieldRefView,
)
    requires
        is_body(program.items@, id, ss),
    ensures
        ({
            let sc = scope_of(program.items@, resolution, id);
            let profiles = profiles_of(program_effects(program, resolution));
            &&& profiles.dom().contains(id)
            &&& some_writes(sc, statements_of(ss), f) ==> profiles[id].writes.contains(f)
                && profiles[id].automata.contains(f.automaton)
            &&& some_reads(sc, expressions_of(ss), f) || some_updates(statements_of(ss), f)
                ==> profiles[id].reads.contains(f)
        }),
{
    let direct = program_effects(program, resolution);
    callables_do_what_stands_in_their_bodies(program, resolution, id, ss, f, id);
    own_deeds_count(direct, writes_of(), id);
    own_deeds_count(direct, reads_of(), id);
    assert(writes_of()(direct[id]) == direct[id].writes);
    assert(reads_of()(direct[id]) == direct[id].reads);
}

/// The profile of a callable counts everything in the profile of every callable
/// that a statement of its body, at whatever depth, may run.
pub proof fn profiles_count_the_calls(
    program: Program,
    resolution: Resolution,
    a: CallableView,
    ss: Seq<Stmt>,
    i: int,
    b: CallableView,
)
    requires
        is_body(program.items@, a, ss),
        profiles_of(program_effects(program, resolution)).dom().contains(b),
        0 <= i < statements_of(ss).len(),
        may_run(scope_of(program.items@, resolution, a), statements_of(ss)[i], b),
    ensures
        ({
            let profiles = profiles_of(program_effects(program, resolution));
            &&& profiles[b].writes.subset_of(profiles[a].writes)
            &&& profiles[b].reads.subset_of(profiles[a].reads)
            &&& profiles[b].automata.subset_of(profiles[a].automata)
        }),
{
    let direct = program_effects(program, resolution);
    calls_are_statements(program, resolution, a, ss, b);
    callers_do_what_callees_do(direct, writes_of(), a, b);
    callers_do_what_callees_do(direct, reads_of(), a, b);
    effects_of_bodies(program.items@, resolution, program.items@, a, ss);
    let profiles = profiles_of(direct);
    assert forall|n: Seq<char>| profiles[b].automata.contains(n) implies profiles[
        a
    ].automata.contains(n) by {
        let f = choose|f: FieldRefView| #[trigger]
            profiles[b].writes.contains(f) && f.automaton == n;
        assert(profiles[a].writes.contains(f));
    }
}

/// A program is not extracted where an effect or an interrupt has an assignment
/// in its body, at whatever depth, to an automaton that it does not list or that
/// it forbids itself.
pub proof fn unlisted_writes_are_rejected(
    program: Program,
    resolution: Resolution,
    j: int,
    i: int,
    f: FieldRefView,
)
    requires
        0 <= j < program.items@.len(),
        match program.items@[j] {
            Item::Effect(d) => {
                &&& is_body(program.items@, CallableView::Effect(d.name@), d.body.stmts@)
                &&& 0 <= i < statements_of(d.body.stmts@).len()
                &&& is_write(
                    Scope { items: program.items@, resolution, owner: None },
                    statements_of(d.body.stmts@)[i],
                    f,
                )
                &&& !listed(d.mutates@, f.automaton) || listed(d.cannot_mutate@, f.automaton)
            },
            Item::Interrupt(d) => {
                &&& is_body(program.items@, CallableView::Interrupt(d.name@), d.body.stmts@)
                &&& 0 <= i < statements_of(d.body.stmts@).len()
                &&& is_write(
                    Scope { items: program.items@, resolution, owner: None },
                    statements_of(d.body.stmts@)[i],
                    f,
                )
                &&& !listed(d.mutates@, f.automaton)
            },
            _ => false,
        },
    ensures
        profiles_outcome(program, resolution) is Err,
{
    extracted_iff_all_keep_their_word(program, resolution);
    let profiles = profiles_of(program_effects(program, resolution));
    match program.items@[j] {
        Item::Effect(d) => {
            let id = CallableView::Effect(d.name@);
            assert(some_writes(
                scope_of(program.items@, resolution, id),
                statements_of(d.body.stmts@),
                f,
            ));
            profiles_count_the_body(program, resolution, id, d.body.stmts@, f);
        },
        Item::Interrupt(d) => {
            let id = CallableView::Interrupt(d.name@);
            assert(some_writes(
                scope_of(program.items@, resolution, id),
                statements_of(d.body.stmts@),
                f,
            ));
            profiles_count_the_body(program, resolution, id, d.body.stmts@, f);
        },
        _ => {},
    }
    if profiles_outcome(program, resolution) is Ok {
        assert(item_keeps_its_word(profiles, program.items@[j]));
    }
}

} // verus!
