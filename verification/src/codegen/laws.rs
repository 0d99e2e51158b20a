//! What holds of code generation as a whole.
use vstd::prelude::*;

use crate::ast::{
    AtomicKind, AutomatonDecl, Block, Expr, ExprKind, FieldAssign, Item, Param, Program, Stmt,
    StmtKind, TraitRef, TransitionDecl, TypeExpr,
};
use crate::codegen::error::{not_yet, CodegenErrorView};
use crate::codegen::irtype::{element_ir, written_ir, written_signed};
use crate::codegen::literal::count_value;
use crate::codegen::lowering::{
    any_has_return, array_pointer, assign_field, assign_fields, assign_opcode, atomic_entry,
    audit_marker, binary, body, call, callee_owner, callee_symbol, cast, destination, entry_fence,
    exit_sequence, expr, expr_ir, expr_signed, expr_unfold, exprs, fall_through, field_access,
    field_errors, field_load, field_store, flush, function, has_return, has_trait, index_load,
    index_store, indexed_field, insert_chain, item, items, leaving_fence, let_slot, let_value,
    local_assign, local_read, locate_all, lowered, module, module_header, mutate, mutate_short,
    name_of, noted, parameters, proc_call, put_entry, put_jump, put_op, put_store, raw_store,
    receiver, return_type, return_value, return_void, sigma_foot, sigma_head, snapshot,
    staged_intrinsics, state_read, state_structs, stmt, stmt_step, stmt_unfold, stmts, transition,
    transitions, unary, unchecked_cast, unchecked_load, unchecked_offset, unchecked_store, Typed,
};
use crate::codegen::registry::{
    declared_automaton, declares_transition, find_automaton, find_owner, has_transition,
    is_transition_of, tag_of, Env, LocationView,
};
use crate::codegen::state::{find_local, EmitState, LocalStorage, LocalView};
use crate::resolve::{BindingRef, CallContext, Resolution};
use crate::text::{contains, dec, decimal_reads_back, join, occurs_at};
use crate::types::Typing;

verus! {

// ─── Growth ────────────────────────────────────────────────────────────────

/// `b` starts with `a`.
pub open spec fn grows<A>(a: Seq<A>, b: Seq<A>) -> bool {
    a.len() <= b.len() && b.take(a.len() as int) == a
}

broadcast proof fn grows_by_more(a: Seq<char>, b: Seq<char>, c: Seq<char>)
    requires
        grows(a, b),
    ensures
        #[trigger] grows(a, b + c),
{
    assert((b + c).take(a.len() as int) =~= b.take(a.len() as int));
}

proof fn grows_same<A>(a: Seq<A>)
    ensures
        grows(a, a),
{
    assert(a.take(a.len() as int) =~= a);
}

proof fn grows_again<A>(a: Seq<A>, b: Seq<A>, c: Seq<A>)
    requires
        grows(a, b),
        grows(b, c),
    ensures
        grows(a, c),
{
    assert(c.take(a.len() as int) =~= c.take(b.len() as int).take(a.len() as int));
}

proof fn grows_by_push<A>(a: Seq<A>, b: Seq<A>, x: A)
    requires
        grows(a, b),
    ensures
        grows(a, b.push(x)),
{
    assert(b.push(x).take(a.len() as int) =~= b.take(a.len() as int));
}

/// Computing a value adds text and takes value names; nothing else changes.
#[verifier::opaque]
pub open spec fn computes(st: EmitState, t: EmitState) -> bool {
    &&& t == (EmitState { out: t.out, values: t.values, ..st })
    &&& grows(st.out, t.out)
    &&& st.values <= t.values
}

/// Running statements adds text, names, locals and errors, and may end or open
/// blocks. The enclosing function and the open loops stay the same.
#[verifier::opaque]
pub open spec fn runs(st: EmitState, t: EmitState) -> bool {
    &&& t == (EmitState {
        out: t.out,
        values: t.values,
        labels: t.labels,
        locals: t.locals,
        block: t.block,
        terminated: t.terminated,
        errors: t.errors,
        ..st
    })
    &&& grows(st.out, t.out)
    &&& st.values <= t.values
    &&& st.labels <= t.labels
    &&& grows(st.locals, t.locals)
    &&& grows(st.errors, t.errors)
}

/// Emitting items adds text and errors.
pub open spec fn emits(st: EmitState, t: EmitState) -> bool {
    grows(st.out, t.out) && grows(st.errors, t.errors)
}

proof fn computes_same(st: EmitState)
    ensures
        computes(st, st),
{
    reveal(computes);
    grows_same(st.out);
}

proof fn computes_again(a: EmitState, b: EmitState, c: EmitState)
    requires
        computes(a, b),
        computes(b, c),
    ensures
        computes(a, c),
{
    reveal(computes);
    grows_again(a.out, b.out, c.out);
}

proof fn runs_same(st: EmitState)
    ensures
        runs(st, st),
{
    reveal(runs);
    grows_same(st.out);
    grows_same(st.locals);
    grows_same(st.errors);
}

proof fn runs_again(a: EmitState, b: EmitState, c: EmitState)
    requires
        runs(a, b),
        runs(b, c),
    ensures
        runs(a, c),
{
    reveal(runs);
    grows_again(a.out, b.out, c.out);
    grows_again(a.locals, b.locals, c.locals);
    grows_again(a.errors, b.errors, c.errors);
}

proof fn computing_runs(st: EmitState, t: EmitState)
    requires
        computes(st, t),
    ensures
        runs(st, t),
{
    reveal(runs);
    reveal(computes);
    grows_same(st.locals);
    grows_same(st.errors);
}

proof fn fail_runs(st: EmitState, e: CodegenErrorView)
    ensures
        runs(st, st.fail(e)),
{
    reveal(runs);
    runs_same(st);
    grows_by_push(st.errors, st.errors, e);
}

proof fn emits_again(a: EmitState, b: EmitState, c: EmitState)
    requires
        emits(a, b),
        emits(b, c),
    ensures
        emits(a, c),
{
    grows_again(a.out, b.out, c.out);
    grows_again(a.errors, b.errors, c.errors);
}

// ─── Single steps ──────────────────────────────────────────────────────────

proof fn fields_compute(
    env: Env,
    st: EmitState,
    automaton: Seq<char>,
    global: Seq<char>,
    loc: LocationView,
    ty: Seq<char>,
    value: Seq<char>,
)
    ensures
        computes(st, field_load(st, automaton, loc, ty).0),
        computes(st, field_store(env, st, automaton, loc, ty, value)),
        computes(st, array_pointer(st, automaton, global, loc, ty).0),
{
    broadcast use grows_by_more;

    reveal(computes);
    computes_same(st);
}

proof fn elements_compute(
    env: Env,
    st: EmitState,
    automaton: Seq<char>,
    loc: LocationView,
    ty: Seq<char>,
    elem_ty: Seq<char>,
    index: Typed,
    value: Seq<char>,
)
    ensures
        computes(st, index_load(st, automaton, loc, ty, elem_ty, index).0),
        computes(st, index_store(env, st, automaton, loc, ty, elem_ty, index, value)),
{
    broadcast use grows_by_more;

    reveal(computes);
    computes_same(st);
}

proof fn reads_compute(env: Env, st: EmitState, automaton: Seq<char>, field: Seq<char>)
    ensures
        computes(st, field_access(env, st, automaton, field).0),
        computes(st, snapshot(env, st, automaton, field).0),
        computes(st, state_read(env, st, automaton).0),
        computes(st, local_read(st, automaton).0),
{
    broadcast use grows_by_more;

    reveal(computes);
    computes_same(st);
    match env.locate(automaton, field) {
        Ok((loc, ty)) => fields_compute(env, st, automaton, field, loc, ty, field),
        Err(_) => {},
    }
    if st.owner is Some {
        match env.locate(st.owner->0, field) {
            Ok((loc, ty)) => fields_compute(env, st, st.owner->0, field, loc, ty, field),
            Err(_) => {},
        }
    }
}

proof fn chain_computes(st: EmitState, agg_ty: Seq<char>, values: Seq<Typed>)
    ensures
        computes(st, insert_chain(st, agg_ty, values).0),
    decreases values.len(),
{
    broadcast use grows_by_more;

    reveal(computes);
    if values.len() == 0 {
        computes_same(st);
    } else {
        chain_computes(st, agg_ty, values.drop_last());
    }
}

proof fn marker_computes(st: EmitState, primitive: Seq<char>)
    ensures
        computes(st, audit_marker(st, primitive)),
{
    broadcast use grows_by_more;

    reveal(computes);
    computes_same(st);
}

proof fn operators_compute(
    env: Env,
    st: EmitState,
    e: Expr,
    a: Seq<char>,
    b: Seq<char>,
    v: Seq<char>,
    flag: bool,
    args: Seq<Typed>,
    n: Typed,
)
    ensures
        e.kind is Binary ==> computes(
            st,
            binary(env, st, e.kind->Binary_op, *e.kind->lhs, a, b).0,
        ),
        e.kind is Unary ==> computes(
            st,
            unary(env, st, e.kind->Unary_op, *e.kind->Unary_operand, v).0,
        ),
        computes(st, cast(st, a, b, flag, v).0),
        computes(st, call(env, st, e, v, args).0),
{
    broadcast use grows_by_more;

    reveal(computes);
    computes_same(st);
}

proof fn primitives_compute(
    st: EmitState,
    a: Seq<char>,
    b: Seq<char>,
    v: Seq<char>,
    flag: bool,
    n: Typed,
)
    ensures
        computes(st, unchecked_cast(st, a, b, flag, v).0),
        computes(st, unchecked_load(st, a, v, flag).0),
        computes(st, unchecked_store(st, a, b, v, flag)),
        computes(st, unchecked_offset(st, a, v, n).0),
{
    broadcast use grows_by_more;

    reveal(computes);
    computes_same(st);
    marker_computes(st, "unchecked_cast"@);
    marker_computes(st.take_value(), "volatile_load"@);
    marker_computes(st.take_value(), "unchecked_load"@);
    marker_computes(st, "volatile_store"@);
    marker_computes(st, "unchecked_store"@);
    marker_computes(st.take_value(), "unchecked_offset"@);
}

// ─── Expressions ───────────────────────────────────────────────────────────

/// Lowering an expression adds text and takes value names, and changes nothing
/// else: no local, no block, no error.
#[verifier::rlimit(60)]
#[verifier::spinoff_prover]
pub proof fn expressions_only_compute(env: Env, st: EmitState, e: Expr)
    ensures
        computes(st, expr(env, st, e).0),
    decreases e, 1nat,
{
    expr_unfold(env, st, e);
    computes_same(st);
    match e.kind {
        ExprKind::Path(segs) => {
            if segs@.len() == 1 {
                reads_compute(env, st, segs@[0]@, segs@[0]@);
            }
        },
        ExprKind::Paren(inner) => expressions_only_compute(env, st, *inner),
        ExprKind::Unary { op, operand } => {
            expressions_only_compute(env, st, *operand);
            if let (st1, Ok(v)) = expr(env, st, *operand) {
                operators_compute(env, st1, e, v, v, v, true, Seq::empty(), (v, v));
                computes_again(st, st1, unary(env, st1, op, *operand, v).0);
            }
        },
        ExprKind::Binary { op, lhs, rhs } => {
            expressions_only_compute(env, st, *lhs);
            if let (st1, Ok(l)) = expr(env, st, *lhs) {
                expressions_only_compute(env, st1, *rhs);
                computes_again(st, st1, expr(env, st1, *rhs).0);
                if let (st2, Ok(r)) = expr(env, st1, *rhs) {
                    operators_compute(env, st2, e, l, r, l, true, Seq::empty(), (l, l));
                    computes_again(st, st2, binary(env, st2, op, *lhs, l, r).0);
                }
            }
        },
        ExprKind::Call { callee, args } => {
            if let Some(name) = name_of(*callee) {
                lists_only_compute(env, st, args@);
                if let (st1, Ok(vs)) = exprs(env, st, args@) {
                    operators_compute(env, st1, e, name, name, name, true, vs, (name, name));
                    computes_again(st, st1, call(env, st1, e, name, vs).0);
                }
            }
        },
        ExprKind::FieldAccess { obj, field } => {
            match receiver(
                st,
                *obj,
                "Self.field outside a #transition body"@,
                "non-path receiver in FieldAccess (slice 3+ supports Auto.field / Self.field)"@,
            ) {
                Ok(automaton) => reads_compute(env, st, automaton, field@),
                Err(_) => {},
            }
        },
        ExprKind::Snapshot { automaton, field } => reads_compute(env, st, automaton@, field@),
        ExprKind::Index { obj, index } => {
            if let Ok((automaton, loc, ty, elem_ty)) = indexed_field(env, st, *obj) {
                expressions_only_compute(env, st, *index);
                if let (st1, Ok(i)) = expr(env, st, *index) {
                    let at = (expr_ir(env, st1.locals, *index), i);
                    elements_compute(env, st1, automaton, loc, ty, elem_ty, at, i);
                    computes_again(
                        st,
                        st1,
                        index_load(st1, automaton, loc, ty, elem_ty, at).0,
                    );
                }
            }
        },
        ExprKind::Tuple(elems) => {
            lists_only_compute(env, st, elems@);
            if let (st1, Ok(vs)) = exprs(env, st, elems@) {
                chain_computes(st1, expr_ir(env, st.locals, e), vs);
                computes_again(st, st1, insert_chain(st1, expr_ir(env, st.locals, e), vs).0);
            }
        },
        ExprKind::Array(elems) => {
            lists_only_compute(env, st, elems@);
            if let (st1, Ok(vs)) = exprs(env, st, elems@) {
                chain_computes(st1, expr_ir(env, st.locals, e), vs);
                computes_again(st, st1, insert_chain(st1, expr_ir(env, st.locals, e), vs).0);
            }
        },
        ExprKind::ArrayRepeat { value, count } => {
            if let Some(n) = count_value(*count) {
                expressions_only_compute(env, st, *value);
                if let (st1, Ok(v)) = expr(env, st, *value) {
                    let elem = (expr_ir(env, st1.locals, *value), v);
                    let vs = Seq::new(n, |i: int| elem);
                    chain_computes(st1, expr_ir(env, st.locals, e), vs);
                    computes_again(st, st1, insert_chain(st1, expr_ir(env, st.locals, e), vs).0);
                }
            }
        },
        ExprKind::Cast { value, ty } => {
            if let Ok(to) = written_ir(ty) {
                expressions_only_compute(env, st, *value);
                if let (st1, Ok(v)) = expr(env, st, *value) {
                    let from = expr_ir(env, st.locals, *value);
                    let signed = expr_signed(env, *value);
                    operators_compute(env, st1, e, from, to, v, signed, Seq::empty(), (v, v));
                    computes_again(st, st1, cast(st1, from, to, signed, v).0);
                }
            }
        },
        ExprKind::StateRead(name) => reads_compute(env, st, name@, name@),
        ExprKind::UncheckedLoad { ty, ptr } => {
            if let Ok(t) = written_ir(ty) {
                expressions_only_compute(env, st, *ptr);
                if let (st1, Ok(p)) = expr(env, st, *ptr) {
                    primitives_compute(st1, t, p, p, false, (p, p));
                    computes_again(st, st1, unchecked_load(st1, t, p, false).0);
                }
            }
        },
        ExprKind::VolatileLoad { ty, ptr } => {
            if let Ok(t) = written_ir(ty) {
                expressions_only_compute(env, st, *ptr);
                if let (st1, Ok(p)) = expr(env, st, *ptr) {
                    primitives_compute(st1, t, p, p, true, (p, p));
                    computes_again(st, st1, unchecked_load(st1, t, p, true).0);
                }
            }
        },
        ExprKind::UncheckedCast { from_ty, to_ty, value, .. } => {
            if let Ok(from) = written_ir(from_ty) {
                if let Ok(to) = written_ir(to_ty) {
                    expressions_only_compute(env, st, *value);
                    if let (st1, Ok(v)) = expr(env, st, *value) {
                        let signed = written_signed(from_ty);
                        primitives_compute(st1, from, to, v, signed, (v, v));
                        computes_again(st, st1, unchecked_cast(st1, from, to, signed, v).0);
                    }
                }
            }
        },
        ExprKind::UncheckedOffset { ty, ptr, n } => {
            if let Ok(t) = written_ir(ty) {
                expressions_only_compute(env, st, *ptr);
                if let (st1, Ok(p)) = expr(env, st, *ptr) {
                    expressions_only_compute(env, st1, *n);
                    computes_again(st, st1, expr(env, st1, *n).0);
                    if let (st2, Ok(k)) = expr(env, st1, *n) {
                        let count = (expr_ir(env, st1.locals, *n), k);
                        primitives_compute(st2, t, p, p, true, count);
                        computes_again(st, st2, unchecked_offset(st2, t, p, count).0);
                    }
                }
            }
        },
        _ => {},
    }
}

/// Lowering expressions in a row adds text and takes value names, and changes
/// nothing else.
pub proof fn lists_only_compute(env: Env, st: EmitState, es: Seq<Expr>)
    ensures
        computes(st, exprs(env, st, es).0),
    decreases es, 2nat,
{
    if es.len() == 0 {
        computes_same(st);
    } else {
        lists_only_compute(env, st, es.drop_last());
        if let (st1, Ok(vs)) = exprs(env, st, es.drop_last()) {
            expressions_only_compute(env, st1, es.last());
            computes_again(st, st1, expr(env, st1, es.last()).0);
        }
    }
}

// ─── Statements ────────────────────────────────────────────────────────────

proof fn exits_compute(env: Env, st: EmitState)
    ensures
        computes(st, exit_sequence(env, st)),
{
    broadcast use grows_by_more;

    reveal(computes);
    computes_same(st);
}

proof fn returns_run(env: Env, st: EmitState, v: Typed)
    ensures
        runs(st, return_void(env, st)),
        runs(st, return_value(env, st, v)),
{
    broadcast use grows_by_more;

    reveal(computes);
    reveal(runs);
    exits_compute(env, st);
    grows_same(st.locals);
    grows_same(st.errors);
}

proof fn lets_run(st: EmitState, name: Seq<char>, ty: Seq<char>, v: Seq<char>)
    ensures
        runs(st, let_value(st, name, ty, v)),
        runs(st, let_slot(st, name, ty, v)),
{
    broadcast use grows_by_more;

    reveal(runs);
    runs_same(st);
    let a = let_value(st, name, ty, v);
    let b = let_slot(st, name, ty, v);
    grows_by_push(st.locals, st.locals, a.locals.last());
    grows_by_push(st.locals, st.locals, b.locals.last());
}

proof fn noted_runs(st: EmitState, r: (EmitState, Result<(), CodegenErrorView>))
    requires
        computes(st, r.0),
    ensures
        runs(st, noted(r)),
{
    computing_runs(st, r.0);
    if let Err(x) = r.1 {
        fail_runs(r.0, x);
        runs_again(st, r.0, r.0.fail(x));
    }
}

proof fn assign_computes(
    env: Env,
    st: EmitState,
    automaton: Seq<char>,
    fa: FieldAssign,
    at: (LocationView, Seq<char>),
)
    ensures
        computes(st, assign_field(env, st, automaton, fa, at).0),
{
    expressions_only_compute(env, st, fa.value);
    if let (st1, Ok(v)) = expr(env, st, fa.value) {
        match fa.index {
            None => {
                fields_compute(env, st1, automaton, automaton, at.0, at.1, v);
                computes_again(st, st1, field_store(env, st1, automaton, at.0, at.1, v));
            },
            Some(index) => {
                if let Some(elem_ty) = element_ir(at.1) {
                    expressions_only_compute(env, st1, index);
                    computes_again(st, st1, expr(env, st1, index).0);
                    if let (st2, Ok(i)) = expr(env, st1, index) {
                        let ix = (expr_ir(env, st2.locals, index), i);
                        elements_compute(env, st2, automaton, at.0, at.1, elem_ty, ix, v);
                        computes_again(
                            st,
                            st2,
                            index_store(env, st2, automaton, at.0, at.1, elem_ty, ix, v),
                        );
                    }
                }
            },
        }
    }
}

proof fn assigns_compute(
    env: Env,
    st: EmitState,
    automaton: Seq<char>,
    assigns: Seq<FieldAssign>,
    at: Seq<(LocationView, Seq<char>)>,
)
    ensures
        computes(st, assign_fields(env, st, automaton, assigns, at).0),
    decreases assigns.len(),
{
    if assigns.len() == 0 {
        computes_same(st);
    } else {
        assigns_compute(env, st, automaton, assigns.drop_last(), at);
        if let (st1, Ok(_)) = assign_fields(env, st, automaton, assigns.drop_last(), at) {
            let place = at[assigns.len() - 1];
            assign_computes(env, st1, automaton, assigns.last(), place);
            computes_again(
                st,
                st1,
                assign_field(env, st1, automaton, assigns.last(), place).0,
            );
        }
    }
}

proof fn mutate_computes(env: Env, st: EmitState, automaton: Seq<char>, assigns: Seq<FieldAssign>)
    ensures
        computes(st, mutate(env, st, automaton, assigns).0),
{
    computes_same(st);
    if let Ok(at) = locate_all(env, automaton, assigns) {
        assigns_compute(env, st, automaton, assigns, at);
    }
}

proof fn op_computes(
    st: EmitState,
    op: Seq<char>,
    ty: Seq<char>,
    l: Seq<char>,
    r: Seq<char>,
)
    ensures
        computes(st, put_op(st.take_value(), st.next_value(), op, ty, l, r)),
{
    broadcast use grows_by_more;

    reveal(computes);
    computes_same(st);
}

proof fn mutate_short_computes(env: Env, st: EmitState, s: Stmt)
    requires
        s.kind is MutateShort,
    ensures
        computes(
            st,
            mutate_short(
                env,
                st,
                s.kind->MutateShort_automaton@,
                s.kind->MutateShort_field@,
                s.kind->MutateShort_op,
                s.kind->MutateShort_value,
            ).0,
        ),
{
    let automaton = s.kind->MutateShort_automaton@;
    let field = s.kind->MutateShort_field@;
    let op = s.kind->MutateShort_op;
    let value = s.kind->MutateShort_value;
    computes_same(st);
    if let Ok((loc, ty)) = env.locate(automaton, field) {
        expressions_only_compute(env, st, value);
        if let (st1, Ok(v)) = expr(env, st, value) {
            fields_compute(env, st1, automaton, automaton, loc, ty, v);
            computes_again(st, st1, field_store(env, st1, automaton, loc, ty, v));
            let (st2, cur) = field_load(st1, automaton, loc, ty);
            computes_again(st, st1, st2);
            let new = st2.next_value();
            let opcode = assign_opcode(op);
            let st3 = put_op(st2.take_value(), new, opcode, ty, cur, v);
            op_computes(st2, opcode, ty, cur, v);
            computes_again(st, st2, st3);
            fields_compute(env, st3, automaton, automaton, loc, ty, new);
            computes_again(st, st3, field_store(env, st3, automaton, loc, ty, new));
        }
    }
}

proof fn simple_statements_compute(
    env: Env,
    st: EmitState,
    s: Stmt,
    name: Seq<char>,
    args: Seq<Expr>,
)
    ensures
        computes(st, proc_call(env, st, s, name, args).0),
        computes(st, flush(env, st, name).0),
{
    broadcast use grows_by_more;

    lists_only_compute(env, st, args);
    reveal(computes);
    computes_same(st);
}

proof fn store_computes(st: EmitState, ty: Seq<char>, v: Seq<char>, ptr: Seq<char>)
    ensures
        computes(st, put_store(st, "store"@, ty, v, ptr)),
{
    broadcast use grows_by_more;

    reveal(computes);
    computes_same(st);
}

proof fn raw_statements_compute(
    env: Env,
    st: EmitState,
    ty: TypeExpr,
    ptr: Expr,
    value: Expr,
    volatile: bool,
    name: Seq<char>,
)
    ensures
        computes(st, raw_store(env, st, ty, ptr, value, volatile).0),
        computes(st, local_assign(env, st, name, value).0),
{
    computes_same(st);
    if let Ok(t) = written_ir(ty) {
        expressions_only_compute(env, st, ptr);
        if let (st1, Ok(p)) = expr(env, st, ptr) {
            expressions_only_compute(env, st1, value);
            computes_again(st, st1, expr(env, st1, value).0);
            if let (st2, Ok(v)) = expr(env, st1, value) {
                primitives_compute(st2, t, p, v, volatile, (p, p));
                computes_again(st, st2, unchecked_store(st2, t, p, v, volatile));
            }
        }
    }
    expressions_only_compute(env, st, value);
    if let (st1, Ok(v)) = expr(env, st, value) {
        if let Some(b) = find_local(st.locals, name) {
            store_computes(st1, b.ir_type, v, b.value);
            computes_again(st, st1, put_store(st1, "store"@, b.ir_type, v, b.value));
        }
    }
}

/// Blocks come and go, text and label numbers are added; nothing else changes.
#[verifier::opaque]
spec fn branches(st: EmitState, t: EmitState) -> bool {
    &&& t == (EmitState {
        out: t.out,
        labels: t.labels,
        block: t.block,
        terminated: t.terminated,
        ..st
    })
    &&& grows(st.out, t.out)
    &&& st.labels <= t.labels
}

proof fn branching_runs(st: EmitState, t: EmitState)
    requires
        branches(st, t),
    ensures
        runs(st, t),
{
    reveal(runs);
    reveal(branches);
    grows_same(st.locals);
    grows_same(st.errors);
}

proof fn heads_branch(
    st: EmitState,
    id: Seq<char>,
    ty: Seq<char>,
    signed: bool,
    inclusive: bool,
    lo: Seq<char>,
    hi: Seq<char>,
)
    ensures
        branches(st, sigma_head(st.take_label(), id, ty, signed, inclusive, lo, hi)),
        sigma_head(st.take_label(), id, ty, signed, inclusive, lo, hi).locals == st.locals,
        sigma_head(st.take_label(), id, ty, signed, inclusive, lo, hi).loops == st.loops,
{
    broadcast use grows_by_more;

    reveal(branches);
    grows_same(st.out);
}

proof fn feet_branch(st: EmitState, id: Seq<char>, ty: Seq<char>, signed: bool)
    ensures
        branches(st, sigma_foot(st, id, ty, signed)),
{
    broadcast use grows_by_more;

    reveal(branches);
    grows_same(st.out);
}

proof fn forks_branch(st: EmitState, c: Seq<char>, a: Seq<char>, b: Seq<char>)
    ensures
        branches(
            st,
            st.take_label().put("  br i1 "@).put(c).put(", label %"@).put(a).put(
                ", label %"@,
            ).put(b).put("\n"@).start_block(a),
        ),
{
    broadcast use grows_by_more;

    reveal(branches);
    grows_same(st.out);
}

proof fn joins_branch(st: EmitState, label: Seq<char>)
    ensures
        branches(st, fall_through(st, label)),
        branches(st, st.start_block(label)),
        branches(st, put_jump(st, label).terminate()),
{
    broadcast use grows_by_more;

    reveal(branches);
    grows_same(st.out);
}

proof fn branching_keeps_locals(st: EmitState, t: EmitState)
    requires
        branches(st, t),
    ensures
        t.locals == st.locals,
        t.loops == st.loops,
{
    reveal(branches);
}

/// Leaving a scope drops exactly the locals that came into it.
proof fn scope_closes(outer: EmitState, inner: EmitState, done: EmitState)
    requires
        runs(inner, done),
        grows(outer.locals, inner.locals),
    ensures
        done.unbind(outer.locals.len()).locals == outer.locals,
        done.loops == inner.loops,
        done.unbind(outer.locals.len()) == (EmitState { locals: outer.locals, ..done }),
{
    reveal(runs);
    grows_again(outer.locals, inner.locals, done.locals);
    assert(done.locals.take(outer.locals.len() as int) =~= outer.locals);
    if done.locals.len() == outer.locals.len() {
        assert(done.locals.take(outer.locals.len() as int) =~= done.locals);
    }
}

/// A loop from the branch into it to the block behind it.
proof fn loop_runs(
    st: EmitState,
    head: EmitState,
    inside: EmitState,
    done: EmitState,
    local: LocalView,
    a: Seq<char>,
    b: Seq<char>,
)
    requires
        branches(st, head),
        inside == head.bind(local).open_loop(a, b),
        runs(inside, done),
    ensures
        runs(st, done.unbind(head.locals.len()).close_loop()),
        done.unbind(head.locals.len()).close_loop().locals == st.locals,
        done.unbind(head.locals.len()).close_loop().loops == st.loops,
{
    branching_keeps_locals(st, head);
    grows_same(head.locals);
    grows_by_push(head.locals, head.locals, local);
    scope_closes(head, inside, done);
    let t = done.unbind(head.locals.len()).close_loop();
    assert(head.loops.push((a, b)).drop_last() =~= head.loops);
    reveal(runs);
    reveal(branches);
    grows_again(st.out, head.out, done.out);
    grows_same(st.locals);
    grows_same(st.errors);
}

/// Lowering a statement adds text, names, locals and errors. The enclosing
/// function, its pending exit duties and the open loops stay the same.
#[verifier::rlimit(60)]
#[verifier::spinoff_prover]
pub proof fn statements_only_run(env: Env, st: EmitState, s: Stmt)
    ensures
        runs(st, stmt(env, st, s)),
        s.kind is If || s.kind is Sigma ==> stmt(env, st, s).locals == st.locals,
    decreases s, 1nat,
{
    stmt_unfold(env, st, s);
    runs_same(st);
    match s.kind {
        StmtKind::Return(Some(e)) => {
            expressions_only_compute(env, st, e);
            let (st1, r) = expr(env, st, e);
            computing_runs(st, st1);
            match r {
                Ok(v) => {
                    let t = (expr_ir(env, st.locals, e), v);
                    returns_run(env, st1, t);
                    runs_again(st, st1, return_value(env, st1, t));
                },
                Err(x) => {
                    fail_runs(st1, x);
                    runs_again(st, st1, st1.fail(x));
                },
            }
        },
        StmtKind::Return(None) => returns_run(env, st, (Seq::empty(), Seq::empty())),
        StmtKind::Let { mutable, name, ty, value } => let_runs(env, st, s),
        StmtKind::LetShort { name, value } => {
            let ir = expr_ir(env, st.locals, value);
            expressions_only_compute(env, st, value);
            let (st1, r) = expr(env, st, value);
            computing_runs(st, st1);
            match r {
                Ok(v) => {
                    lets_run(st1, name@, ir, v);
                    runs_again(st, st1, let_value(st1, name@, ir, v));
                },
                Err(x) => {
                    fail_runs(st1, x);
                    runs_again(st, st1, st1.fail(x));
                },
            }
        },
        StmtKind::Expr(e) => {
            expressions_only_compute(env, st, e);
            let (st1, r) = expr(env, st, e);
            computing_runs(st, st1);
            if let Err(x) = r {
                fail_runs(st1, x);
                runs_again(st, st1, st1.fail(x));
            }
        },
        StmtKind::Mutate { automaton, assigns } => {
            mutate_computes(env, st, automaton@, assigns@);
            noted_runs(st, mutate(env, st, automaton@, assigns@));
        },
        StmtKind::MutateShort { automaton, field, op, value } => {
            mutate_short_computes(env, st, s);
            noted_runs(st, mutate_short(env, st, automaton@, field@, op, value));
        },
        StmtKind::ProcCall { name, args } => {
            simple_statements_compute(env, st, s, name@, args@);
            noted_runs(st, proc_call(env, st, s, name@, args@));
        },
        StmtKind::UncheckedStore { ty, ptr, value } => {
            raw_statements_compute(env, st, ty, ptr, value, false, Seq::empty());
            noted_runs(st, raw_store(env, st, ty, ptr, value, false));
        },
        StmtKind::VolatileStore { ty, ptr, value } => {
            raw_statements_compute(env, st, ty, ptr, value, true, Seq::empty());
            noted_runs(st, raw_store(env, st, ty, ptr, value, true));
        },
        StmtKind::Sigma { .. } => sigma_runs(env, st, s),
        StmtKind::If { .. } => if_runs(env, st, s),
        StmtKind::Break => {
            if st.loops.len() > 0 {
                joins_branch(st, st.loops.last().1);
                branching_runs(st, put_jump(st, st.loops.last().1).terminate());
            } else {
                fail_runs(
                    st,
                    not_yet(
                        "`break` outside a sigma loop (resolver should have caught this; please file a bug)"@,
                    ),
                );
            }
        },
        StmtKind::Continue => {
            if st.loops.len() > 0 {
                joins_branch(st, st.loops.last().0);
                branching_runs(st, put_jump(st, st.loops.last().0).terminate());
            } else {
                fail_runs(
                    st,
                    not_yet(
                        "`continue` outside a sigma loop (resolver should have caught this; please file a bug)"@,
                    ),
                );
            }
        },
        StmtKind::Flush { automaton } => {
            simple_statements_compute(env, st, s, automaton@, Seq::empty());
            noted_runs(st, flush(env, st, automaton@));
        },
        StmtKind::Assign { name, value } => {
            assign_local_computes(env, st, name@, value);
            noted_runs(st, local_assign(env, st, name@, value));
        },
    }
}

proof fn assign_local_computes(env: Env, st: EmitState, name: Seq<char>, value: Expr)
    ensures
        computes(st, local_assign(env, st, name, value).0),
{
    computes_same(st);
    expressions_only_compute(env, st, value);
    if let (st1, Ok(v)) = expr(env, st, value) {
        if let Some(b) = find_local(st.locals, name) {
            store_computes(st1, b.ir_type, v, b.value);
            computes_again(st, st1, put_store(st1, "store"@, b.ir_type, v, b.value));
        }
    }
}

proof fn let_runs(env: Env, st: EmitState, s: Stmt)
    requires
        s.kind is Let,
    ensures
        runs(st, stmt_step(env, st, s)),
{
    runs_same(st);
    match s.kind {
        StmtKind::Let { mutable, name, ty, value } => {
            let (st0, ir) = match ty {
                Some(t) => match written_ir(t) {
                    Ok(i) => (st, i),
                    Err(x) => (st.fail(x), "i32"@),
                },
                None => (st, expr_ir(env, st.locals, value)),
            };
            if let Some(t) = ty {
                if let Err(x) = written_ir(t) {
                    fail_runs(st, x);
                }
            }
            assert(runs(st, st0));
            expressions_only_compute(env, st0, value);
            let (st1, r) = expr(env, st0, value);
            computing_runs(st0, st1);
            runs_again(st, st0, st1);
            match r {
                Ok(v) => {
                    lets_run(st1, name@, ir, v);
                    runs_again(st, st1, let_slot(st1, name@, ir, v));
                    runs_again(st, st1, let_value(st1, name@, ir, v));
                },
                Err(x) => {
                    fail_runs(st1, x);
                    runs_again(st, st1, st1.fail(x));
                },
            }
        },
        _ => {},
    }
}

proof fn sigma_runs(env: Env, st: EmitState, s: Stmt)
    requires
        s.kind is Sigma,
    ensures
        runs(st, stmt_step(env, st, s)),
        stmt_step(env, st, s).locals == st.locals,
    decreases s, 0nat,
{
    runs_same(st);
    match s.kind {
        StmtKind::Sigma { var, source, body } => match source.kind {
            ExprKind::Range { lo, hi, inclusive } => {
                let ty = expr_ir(env, st.locals, *lo);
                let signed = expr_signed(env, *lo);
                expressions_only_compute(env, st, *lo);
                let (st1, l) = expr(env, st, *lo);
                computing_runs(st, st1);
                computing_keeps_locals(st, st1);
                match l {
                    Err(x) => {
                        fail_runs(st1, x);
                        runs_again(st, st1, st1.fail(x));
                    },
                    Ok(l) => {
                        expressions_only_compute(env, st1, *hi);
                        let (st2, h) = expr(env, st1, *hi);
                        computing_runs(st1, st2);
                        computing_keeps_locals(st1, st2);
                        runs_again(st, st1, st2);
                        match h {
                            Err(x) => {
                                fail_runs(st2, x);
                                runs_again(st, st2, st2.fail(x));
                            },
                            Ok(h) => {
                                let id = dec(st2.labels);
                                let head = sigma_head(
                                    st2.take_label(),
                                    id,
                                    ty,
                                    signed,
                                    inclusive,
                                    l,
                                    h,
                                );
                                heads_branch(st2, id, ty, signed, inclusive, l, h);
                                let local = LocalView {
                                    name: var@,
                                    value: "%sigma.i."@ + id,
                                    ir_type: ty,
                                    storage: LocalStorage::Ssa,
                                };
                                let next = "sigma.continue."@ + id;
                                let exit = "sigma.exit."@ + id;
                                let inside = head.bind(local).open_loop(next, exit);
                                let done = stmts(env, inside, body.stmts@);
                                rows_only_run(env, inside, body.stmts@);
                                loop_runs(st2, head, inside, done, local, next, exit);
                                let closed = done.unbind(head.locals.len()).close_loop();
                                feet_branch(closed, id, ty, signed);
                                let foot = sigma_foot(closed, id, ty, signed);
                                branching_runs(closed, foot);
                                branching_keeps_locals(closed, foot);
                                runs_again(st2, closed, foot);
                                runs_again(st, st2, foot);
                            },
                        }
                    },
                }
            },
            _ => fail_runs(
                st,
                not_yet(
                    "sigma over a non-range source (array source needs the slice-indexing slice)"@,
                ),
            ),
        },
        _ => {},
    }
}

proof fn computing_keeps_locals(st: EmitState, t: EmitState)
    requires
        computes(st, t),
    ensures
        t.locals == st.locals,
{
    reveal(computes);
}

/// A block of a branch, from its label to the jump behind it.
proof fn arm_runs(env: Env, st: EmitState, ss: Seq<Stmt>, exit: Seq<char>)
    requires
        runs(st, stmts(env, st, ss)),
    ensures
        runs(st, fall_through(stmts(env, st, ss).unbind(st.locals.len()), exit)),
        fall_through(stmts(env, st, ss).unbind(st.locals.len()), exit).locals == st.locals,
{
    let done = stmts(env, st, ss);
    grows_same(st.locals);
    scope_closes(st, st, done);
    let closed = done.unbind(st.locals.len());
    assert(runs(st, closed)) by {
        reveal(runs);
    }
    joins_branch(closed, exit);
    let t = fall_through(closed, exit);
    branching_runs(closed, t);
    branching_keeps_locals(closed, t);
    runs_again(st, closed, t);
}

proof fn if_runs(env: Env, st: EmitState, s: Stmt)
    requires
        s.kind is If,
    ensures
        runs(st, stmt_step(env, st, s)),
        stmt_step(env, st, s).locals == st.locals,
    decreases s, 0nat,
{
    match s.kind {
        StmtKind::If { cond, then_block, else_block } => {
            expressions_only_compute(env, st, cond);
            let (st1, c) = expr(env, st, cond);
            computing_runs(st, st1);
            computing_keeps_locals(st, st1);
            match c {
                Err(x) => {
                    fail_runs(st1, x);
                    runs_again(st, st1, st1.fail(x));
                },
                Ok(c) => {
                    let id = dec(st1.labels);
                    let then_label = "if.then."@ + id;
                    let else_label = "if.else."@ + id;
                    let exit_label = "if.exit."@ + id;
                    let false_label = if else_block is Some {
                        else_label
                    } else {
                        exit_label
                    };
                    let st2 = st1.take_label().put("  br i1 "@).put(c).put(", label %"@).put(
                        then_label,
                    ).put(", label %"@).put(false_label).put("\n"@).start_block(then_label);
                    forks_branch(st1, c, then_label, false_label);
                    branching_runs(st1, st2);
                    branching_keeps_locals(st1, st2);
                    runs_again(st, st1, st2);
                    rows_only_run(env, st2, then_block.stmts@);
                    arm_runs(env, st2, then_block.stmts@, exit_label);
                    let st3 = fall_through(
                        stmts(env, st2, then_block.stmts@).unbind(st2.locals.len()),
                        exit_label,
                    );
                    runs_again(st, st2, st3);
                    let st4 = match else_block {
                        None => st3,
                        Some(b) => {
                            let in_else = st3.start_block(else_label);
                            fall_through(
                                stmts(env, in_else, b.stmts@).unbind(in_else.locals.len()),
                                exit_label,
                            )
                        },
                    };
                    if let Some(b) = else_block {
                        let in_else = st3.start_block(else_label);
                        joins_branch(st3, else_label);
                        branching_runs(st3, in_else);
                        branching_keeps_locals(st3, in_else);
                        runs_again(st, st3, in_else);
                        rows_only_run(env, in_else, b.stmts@);
                        arm_runs(env, in_else, b.stmts@, exit_label);
                        runs_again(st, in_else, st4);
                    }
                    joins_branch(st4, exit_label);
                    branching_runs(st4, st4.start_block(exit_label));
                    branching_keeps_locals(st4, st4.start_block(exit_label));
                    runs_again(st, st4, st4.start_block(exit_label));
                },
            }
        },
        _ => {},
    }
}

/// Lowering statements in a row adds text, names, locals and errors, and leaves
/// the enclosing function and the open loops as they are.
pub proof fn rows_only_run(env: Env, st: EmitState, ss: Seq<Stmt>)
    ensures
        runs(st, stmts(env, st, ss)),
    decreases ss, 2nat,
{
    if ss.len() == 0 {
        runs_same(st);
    } else {
        rows_only_run(env, st, ss.drop_last());
        let st1 = stmts(env, st, ss.drop_last());
        if !st1.terminated {
            statements_only_run(env, st1, ss.last());
            runs_again(st, st1, stmt(env, st1, ss.last()));
        }
    }
}

// ─── Functions ─────────────────────────────────────────────────────────────

/// What follows a terminator in a block is left out.
pub proof fn dead_statements_are_left_out(env: Env, st: EmitState, ss: Seq<Stmt>)
    requires
        st.terminated,
    ensures
        stmts(env, st, ss) == st,
    decreases ss.len(),
{
    if ss.len() > 0 {
        dead_statements_are_left_out(env, st, ss.drop_last());
    }
}

/// Every function body ends in a terminator.
pub proof fn bodies_end_in_a_terminator(env: Env, st: EmitState, b: Block, ret_ty: Seq<char>)
    ensures
        body(env, st, b, ret_ty).terminated,
{
}

/// What is due before a return stays due, and unsafe primitives stay audited
/// or not, all through a body.
pub proof fn duties_last_through_a_body(env: Env, st: EmitState, ss: Seq<Stmt>)
    ensures
        ({
            let t = stmts(env, st, ss);
            &&& t.exit_fence == st.exit_fence
            &&& t.tag_write == st.tag_write
            &&& t.unmask == st.unmask
            &&& t.audited == st.audited
            &&& t.owner == st.owner
            &&& t.loops == st.loops
        }),
{
    rows_only_run(env, st, ss);
    reveal(runs);
}

/// Outside the transitions of audited automatons no primitive is marked.
pub proof fn unaudited_code_is_not_marked(st: EmitState, primitive: Seq<char>)
    requires
        st.audited is None,
    ensures
        audit_marker(st, primitive) == st,
{
}

/// Two values of a function with different numbers have different names.
pub proof fn value_names_differ(a: EmitState, b: EmitState)
    requires
        a.values != b.values,
    ensures
        a.next_value() != b.next_value(),
{
    let max = if a.values < b.values {
        b.values
    } else {
        a.values
    };
    decimal_reads_back(a.values, max);
    decimal_reads_back(b.values, max);
    let k = "%tmp."@.len() as int;
    assert(a.next_value().skip(k) =~= dec(a.values));
    assert(b.next_value().skip(k) =~= dec(b.values));
}

// ─── Automatons ────────────────────────────────────────────────────────────

/// An automaton is found under its own name.
pub proof fn automatons_are_found_by_name(items: Seq<Item>, name: Seq<char>)
    ensures
        find_automaton(items, name) is Some ==> find_automaton(items, name)->0.name == name,
    decreases items.len(),
{
    if items.len() > 0 {
        automatons_are_found_by_name(items.drop_last(), name);
    }
}

/// Writes to a staged automaton go to its shadow, all other writes to the live
/// state.
pub proof fn staged_writes_go_to_the_shadow(env: Env, name: Seq<char>)
    ensures
        env.write_global(name) == match env.automaton(name) {
            Some(a) => if a.is_staged && !a.is_register_block {
                "@"@ + name + ".shadow"@
            } else {
                "@"@ + name + ".state"@
            },
            None => "@"@ + name + ".state"@,
        },
{
    automatons_are_found_by_name(env.items, name);
}

// ─── Modules ───────────────────────────────────────────────────────────────

proof fn runs_emit(st: EmitState, t: EmitState)
    requires
        runs(st, t),
    ensures
        emits(st, t),
{
    reveal(runs);
}

proof fn bodies_emit(env: Env, st: EmitState, b: Block, ret_ty: Seq<char>)
    ensures
        emits(st, body(env, st, b, ret_ty)),
{
    broadcast use grows_by_more;

    rows_only_run(env, st, b.stmts@);
    let st1 = stmts(env, st, b.stmts@);
    returns_run(env, st1, (Seq::empty(), Seq::empty()));
    runs_again(st, st1, return_void(env, st1));
    runs_emit(st, return_void(env, st1));
    runs_emit(st, st1);
    let t = body(env, st, b, ret_ty);
    if t.errors.len() > st1.errors.len() {
        grows_by_push(st.errors, st1.errors, t.errors.last());
    }
}

proof fn parameters_emit(st: EmitState, params: Seq<Param>)
    ensures
        emits(st, parameters(st, params).0),
    decreases params.len(),
{
    grows_same(st.out);
    grows_same(st.errors);
    if params.len() > 0 {
        parameters_emit(st, params.drop_last());
    }
}

proof fn entries_emit(st: EmitState, fence: Option<Seq<char>>, atomic: Option<AtomicKind>)
    ensures
        emits(st, atomic_entry(put_entry(st, fence), atomic)),
{
    broadcast use grows_by_more;

    grows_same(st.out);
    grows_same(st.errors);
    let st1 = put_entry(st, fence);
    let t = atomic_entry(st1, atomic);
    if t.errors.len() > st.errors.len() {
        grows_by_push(st.errors, st.errors, t.errors.last());
    }
}

proof fn functions_emit(
    env: Env,
    st: EmitState,
    name: Seq<char>,
    params: Seq<Param>,
    ret: Option<TypeExpr>,
    section: Seq<char>,
    traits: Seq<TraitRef>,
    atomic: Option<AtomicKind>,
    b: Block,
)
    ensures
        emits(st, function(env, st, name, params, ret, section, traits, atomic, b)),
{
    broadcast use grows_by_more;

    grows_same(st.out);
    grows_same(st.errors);
    let (st1, ret_ty) = return_type(st.reset(), ret);
    if let Some(t) = ret {
        if let Err(x) = written_ir(t) {
            grows_by_push(st.errors, st.errors, x);
        }
    }
    assert(emits(st, st1));
    parameters_emit(st1, params);
    let (st2, r) = parameters(st1, params);
    emits_again(st, st1, st2);
    match r {
        Err(x) => grows_by_push(st.errors, st2.errors, x),
        Ok(parts) => {
            let st3 = st2.with_exit_fence(leaving_fence(traits)).put("define "@).put(ret_ty).put(
                " @"@,
            ).put(name).put("("@).put(join(parts)).put(")"@).put(section).put(" {\n"@);
            assert(emits(st, st3));
            let fence = entry_fence(traits);
            let st4 = atomic_entry(put_entry(st3, fence), atomic);
            entries_emit(st3, fence, atomic);
            emits_again(st, st3, st4);
            bodies_emit(env, st4, b, ret_ty);
            emits_again(st, st4, body(env, st4, b, ret_ty));
        },
    }
}

proof fn transition_emits(env: Env, st: EmitState, owner: Seq<char>, t: TransitionDecl)
    ensures
        emits(st, transition(env, st, owner, t)),
{
    broadcast use grows_by_more;

    grows_same(st.out);
    grows_same(st.errors);
    let st0 = st.reset().with_owner(Some(owner));
    let st1 = match env.automaton(owner) {
        Some(a) if a.is_audited => st0.with_audited(Some(owner)),
        _ => st0,
    };
    let before = st1.with_exit_fence(leaving_fence(t.trait_list@));
    let (st2, tag) = destination(env, before, owner, t.destination);
    if st2.errors.len() > st.errors.len() {
        grows_by_push(st.errors, st.errors, st2.errors.last());
    }
    assert(emits(st, st2));
    let st3 = st2.with_tag_write(tag).put("define void @"@).put(owner).put("_"@).put(
        t.name@,
    ).put("() {\n"@);
    assert(emits(st, st3));
    let fence = entry_fence(t.trait_list@);
    let st4 = atomic_entry(put_entry(st3, fence), t.atomic);
    entries_emit(st3, fence, t.atomic);
    emits_again(st, st3, st4);
    bodies_emit(env, st4, t.body, "void"@);
    emits_again(st, st4, body(env, st4, t.body, "void"@));
}

proof fn transitions_emit(env: Env, st: EmitState, owner: Seq<char>, ts: Seq<TransitionDecl>)
    ensures
        emits(st, transitions(env, st, owner, ts)),
    decreases ts.len(),
{
    if ts.len() == 0 {
        grows_same(st.out);
        grows_same(st.errors);
    } else {
        transitions_emit(env, st, owner, ts.drop_last());
        let st1 = transitions(env, st, owner, ts.drop_last());
        transition_emits(env, st1, owner, ts.last());
        emits_again(st, st1, transition(env, st1, owner, ts.last()));
    }
}

proof fn field_errors_emit(st: EmitState, d: AutomatonDecl, n: nat)
    ensures
        emits(st, field_errors(st, d, n)),
    decreases n,
{
    if n == 0 {
        grows_same(st.out);
        grows_same(st.errors);
    } else {
        field_errors_emit(st, d, (n - 1) as nat);
        let st1 = field_errors(st, d, (n - 1) as nat);
        if let Err(x) = written_ir(d.fields@[n - 1].ty) {
            grows_by_push(st.errors, st1.errors, x);
        }
    }
}

proof fn item_emits(env: Env, st: EmitState, i: Item)
    ensures
        emits(st, item(env, st, i)),
{
    grows_same(st.out);
    grows_same(st.errors);
    match i {
        Item::Fn(d) => functions_emit(
            env,
            st,
            d.name@,
            d.params@,
            d.return_type,
            ""@,
            Seq::empty(),
            None,
            d.body,
        ),
        Item::Effect(d) => functions_emit(
            env,
            st,
            d.name@,
            d.params@,
            d.return_type,
            ""@,
            d.trait_list@,
            d.atomic,
            d.body,
        ),
        Item::Interrupt(d) => functions_emit(
            env,
            st,
            d.name@,
            d.params@,
            d.return_type,
            " section \".interrupts\""@,
            d.trait_list@,
            d.atomic,
            d.body,
        ),
        Item::Automaton(d) => {
            field_errors_emit(st, d, d.fields@.len());
            let st1 = field_errors(st, d, d.fields@.len());
            transitions_emit(env, st1, d.name@, d.transitions@);
            emits_again(st, st1, transitions(env, st1, d.name@, d.transitions@));
        },
        _ => {},
    }
}

/// Emitting items adds text and errors and takes none back.
pub proof fn items_only_add(env: Env, st: EmitState, is: Seq<Item>)
    ensures
        emits(st, items(env, st, is)),
    decreases is.len(),
{
    if is.len() == 0 {
        grows_same(st.out);
        grows_same(st.errors);
    } else {
        items_only_add(env, st, is.drop_last());
        let st1 = items(env, st, is.drop_last());
        item_emits(env, st1, is.last());
        emits_again(st, st1, item(env, st1, is.last()));
    }
}

proof fn structs_emit(env: Env, st: EmitState, is: Seq<Item>)
    ensures
        emits(st, state_structs(env, st, is)),
    decreases is.len(),
{
    broadcast use grows_by_more;

    if is.len() == 0 {
        grows_same(st.out);
        grows_same(st.errors);
    } else {
        structs_emit(env, st, is.drop_last());
    }
}

/// The text of a module starts with the lines that name it.
pub proof fn modules_start_with_their_name(
    program: Program,
    resolution: Resolution,
    typing: Typing,
    name: Seq<char>,
)
    ensures
        match lowered(program, resolution, typing, name) {
            Ok(text) => grows(module_header(EmitState::initial(), name).out, text),
            Err(errors) => errors.len() > 0,
        },
{
    broadcast use grows_by_more;

    let env = Env { items: program.items@, resolution, typing };
    let head = module_header(EmitState::initial(), name);
    structs_emit(env, head, env.items);
    let st1 = state_structs(env, head, env.items);
    let st2 = staged_intrinsics(st1, env.items);
    assert(emits(head, st2));
    items_only_add(env, st2, env.items);
    emits_again(head, st2, module(env, name));
}

// ─── Definitions ───────────────────────────────────────────────────────────

proof fn text_stays(before: Seq<char>, after: Seq<char>, part: Seq<char>)
    requires
        grows(before, after),
        contains(before, part),
    ensures
        contains(after, part),
{
    let i = choose|i: int| occurs_at(before, part, i);
    assert(after.subrange(i, i + part.len()) =~= before.subrange(i, i + part.len()));
    assert(occurs_at(after, part, i));
}

proof fn text_ends_in(before: Seq<char>, part: Seq<char>)
    ensures
        contains(before + part, part),
{
    let s = before + part;
    assert(s.subrange(before.len() as int, s.len() as int) =~= part);
    assert(occurs_at(s, part, before.len() as int));
}

/// The declarations of parameters whose types have an IR type.
pub open spec fn parameter_texts(params: Seq<Param>) -> Seq<Seq<char>> {
    Seq::new(
        params.len(),
        |i: int| written_ir(params[i].ty)->Ok_0 + " %"@ + params[i].name@,
    )
}

/// The line that opens a function.
pub open spec fn opening(
    name: Seq<char>,
    params: Seq<Param>,
    ret: Option<TypeExpr>,
    section: Seq<char>,
) -> Seq<char> {
    "define "@ + (match ret {
        None => "void"@,
        Some(t) => written_ir(t)->Ok_0,
    }) + " @"@ + name + "("@ + join(parameter_texts(params)) + ")"@ + section + " {\n"@
}

/// The line that opens the function of a transition.
pub open spec fn transition_opening(owner: Seq<char>, name: Seq<char>) -> Seq<char> {
    "define void @"@ + owner + "_"@ + name + "() {\n"@
}

/// The text opens every function that the item stands for.
pub open spec fn defines(text: Seq<char>, i: Item) -> bool {
    match i {
        Item::Fn(d) => contains(text, opening(d.name@, d.params@, d.return_type, ""@)),
        Item::Effect(d) => contains(text, opening(d.name@, d.params@, d.return_type, ""@)),
        Item::Interrupt(d) => contains(
            text,
            opening(d.name@, d.params@, d.return_type, " section \".interrupts\""@),
        ),
        Item::Automaton(d) => forall|k: int|
            0 <= k < d.transitions@.len() ==> contains(
                text,
                transition_opening(d.name@, (#[trigger] d.transitions@[k]).name@),
            ),
        _ => true,
    }
}

proof fn parameters_without_errors(st: EmitState, params: Seq<Param>)
    requires
        parameters(st, params).1 is Ok,
    ensures
        parameters(st, params).1->Ok_0 =~= parameter_texts(params),
    decreases params.len(),
{
    if params.len() > 0 {
        let front = params.drop_last();
        parameters_without_errors(st, front);
        let texts = parameter_texts(params);
        assert(texts =~= parameter_texts(front).push(texts.last()));
    }
}

proof fn functions_are_defined(
    env: Env,
    st: EmitState,
    name: Seq<char>,
    params: Seq<Param>,
    ret: Option<TypeExpr>,
    section: Seq<char>,
    traits: Seq<TraitRef>,
    atomic: Option<AtomicKind>,
    b: Block,
)
    requires
        function(env, st, name, params, ret, section, traits, atomic, b).errors.len() == 0,
    ensures
        contains(
            function(env, st, name, params, ret, section, traits, atomic, b).out,
            opening(name, params, ret, section),
        ),
{
    broadcast use grows_by_more;

    let (st1, ret_ty) = return_type(st.reset(), ret);
    parameters_emit(st1, params);
    let (st2, r) = parameters(st1, params);
    assert(r is Ok);
    parameters_without_errors(st1, params);
    let st3 = st2.with_exit_fence(leaving_fence(traits)).put("define "@).put(ret_ty).put(
        " @"@,
    ).put(name).put("("@).put(join(r->Ok_0)).put(")"@).put(section).put(" {\n"@);
    let fence = entry_fence(traits);
    let st4 = atomic_entry(put_entry(st3, fence), atomic);
    entries_emit(st3, fence, atomic);
    bodies_emit(env, st4, b, ret_ty);
    let done = body(env, st4, b, ret_ty);
    emits_again(st3, st4, done);
    assert(ret is Some ==> written_ir(ret->0) is Ok);
    assert(st3.out =~= st2.out + opening(name, params, ret, section));
    text_ends_in(st2.out, opening(name, params, ret, section));
    text_stays(
        st3.out,
        function(env, st, name, params, ret, section, traits, atomic, b).out,
        opening(name, params, ret, section),
    );
}

proof fn transition_is_defined(env: Env, st: EmitState, owner: Seq<char>, t: TransitionDecl)
    ensures
        contains(transition(env, st, owner, t).out, transition_opening(owner, t.name@)),
{
    broadcast use grows_by_more;

    let st0 = st.reset().with_owner(Some(owner));
    let st1 = match env.automaton(owner) {
        Some(a) if a.is_audited => st0.with_audited(Some(owner)),
        _ => st0,
    };
    let before = st1.with_exit_fence(leaving_fence(t.trait_list@));
    let (st2, tag) = destination(env, before, owner, t.destination);
    let st3 = st2.with_tag_write(tag).put("define void @"@).put(owner).put("_"@).put(
        t.name@,
    ).put("() {\n"@);
    let fence = entry_fence(t.trait_list@);
    let st4 = atomic_entry(put_entry(st3, fence), t.atomic);
    entries_emit(st3, fence, t.atomic);
    bodies_emit(env, st4, t.body, "void"@);
    emits_again(st3, st4, body(env, st4, t.body, "void"@));
    assert(st3.out =~= st2.out + transition_opening(owner, t.name@));
    text_ends_in(st2.out, transition_opening(owner, t.name@));
    text_stays(
        st3.out,
        transition(env, st, owner, t).out,
        transition_opening(owner, t.name@),
    );
}

proof fn transitions_are_defined(
    env: Env,
    st: EmitState,
    owner: Seq<char>,
    ts: Seq<TransitionDecl>,
    k: int,
)
    requires
        0 <= k < ts.len(),
    ensures
        contains(transitions(env, st, owner, ts).out, transition_opening(owner, ts[k].name@)),
    decreases ts.len(),
{
    let st1 = transitions(env, st, owner, ts.drop_last());
    if k == ts.len() - 1 {
        transition_is_defined(env, st1, owner, ts.last());
    } else {
        transitions_are_defined(env, st, owner, ts.drop_last(), k);
        transition_emits(env, st1, owner, ts.last());
        text_stays(
            st1.out,
            transitions(env, st, owner, ts).out,
            transition_opening(owner, ts[k].name@),
        );
    }
}

proof fn item_is_defined(env: Env, st: EmitState, i: Item)
    requires
        item(env, st, i).errors.len() == 0,
    ensures
        defines(item(env, st, i).out, i),
{
    match i {
        Item::Fn(d) => functions_are_defined(
            env,
            st,
            d.name@,
            d.params@,
            d.return_type,
            ""@,
            Seq::empty(),
            None,
            d.body,
        ),
        Item::Effect(d) => functions_are_defined(
            env,
            st,
            d.name@,
            d.params@,
            d.return_type,
            ""@,
            d.trait_list@,
            d.atomic,
            d.body,
        ),
        Item::Interrupt(d) => functions_are_defined(
            env,
            st,
            d.name@,
            d.params@,
            d.return_type,
            " section \".interrupts\""@,
            d.trait_list@,
            d.atomic,
            d.body,
        ),
        Item::Automaton(d) => {
            let st1 = field_errors(st, d, d.fields@.len());
            assert forall|k: int| 0 <= k < d.transitions@.len() implies contains(
                item(env, st, i).out,
                transition_opening(d.name@, (#[trigger] d.transitions@[k]).name@),
            ) by {
                transitions_are_defined(env, st1, d.name@, d.transitions@, k);
            }
        },
        _ => {},
    }
}

proof fn definitions_stay(before: Seq<char>, after: Seq<char>, i: Item)
    requires
        grows(before, after),
        defines(before, i),
    ensures
        defines(after, i),
{
    match i {
        Item::Fn(d) => text_stays(
            before,
            after,
            opening(d.name@, d.params@, d.return_type, ""@),
        ),
        Item::Effect(d) => text_stays(
            before,
            after,
            opening(d.name@, d.params@, d.return_type, ""@),
        ),
        Item::Interrupt(d) => text_stays(
            before,
            after,
            opening(d.name@, d.params@, d.return_type, " section \".interrupts\""@),
        ),
        Item::Automaton(d) => {
            assert forall|k: int| 0 <= k < d.transitions@.len() implies contains(
                after,
                transition_opening(d.name@, (#[trigger] d.transitions@[k]).name@),
            ) by {
                text_stays(
                    before,
                    after,
                    transition_opening(d.name@, d.transitions@[k].name@),
                );
            }
        },
        _ => {},
    }
}

proof fn items_are_defined(env: Env, st: EmitState, is: Seq<Item>, k: int)
    requires
        0 <= k < is.len(),
        items(env, st, is).errors.len() == 0,
    ensures
        defines(items(env, st, is).out, is[k]),
    decreases is.len(),
{
    let front = is.drop_last();
    let st1 = items(env, st, front);
    item_emits(env, st1, is.last());
    if k == is.len() - 1 {
        item_is_defined(env, st1, is.last());
    } else {
        items_are_defined(env, st, front, k);
        definitions_stay(st1.out, items(env, st, is).out, is[k]);
    }
}

/// The module of a program opens one function for every `@fn`, effect,
/// interrupt and transition that the program declares.
pub proof fn every_callable_is_defined(
    program: Program,
    resolution: Resolution,
    typing: Typing,
    name: Seq<char>,
    k: int,
)
    requires
        0 <= k < program.items@.len(),
        lowered(program, resolution, typing, name) is Ok,
    ensures
        defines(lowered(program, resolution, typing, name)->Ok_0, program.items@[k]),
{
    let env = Env { items: program.items@, resolution, typing };
    let head = module_header(EmitState::initial(), name);
    let st = staged_intrinsics(state_structs(env, head, env.items), env.items);
    items_are_defined(env, st, env.items, k);
}

/// The traits of a callable decide its fences: `SeqCst` fences both ends and
/// outranks the others, `Acquire` fences the entry, `Release` the exits, and
/// without any of them there is no fence.
pub proof fn traits_decide_the_fences(traits: Seq<TraitRef>)
    ensures
        has_trait(traits, "SeqCst"@) ==> entry_fence(traits) == Some("seq_cst"@)
            && leaving_fence(traits) == Some("seq_cst"@),
        !has_trait(traits, "SeqCst"@) ==> (entry_fence(traits) == if has_trait(
            traits,
            "Acquire"@,
        ) {
            Some("acquire"@)
        } else {
            None
        }) && (leaving_fence(traits) == if has_trait(traits, "Release"@) {
            Some("release"@)
        } else {
            None
        }),
{
}

proof fn first_tag(states: Seq<(Seq<char>, nat)>)
    requires
        states.len() > 0,
    ensures
        tag_of(states, states[0].0) == Some(states[0].1),
    decreases states.len(),
{
    reveal_with_fuel(tag_of, 2);
    if states.len() > 1 {
        first_tag(states.drop_last());
    }
}

/// The first state that an automaton declares has tag 0, the value that its
/// state starts with.
pub proof fn the_first_state_has_tag_zero(d: AutomatonDecl)
    requires
        d.states is Some,
        d.states->0@.len() > 0,
    ensures
        declared_automaton(d).is_multi_state(),
        tag_of(declared_automaton(d).states, d.states->0@[0].name@) == Some(0nat),
{
    first_tag(declared_automaton(d).states);
}

// ─── Calls of transitions ──────────────────────────────────────────────────

proof fn owners_declare(items: Seq<Item>, name: Seq<char>)
    ensures
        match find_owner(items, name) {
            Some(o) => declares_transition(items, o, name),
            None => forall|o: Seq<char>| !declares_transition(items, o, name),
        },
    decreases items.len(),
{
    if items.len() > 0 {
        let front = items.drop_last();
        owners_declare(front, name);
        match find_owner(front, name) {
            Some(o) => {
                let i = choose|i: int|
                    0 <= i < front.len() && is_transition_of(#[trigger] front[i], o, name);
                assert(is_transition_of(items[i], o, name));
            },
            None => {
                assert(items[items.len() - 1] == items.last());
                if let Item::Automaton(d) = items.last() {
                    if has_transition(d.transitions@, name) {
                        assert(is_transition_of(items[items.len() - 1], d.name@, name));
                    }
                }
                if find_owner(items, name) is None {
                    assert forall|o: Seq<char>| !declares_transition(items, o, name) by {
                        if declares_transition(items, o, name) {
                            let i = choose|i: int|
                                0 <= i < items.len() && is_transition_of(
                                    #[trigger] items[i],
                                    o,
                                    name,
                                );
                            if i < front.len() {
                                assert(is_transition_of(front[i], o, name));
                                assert(declares_transition(front, o, name));
                            }
                        }
                    }
                }
            },
        }
    }
}

/// A `#>` call of a transition that some automaton declares calls a function
/// that the module defines: that of the automaton that the call stands in,
/// where it declares the transition, and otherwise of another that does.
pub proof fn called_transitions_are_defined(
    program: Program,
    resolution: Resolution,
    typing: Typing,
    module_name: Seq<char>,
    st: EmitState,
    s: Stmt,
    name: Seq<char>,
)
    requires
        lowered(program, resolution, typing, module_name) is Ok,
        match resolution.binding(s.span) {
            Some(BindingRef::Proc { ctx, .. }) => ctx == CallContext::Transition,
            _ => false,
        },
        exists|o: Seq<char>| declares_transition(program.items@, o, name),
        !declares_transition(program.items@, Seq::empty(), name),
    ensures
        ({
            let env = Env { items: program.items@, resolution, typing };
            let owner = callee_owner(env, st, name);
            &&& declares_transition(program.items@, owner, name)
            &&& callee_symbol(env, st, s, name) == owner + "_"@ + name
            &&& contains(
                lowered(program, resolution, typing, module_name)->Ok_0,
                transition_opening(owner, name),
            )
        }),
{
    let env = Env { items: program.items@, resolution, typing };
    let items = program.items@;
    owners_declare(items, name);
    let owner = callee_owner(env, st, name);
    assert(declares_transition(items, owner, name));
    if owner.len() == 0 {
        assert(owner =~= Seq::empty());
    }
    let i = choose|i: int|
        0 <= i < items.len() && is_transition_of(#[trigger] items[i], owner, name);
    every_callable_is_defined(program, resolution, typing, module_name, i);
    if let Item::Automaton(d) = items[i] {
        let k = choose|k: int|
            0 <= k < d.transitions@.len() && (#[trigger] d.transitions@[k]).name@ == name;
        assert(contains(
            lowered(program, resolution, typing, module_name)->Ok_0,
            transition_opening(d.name@, d.transitions@[k].name@),
        ));
    }
}

// ─── Missing returns ───────────────────────────────────────────────────────

proof fn statement_stays_open(env: Env, st: EmitState, s: Stmt)
    requires
        !has_return(s),
        !st.terminated,
        st.loops.len() == 0,
    ensures
        !stmt(env, st, s).terminated,
{
    reveal(computes);
    stmt_unfold(env, st, s);
    match s.kind {
        StmtKind::Let { ty, value, .. } => {
            expressions_only_compute(env, st, value);
            if let Some(t) = ty {
                if let Err(x) = written_ir(t) {
                    expressions_only_compute(env, st.fail(x), value);
                }
            }
        },
        StmtKind::LetShort { value, .. } => expressions_only_compute(env, st, value),
        StmtKind::Expr(e) => expressions_only_compute(env, st, e),
        StmtKind::Mutate { automaton, assigns } => mutate_computes(env, st, automaton@, assigns@),
        StmtKind::MutateShort { .. } => mutate_short_computes(env, st, s),
        StmtKind::ProcCall { name, args } => simple_statements_compute(
            env,
            st,
            s,
            name@,
            args@,
        ),
        StmtKind::UncheckedStore { ty, ptr, value } => raw_statements_compute(
            env,
            st,
            ty,
            ptr,
            value,
            false,
            Seq::empty(),
        ),
        StmtKind::VolatileStore { ty, ptr, value } => raw_statements_compute(
            env,
            st,
            ty,
            ptr,
            value,
            true,
            Seq::empty(),
        ),
        StmtKind::Sigma { source, .. } => {
            if let ExprKind::Range { lo, hi, .. } = source.kind {
                expressions_only_compute(env, st, *lo);
                expressions_only_compute(env, expr(env, st, *lo).0, *hi);
            }
        },
        StmtKind::If { cond, .. } => expressions_only_compute(env, st, cond),
        StmtKind::Flush { automaton } => simple_statements_compute(
            env,
            st,
            s,
            automaton@,
            Seq::empty(),
        ),
        StmtKind::Assign { name, value } => assign_local_computes(env, st, name@, value),
        _ => {},
    }
}

proof fn statements_stay_open(env: Env, st: EmitState, ss: Seq<Stmt>)
    requires
        !any_has_return(ss),
        !st.terminated,
        st.loops.len() == 0,
    ensures
        !stmts(env, st, ss).terminated,
    decreases ss.len(),
{
    if ss.len() > 0 {
        statements_stay_open(env, st, ss.drop_last());
        duties_last_through_a_body(env, st, ss.drop_last());
        statement_stays_open(env, stmts(env, st, ss.drop_last()), ss.last());
    }
}

/// The item is a function with a result but without any `return`.
pub open spec fn lacks_return(i: Item) -> bool {
    match i {
        Item::Fn(d) => has_result(d.return_type) && !any_has_return(d.body.stmts@),
        Item::Effect(d) => has_result(d.return_type) && !any_has_return(d.body.stmts@),
        Item::Interrupt(d) => has_result(d.return_type) && !any_has_return(d.body.stmts@),
        _ => false,
    }
}

/// The type of the result is one that has values.
pub open spec fn has_result(ret: Option<TypeExpr>) -> bool {
    ret is Some && written_ir(ret->0) != Ok::<Seq<char>, CodegenErrorView>("void"@)
}

proof fn parameters_keep_the_block(st: EmitState, params: Seq<Param>)
    ensures
        parameters(st, params).0.terminated == st.terminated,
        parameters(st, params).0.loops == st.loops,
    decreases params.len(),
{
    if params.len() > 0 {
        parameters_keep_the_block(st, params.drop_last());
    }
}

proof fn function_lacks_return(
    env: Env,
    st: EmitState,
    name: Seq<char>,
    params: Seq<Param>,
    ret: Option<TypeExpr>,
    section: Seq<char>,
    traits: Seq<TraitRef>,
    atomic: Option<AtomicKind>,
    b: Block,
)
    requires
        has_result(ret),
        !any_has_return(b.stmts@),
    ensures
        function(env, st, name, params, ret, section, traits, atomic, b).errors.len() > 0,
{
    let (st1, ret_ty) = return_type(st.reset(), ret);
    parameters_keep_the_block(st1, params);
    parameters_emit(st1, params);
    let (st2, r) = parameters(st1, params);
    if let Ok(parts) = r {
        let st3 = st2.with_exit_fence(leaving_fence(traits)).put("define "@).put(ret_ty).put(
            " @"@,
        ).put(name).put("("@).put(join(parts)).put(")"@).put(section).put(" {\n"@);
        let fence = entry_fence(traits);
        let st4 = atomic_entry(put_entry(st3, fence), atomic);
        entries_emit(st3, fence, atomic);
        bodies_emit(env, st4, b, ret_ty);
        statements_stay_open(env, st4, b.stmts@);
        if let Err(x) = written_ir(ret->0) {
            assert(st1.errors.len() > 0);
        } else {
            assert(body(env, st4, b, ret_ty).errors.len() > 0);
        }
    }
}

/// A program with a function that has a result but no `return` is rejected.
pub proof fn functions_with_a_result_return(
    program: Program,
    resolution: Resolution,
    typing: Typing,
    name: Seq<char>,
    k: int,
)
    requires
        0 <= k < program.items@.len(),
        lacks_return(program.items@[k]),
    ensures
        lowered(program, resolution, typing, name) is Err,
{
    let env = Env { items: program.items@, resolution, typing };
    let head = module_header(EmitState::initial(), name);
    let st = staged_intrinsics(state_structs(env, head, env.items), env.items);
    items_lack_return(env, st, env.items, k);
}

proof fn items_lack_return(env: Env, st: EmitState, is: Seq<Item>, k: int)
    requires
        0 <= k < is.len(),
        lacks_return(is[k]),
    ensures
        items(env, st, is).errors.len() > 0,
    decreases is.len(),
{
    let st1 = items(env, st, is.drop_last());
    if k < is.len() - 1 {
        items_lack_return(env, st, is.drop_last(), k);
        item_emits(env, st1, is.last());
    } else {
        match is.last() {
            Item::Fn(d) => function_lacks_return(
                env,
                st1,
                d.name@,
                d.params@,
                d.return_type,
                ""@,
                Seq::empty(),
                None,
                d.body,
            ),
            Item::Effect(d) => function_lacks_return(
                env,
                st1,
                d.name@,
                d.params@,
                d.return_type,
                ""@,
                d.trait_list@,
                d.atomic,
                d.body,
            ),
            Item::Interrupt(d) => function_lacks_return(
                env,
                st1,
                d.name@,
                d.params@,
                d.return_type,
                " section \".interrupts\""@,
                d.trait_list@,
                d.atomic,
                d.body,
            ),
            _ => {},
        }
    }
}

} // verus!
