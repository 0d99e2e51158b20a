//! What cannot be lowered, and what becomes of it.
use vstd::prelude::*;

use crate::ast::{
    AtomicKind, Block, Expr, ExprKind, FieldAssign, Param, PrimitiveType, Stmt, StmtKind, TraitRef,
    TypeExpr,
};
use crate::codegen::control::refers_to_automaton;
use crate::codegen::error::CodegenErrorView;
use crate::codegen::irtype::{element_ir, float_ir, written_ir};
use crate::codegen::literal::{
    bin_literal, count_value, first_non_digit, hex_literal, int_literal, run_start, suffix_ir,
    suffix_max, suffix_start,
};
use crate::codegen::lowering::{
    assign_field, assign_fields, destination, expr, expr_unfold, exprs, function, has_trait,
    locate_all, mutate, parameters, proc_call, return_type, stmt, stmt_unfold,
};
use crate::codegen::registry::{tag_of, Env, LocationView};
use crate::codegen::state::{find_local, EmitState, LocalStorage};
use crate::codegen::values::{is_suffix, suffixes_name_types};
use crate::text::{numeral_value, without};

verus! {

// ─── Expressions ───────────────────────────────────────────────────────────

/// The expression fails with the error, and adds no instruction behind those of
/// the state.
pub open spec fn fails_at(env: Env, st: EmitState, e: Expr, at: EmitState, x: CodegenErrorView) -> bool {
    expr(env, st, e) == (at, Err::<Seq<char>, CodegenErrorView>(x))
}

/// The expression is a name of one part.
pub open spec fn is_word(e: Expr) -> bool {
    e.kind is Path && e.kind->Path_0@.len() == 1
}

/// Where an operand fails, the whole fails with the same error and goes no
/// further.
pub proof fn failures_of_operands_spread(env: Env, st: EmitState, e: Expr, at: EmitState, x: CodegenErrorView)
    ensures
        match e.kind {
            ExprKind::Paren(inner) => fails_at(env, st, *inner, at, x) ==> fails_at(
                env,
                st,
                e,
                at,
                x,
            ),
            ExprKind::Unary { operand, .. } => fails_at(env, st, *operand, at, x) ==> fails_at(
                env,
                st,
                e,
                at,
                x,
            ),
            ExprKind::Binary { lhs, rhs, .. } => {
                &&& fails_at(env, st, *lhs, at, x) ==> fails_at(env, st, e, at, x)
                &&& expr(env, st, *lhs).1 is Ok && fails_at(
                    env,
                    expr(env, st, *lhs).0,
                    *rhs,
                    at,
                    x,
                ) ==> fails_at(env, st, e, at, x)
            },
            ExprKind::Cast { value, ty } => {
                &&& written_ir(ty) is Ok && fails_at(env, st, *value, at, x) ==> fails_at(
                    env,
                    st,
                    e,
                    at,
                    x,
                )
                &&& written_ir(ty) is Err ==> fails_at(env, st, e, st, written_ir(ty)->Err_0)
            },
            ExprKind::UncheckedLoad { ty, ptr } => {
                &&& written_ir(ty) is Ok && fails_at(env, st, *ptr, at, x) ==> fails_at(
                    env,
                    st,
                    e,
                    at,
                    x,
                )
                &&& written_ir(ty) is Err ==> fails_at(env, st, e, st, written_ir(ty)->Err_0)
            },
            ExprKind::VolatileLoad { ty, ptr } => {
                &&& written_ir(ty) is Ok && fails_at(env, st, *ptr, at, x) ==> fails_at(
                    env,
                    st,
                    e,
                    at,
                    x,
                )
                &&& written_ir(ty) is Err ==> fails_at(env, st, e, st, written_ir(ty)->Err_0)
            },
            ExprKind::UncheckedCast { from_ty, to_ty, value, .. } => {
                &&& written_ir(from_ty) is Ok && written_ir(to_ty) is Ok && fails_at(
                    env,
                    st,
                    *value,
                    at,
                    x,
                ) ==> fails_at(env, st, e, at, x)
                &&& written_ir(from_ty) is Err || written_ir(to_ty) is Err ==> expr(
                    env,
                    st,
                    e,
                ).1 is Err && expr(env, st, e).0 == st
            },
            ExprKind::UncheckedOffset { ty, ptr, n } => {
                &&& written_ir(ty) is Ok && fails_at(env, st, *ptr, at, x) ==> fails_at(
                    env,
                    st,
                    e,
                    at,
                    x,
                )
                &&& written_ir(ty) is Ok && expr(env, st, *ptr).1 is Ok && fails_at(
                    env,
                    expr(env, st, *ptr).0,
                    *n,
                    at,
                    x,
                ) ==> fails_at(env, st, e, at, x)
                &&& written_ir(ty) is Err ==> fails_at(env, st, e, st, written_ir(ty)->Err_0)
            },
            ExprKind::Tuple(elems) => exprs(env, st, elems@) == (
                at,
                Err::<Seq<(Seq<char>, Seq<char>)>, CodegenErrorView>(x),
            ) ==> fails_at(env, st, e, at, x),
            ExprKind::Array(elems) => elems@.len() > 0 && exprs(env, st, elems@) == (
                at,
                Err::<Seq<(Seq<char>, Seq<char>)>, CodegenErrorView>(x),
            ) ==> fails_at(env, st, e, at, x),
            ExprKind::ArrayRepeat { value, count } => {
                &&& count_value(*count) is Some && fails_at(env, st, *value, at, x) ==> fails_at(
                    env,
                    st,
                    e,
                    at,
                    x,
                )
                &&& count_value(*count) is None ==> expr(env, st, e).1 is Err && expr(
                    env,
                    st,
                    e,
                ).0 == st
            },
            ExprKind::Call { callee, args } => {
                &&& is_word(*callee) && exprs(env, st, args@) == (
                    at,
                    Err::<Seq<(Seq<char>, Seq<char>)>, CodegenErrorView>(x),
                ) ==> fails_at(env, st, e, at, x)
                &&& !is_word(*callee) ==> expr(env, st, e).1 is Err && expr(env, st, e).0 == st
            },
            _ => true,
        },
{
    expr_unfold(env, st, e);
}

/// Expressions in a row fail where the first that fails does, with its error.
pub proof fn rows_fail_at_the_first_failure(env: Env, st: EmitState, es: Seq<Expr>, k: int)
    requires
        0 <= k < es.len(),
        exprs(env, st, es.take(k)).1 is Ok,
        expr(env, exprs(env, st, es.take(k)).0, es[k]).1 is Err,
    ensures
        exprs(env, st, es) == (
            expr(env, exprs(env, st, es.take(k)).0, es[k]).0,
            Err::<Seq<(Seq<char>, Seq<char>)>, CodegenErrorView>(
                expr(env, exprs(env, st, es.take(k)).0, es[k]).1->Err_0,
            ),
        ),
    decreases es.len(),
{
    if k == es.len() - 1 {
        assert(es.drop_last() =~= es.take(k));
        assert(es.last() == es[k]);
    } else {
        let front = es.drop_last();
        assert(front.take(k) =~= es.take(k));
        assert(front[k] == es[k]);
        rows_fail_at_the_first_failure(env, st, front, k);
    }
}

/// Forms that have no instructions fail without adding any: floats, characters,
/// strings, null, shadow reads, method calls, borrows, ranges outside a loop,
/// names of several parts, and empty arrays.
pub proof fn forms_without_instructions_fail(env: Env, st: EmitState, e: Expr)
    requires
        match e.kind {
            ExprKind::FloatLit(_)
            | ExprKind::CharLit(_)
            | ExprKind::ByteLit(_)
            | ExprKind::StringLit(_)
            | ExprKind::Null
            | ExprKind::Shadow { .. }
            | ExprKind::MethodCall { .. }
            | ExprKind::Ref { .. }
            | ExprKind::Range { .. } => true,
            ExprKind::Path(segs) => segs@.len() != 1,
            ExprKind::Array(elems) => elems@.len() == 0,
            _ => false,
        },
    ensures
        expr(env, st, e).1 is Err,
        expr(env, st, e).1->Err_0 is NotYetImplemented,
        expr(env, st, e).0 == st,
{
    expr_unfold(env, st, e);
}

/// A field can be read only of a name: of an automaton, or of `Self` inside a
/// transition. The automaton and the field must exist, and for an element the
/// field must be an array.
pub proof fn reads_of_nothing_fail(env: Env, st: EmitState, e: Expr)
    ensures
        match e.kind {
            ExprKind::FieldAccess { obj, field } => expr(env, st, e).1 is Ok <==> exists|
                a: Seq<char>,
            | #[trigger]
                refers_to_automaton(st, *obj, a) && env.locate(a, field@) is Ok,
            ExprKind::Index { obj, .. } => expr(env, st, e).1 is Ok ==> obj.kind is FieldAccess
                && exists|a: Seq<char>| #[trigger]
                refers_to_automaton(st, *obj.kind->FieldAccess_obj, a) && env.locate(
                    a,
                    obj.kind->FieldAccess_field@,
                ) is Ok && element_ir(env.locate(a, obj.kind->FieldAccess_field@)->Ok_0.1) is Some,
            ExprKind::Path(segs) => expr(env, st, e).1 is Ok <==> segs@.len() == 1 && find_local(
                st.locals,
                segs@[0]@,
            ) is Some,
            _ => true,
        },
{
    expr_unfold(env, st, e);
    match e.kind {
        ExprKind::FieldAccess { obj, .. } => named_receiver(st, *obj),
        ExprKind::Index { obj, .. } => {
            if obj.kind is FieldAccess {
                named_receiver(st, *obj.kind->FieldAccess_obj);
            }
        },
        _ => {},
    }
}

proof fn named_receiver(st: EmitState, obj: Expr)
    ensures
        ({
            let name = obj.kind->Path_0@[0]@;
            let one = obj.kind is Path && obj.kind->Path_0@.len() == 1;
            &&& one && name != "Self"@ ==> refers_to_automaton(st, obj, name)
            &&& one && name == "Self"@ && st.owner is Some ==> refers_to_automaton(
                st,
                obj,
                st.owner->0,
            )
        }),
{
}

// ─── Statements ────────────────────────────────────────────────────────────

/// The statement records the error behind what was emitted up to it.
pub open spec fn records(after: EmitState, at: EmitState, x: CodegenErrorView) -> bool {
    after == (EmitState { errors: at.errors.push(x), ..at })
}

/// A statement whose expression fails records the error of the expression and
/// nothing else.
pub proof fn failures_of_expressions_are_recorded(env: Env, st: EmitState, s: Stmt, e: Expr)
    requires
        match s.kind {
            StmtKind::Let { ty: None, value, .. } => e == value,
            StmtKind::LetShort { value, .. } => e == value,
            StmtKind::Expr(value) => e == value,
            StmtKind::Return(Some(value)) => e == value,
            StmtKind::If { cond, .. } => e == cond,
            StmtKind::Sigma { source, .. } => source.kind is Range && e
                == *source.kind->Range_lo,
            StmtKind::Assign { name, value } => e == value && find_local(st.locals, name@) is Some
                && find_local(st.locals, name@)->0.storage == LocalStorage::Stack,
            StmtKind::MutateShort { automaton, field, op, value } => e == value && env.locate(
                automaton@,
                field@,
            ) is Ok && !(float_ir(env.locate(automaton@, field@)->Ok_0.1) && !(op is Eq)),
            StmtKind::UncheckedStore { ty, ptr, .. } => e == ptr && written_ir(ty) is Ok,
            StmtKind::VolatileStore { ty, ptr, .. } => e == ptr && written_ir(ty) is Ok,
            _ => false,
        },
        expr(env, st, e).1 is Err,
    ensures
        records(stmt(env, st, s), expr(env, st, e).0, expr(env, st, e).1->Err_0),
{
    stmt_unfold(env, st, s);
}

/// What has no meaning where it stands is recorded and adds no text: `break` and
/// `continue` outside a loop, a loop over anything but a range, an assignment to
/// an unknown local or to one that was not declared `mut`, a write to an unknown
/// field, and a compound assignment to a float.
pub proof fn misplaced_statements_are_recorded(env: Env, st: EmitState, s: Stmt)
    requires
        match s.kind {
            StmtKind::Break => st.loops.len() == 0,
            StmtKind::Continue => st.loops.len() == 0,
            StmtKind::Sigma { source, .. } => !(source.kind is Range),
            StmtKind::Assign { name, .. } => match find_local(st.locals, name@) {
                Some(b) => b.storage == LocalStorage::Ssa,
                None => true,
            },
            StmtKind::MutateShort { automaton, field, op, .. } => match env.locate(
                automaton@,
                field@,
            ) {
                Ok((_, ty)) => float_ir(ty) && !(op is Eq),
                Err(_) => true,
            },
            StmtKind::Mutate { automaton, assigns } => exists|k: int|
                0 <= k < assigns@.len() && env.locate(
                    automaton@,
                    (#[trigger] assigns@[k]).field@,
                ) is Err,
            _ => false,
        },
    ensures
        exists|x: CodegenErrorView| #[trigger] records(stmt(env, st, s), st, x),
{
    stmt_unfold(env, st, s);
    if let StmtKind::Mutate { automaton, assigns } = s.kind {
        fields_are_located(env, automaton@, assigns@);
        if locate_all(env, automaton@, assigns@) is Ok {
            let k = choose|k: int|
                0 <= k < assigns@.len() && env.locate(
                    automaton@,
                    (#[trigger] assigns@[k]).field@,
                ) is Err;
            assert(env.locate(automaton@, assigns@[k].field@) is Ok);
        }
        let x = locate_all(env, automaton@, assigns@)->Err_0;
        assert(records(stmt(env, st, s), st, x));
    } else {
        let after = stmt(env, st, s);
        assert(records(after, st, after.errors.last()));
    }
}

/// A `#mutate` finds every field before it writes any: it goes on exactly where
/// all of them exist, and then with the place of each.
pub proof fn fields_are_located(env: Env, automaton: Seq<char>, assigns: Seq<FieldAssign>)
    ensures
        match locate_all(env, automaton, assigns) {
            Ok(at) => at.len() == assigns.len() && forall|k: int|
                0 <= k < assigns.len() ==> env.locate(automaton, (#[trigger] assigns[k]).field@)
                    == Ok::<(LocationView, Seq<char>), CodegenErrorView>(at[k]),
            Err(_) => env.automaton(automaton) is None || exists|k: int|
                0 <= k < assigns.len() && env.locate(
                    automaton,
                    (#[trigger] assigns[k]).field@,
                ) is Err,
        },
    decreases assigns.len(),
{
    if assigns.len() > 0 {
        let front = assigns.drop_last();
        let n = assigns.len() - 1;
        assert(assigns[n] == assigns.last());
        fields_are_located(env, automaton, front);
        assert forall|k: int| 0 <= k < n implies front[k] == #[trigger] assigns[k] by {}
        match locate_all(env, automaton, front) {
            Ok(at) => {
                if locate_all(env, automaton, assigns) is Ok {
                    let all = locate_all(env, automaton, assigns)->Ok_0;
                    assert forall|k: int| 0 <= k < assigns.len() implies env.locate(
                        automaton,
                        (#[trigger] assigns[k]).field@,
                    ) == Ok::<(LocationView, Seq<char>), CodegenErrorView>(all[k]) by {
                        if k < n {
                            assert(front[k] == assigns[k]);
                        }
                    }
                }
            },
            Err(_) => {
                if env.automaton(automaton) is Some {
                    let k = choose|k: int|
                        0 <= k < front.len() && env.locate(
                            automaton,
                            (#[trigger] front[k]).field@,
                        ) is Err;
                    assert(assigns[k] == front[k]);
                }
            },
        }
    }
}

/// A `#mutate` whose fields all exist runs its assignments at their places.
pub proof fn mutations_run_their_assignments(
    env: Env,
    st: EmitState,
    automaton: Seq<char>,
    assigns: Seq<FieldAssign>,
    at: Seq<(LocationView, Seq<char>)>,
)
    requires
        env.automaton(automaton) is Some,
        at.len() == assigns.len(),
        forall|k: int|
            0 <= k < assigns.len() ==> env.locate(automaton, (#[trigger] assigns[k]).field@)
                == Ok::<(LocationView, Seq<char>), CodegenErrorView>(at[k]),
    ensures
        mutate(env, st, automaton, assigns) == assign_fields(env, st, automaton, assigns, at),
{
    fields_are_located(env, automaton, assigns);
    match locate_all(env, automaton, assigns) {
        Ok(found) => {
            assert forall|k: int| 0 <= k < assigns.len() implies found[k] == at[k] by {
                assert(env.locate(automaton, assigns[k].field@) is Ok);
            }
            assert(found =~= at);
        },
        Err(_) => {
            let k = choose|k: int|
                0 <= k < assigns.len() && env.locate(
                    automaton,
                    (#[trigger] assigns[k]).field@,
                ) is Err;
            assert(env.locate(automaton, assigns[k].field@) is Ok);
        },
    }
}

/// An assignment fails where its value fails, where its index fails, and where it
/// has an index but its field is no array. It then writes nothing.
pub proof fn assignments_fail_with_their_parts(
    env: Env,
    st: EmitState,
    automaton: Seq<char>,
    fa: FieldAssign,
    at: (LocationView, Seq<char>),
)
    ensures
        ({
            let (after, outcome) = assign_field(env, st, automaton, fa, at);
            let (st1, v) = expr(env, st, fa.value);
            &&& v is Err ==> after == st1 && outcome == Err::<(), CodegenErrorView>(v->Err_0)
            &&& v is Ok && fa.index is Some && element_ir(at.1) is None ==> after == st1
                && outcome is Err
            &&& v is Ok && fa.index is Some && element_ir(at.1) is Some && expr(
                env,
                st1,
                fa.index->0,
            ).1 is Err ==> after == expr(env, st1, fa.index->0).0 && outcome is Err
            &&& v is Ok && fa.index is None ==> outcome is Ok
        }),
{
}

/// A `#>` call fails where an argument fails, with the same error and without a
/// call.
pub proof fn calls_fail_with_their_arguments(
    env: Env,
    st: EmitState,
    s: Stmt,
    name: Seq<char>,
    args: Seq<Expr>,
)
    requires
        exprs(env, st, args).1 is Err,
    ensures
        proc_call(env, st, s, name, args) == (
            exprs(env, st, args).0,
            Err::<(), CodegenErrorView>(exprs(env, st, args).1->Err_0),
        ),
{
}

// ─── Literals ──────────────────────────────────────────────────────────────

proof fn suffix_is_known(w: Seq<char>)
    requires
        suffix_ir(w) is Some,
    ensures
        is_suffix(w),
{
    suffixes_name_types(w, PrimitiveType::U8);
}

proof fn start_in_range(t: Seq<char>, radix: nat)
    ensures
        0 <= suffix_start(t, radix) <= t.len(),
{
    run_in_range(t);
    digits_in_range(t, radix, run_start(t));
}

proof fn run_in_range(t: Seq<char>)
    ensures
        0 <= run_start(t) <= t.len(),
    decreases t.len(),
{
    if t.len() > 0 {
        run_in_range(t.drop_last());
    }
}

proof fn digits_in_range(t: Seq<char>, radix: nat, from: int)
    requires
        0 <= from <= t.len(),
    ensures
        from <= first_non_digit(t, radix, from) <= t.len(),
    decreases t.len() - from,
{
    if from < t.len() {
        digits_in_range(t, radix, from + 1);
    }
}

/// A literal is accepted only where it is, underscores aside, a number and a
/// known suffix that the number fits, behind `0x` or `0b` where it is not
/// decimal.
pub proof fn only_numbers_are_literals(s: Seq<char>)
    ensures
        int_literal(s) matches Ok((text, ty)) ==> text.len() > 0 && exists|w: Seq<char>|
            #[trigger] is_suffix(w) && without(s, '_') == text + w && Some(ty) == suffix_ir(w)
                && numeral_value(text, 10, suffix_max(w)) is Some,
        hex_literal(s) matches Ok((_, ty)) ==> prefixed(s, 'x', 'X') && exists|
            ds: Seq<char>,
            w: Seq<char>,
        |
            #![trigger ds + w]
            is_suffix(w) && without(s, '_').skip(2) == ds + w && Some(ty) == suffix_ir(w)
                && numeral_value(ds, 16, suffix_max(w)) is Some,
        bin_literal(s) matches Ok((_, ty)) ==> prefixed(s, 'b', 'B') && exists|
            ds: Seq<char>,
            w: Seq<char>,
        |
            #![trigger ds + w]
            is_suffix(w) && without(s, '_').skip(2) == ds + w && Some(ty) == suffix_ir(w)
                && numeral_value(ds, 2, suffix_max(w)) is Some,
{
    let t = without(s, '_');
    if int_literal(s) is Ok {
        let k = suffix_start(t, 10);
        start_in_range(t, 10);
        suffix_is_known(t.skip(k));
        assert(t =~= t.take(k) + t.skip(k));
    }
    let body = t.skip(2);
    if hex_literal(s) is Ok {
        let k = suffix_start(body, 16);
        start_in_range(body, 16);
        suffix_is_known(body.skip(k));
        assert(body =~= body.take(k) + body.skip(k));
    }
    if bin_literal(s) is Ok {
        let k = suffix_start(body, 2);
        start_in_range(body, 2);
        suffix_is_known(body.skip(k));
        assert(body =~= body.take(k) + body.skip(k));
    }
}

/// The text, underscores aside, begins with `0` and one of the letters.
pub open spec fn prefixed(s: Seq<char>, lower: char, upper: char) -> bool {
    let t = without(s, '_');
    t.len() >= 2 && t[0] == '0' && (t[1] == lower || t[1] == upper)
}

// ─── Functions ─────────────────────────────────────────────────────────────

/// A function with a parameter whose type has no IR type is left out, and the
/// error of the first such parameter is recorded.
pub proof fn functions_without_parameter_types_are_left_out(
    env: Env,
    st: EmitState,
    name: Seq<char>,
    params: Seq<Param>,
    ret: Option<TypeExpr>,
    section: Seq<char>,
    traits: Seq<TraitRef>,
    atomic: Option<AtomicKind>,
    b: Block,
)
    requires
        exists|i: int| 0 <= i < params.len() && written_ir((#[trigger] params[i]).ty) is Err,
    ensures
        ({
            let after = function(env, st, name, params, ret, section, traits, atomic, b);
            &&& after.out == st.out
            &&& after.errors.len() > st.errors.len()
            &&& exists|i: int|
                0 <= i < params.len() && written_ir((#[trigger] params[i]).ty) is Err
                    && after.errors.last() == written_ir(params[i].ty)->Err_0 && forall|j: int|
                    0 <= j < i ==> written_ir((#[trigger] params[j]).ty) is Ok
        }),
{
    let st1 = return_type(st.reset(), ret).0;
    let i = first_untyped(st1, params);
    assert(written_ir(params[i].ty) is Err);
}

proof fn first_untyped(st: EmitState, params: Seq<Param>) -> (i: int)
    requires
        exists|i: int| 0 <= i < params.len() && written_ir((#[trigger] params[i]).ty) is Err,
    ensures
        0 <= i < params.len(),
        written_ir(params[i].ty) is Err,
        forall|j: int| 0 <= j < i ==> written_ir((#[trigger] params[j]).ty) is Ok,
        parameters(st, params).1 == Err::<Seq<Seq<char>>, CodegenErrorView>(
            written_ir(params[i].ty)->Err_0,
        ),
        parameters(st, params).0.out == st.out,
        parameters(st, params).0.errors == st.errors,
    decreases params.len(),
{
    let front = params.drop_last();
    let n = params.len() - 1;
    assert(params[n] == params.last());
    assert forall|j: int| 0 <= j < n implies front[j] == #[trigger] params[j] by {}
    if exists|i: int| 0 <= i < front.len() && written_ir((#[trigger] front[i]).ty) is Err {
        let i = first_untyped(st, front);
        assert forall|j: int| 0 <= j < i implies written_ir((#[trigger] params[j]).ty) is Ok by {
            assert(written_ir(front[j].ty) is Ok);
        }
        i
    } else {
        all_typed(st, front);
        assert forall|j: int| 0 <= j < n implies written_ir((#[trigger] params[j]).ty) is Ok by {
            assert(!(written_ir(front[j].ty) is Err));
        }
        n
    }
}

proof fn all_typed(st: EmitState, params: Seq<Param>)
    requires
        forall|i: int| 0 <= i < params.len() ==> !(written_ir((#[trigger] params[i]).ty) is Err),
    ensures
        parameters(st, params).1 is Ok,
        parameters(st, params).0.out == st.out,
        parameters(st, params).0.errors == st.errors,
    decreases params.len(),
{
    if params.len() > 0 {
        let front = params.drop_last();
        assert forall|i: int| 0 <= i < front.len() implies !(written_ir(
            (#[trigger] front[i]).ty,
        ) is Err) by {
            assert(front[i] == params[i]);
        }
        assert(params[params.len() - 1] == params.last());
        all_typed(st, front);
    }
}

/// The result type is the written one, and that of a function without a result
/// nothing. One that has no IR type is recorded.
pub proof fn result_types_are_the_written_ones(st: EmitState, ret: Option<TypeExpr>)
    ensures
        match ret {
            None => return_type(st, ret) == (st, "void"@),
            Some(t) => match written_ir(t) {
                Ok(ty) => return_type(st, ret) == (st, ty),
                Err(x) => records(return_type(st, ret).0, st, x),
            },
        },
{
}

/// A transition leaves the tag of its destination behind. A destination that is
/// none of the states of the automaton is recorded as an error.
pub proof fn destinations_are_states(env: Env, st: EmitState, owner: Seq<char>, dest: String)
    requires
        env.automaton(owner) is Some,
    ensures
        ({
            let states = env.automaton(owner)->0.states;
            let (after, due) = destination(env, st, owner, Some(dest));
            &&& tag_of(states, dest@) matches Some(tag) ==> after == st && due == Some((owner, tag))
            &&& tag_of(states, dest@) is None ==> due is None
            &&& tag_of(states, dest@) is None && states.len() > 0 ==> exists|x: CodegenErrorView|
                #[trigger] records(after, st, x)
        }),
        destination(env, st, owner, None) == (st, None::<(Seq<char>, nat)>),
{
    let states = env.automaton(owner)->0.states;
    if tag_of(states, dest@) is None && states.len() > 0 {
        let after = destination(env, st, owner, Some(dest)).0;
        assert(records(after, st, after.errors.last()));
    }
}

/// A callable has a trait where one of its traits is of that name.
pub proof fn traits_go_by_name(traits: Seq<TraitRef>, name: Seq<char>, i: int)
    ensures
        0 <= i < traits.len() && traits[i].name@ == name ==> has_trait(traits, name),
        has_trait(traits, name) ==> exists|k: int|
            0 <= k < traits.len() && (#[trigger] traits[k]).name@ == name,
{
}

} // verus!
