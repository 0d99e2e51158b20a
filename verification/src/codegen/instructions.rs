//! The instructions that expressions and statements become, in the order in
//! which they run.
use vstd::prelude::*;

use crate::ast::{AssignOp, BinaryOp, Expr, ExprKind, FieldAssign, Stmt, UnaryOp};
use crate::codegen::irtype::{element_ir, float_ir, int_width, integer_ir, type_ir};
use crate::codegen::lowering::{
    arguments, assign_field, assign_fields, binary_opcode, callee_symbol, cast, expr, expr_ir,
    expr_signed, expr_unfold, exprs, field_load, field_store, index_load, index_store, insert_chain,
    local_read, mutate_short, proc_call, resize_opcode, unary, unchecked_cast, unchecked_load,
    unchecked_offset, unchecked_store, Typed,
};
use crate::codegen::meaning::{
    applied, bit, flag, ir_convert, ir_result, is_defined, is_pattern, number, operator_gives,
    operators_are_computed, casts_keep_what_fits, compound_assignments_compute_their_operator,
    pattern, subtraction_negates, xor_with_minus_one_complements, xor_with_true_negates,
};
use crate::codegen::registry::{Env, LocationView};
use crate::codegen::state::{find_local, EmitState, LocalStorage, LocalView};
use crate::text::{dec, join};
use crate::types::Type;

verus! {

// ─── Instructions ──────────────────────────────────────────────────────────

/// A line of a function body.
#[allow(inconsistent_fields)]
pub ghost enum Instr {
    /// `dst` becomes what `op` makes of `l` and `r`, both of type `ty`.
    Op { dst: Seq<char>, op: Seq<char>, ty: Seq<char>, l: Seq<char>, r: Seq<char> },
    /// `dst` becomes the negative of the float `value`.
    FloatNegate { dst: Seq<char>, ty: Seq<char>, value: Seq<char> },
    /// `dst` becomes `value`, converted from one type to another.
    Convert { dst: Seq<char>, op: Seq<char>, from: Seq<char>, value: Seq<char>, to: Seq<char> },
    /// `dst` becomes what `ptr` points to.
    Load { dst: Seq<char>, volatile: bool, ty: Seq<char>, ptr: Seq<char> },
    /// What `ptr` points to becomes `value`.
    Store { volatile: bool, ty: Seq<char>, value: Seq<char>, ptr: Seq<char> },
    /// `dst` points to the place `idx` of the state of an automaton.
    FieldPointer { dst: Seq<char>, automaton: Seq<char>, global: Seq<char>, idx: nat },
    /// `dst` points to an element of the array that `base` points to.
    ElementPointer { dst: Seq<char>, ty: Seq<char>, base: Seq<char>, index: Typed },
    /// `dst` points `n` elements behind `ptr`.
    OffsetPointer { dst: Seq<char>, ty: Seq<char>, ptr: Seq<char>, n: Typed },
    /// `dst` points to a new stack slot.
    Slot { dst: Seq<char>, ty: Seq<char> },
    /// `dst` is the aggregate `into` with `value` at place `at`.
    Insert { dst: Seq<char>, ty: Seq<char>, into: Seq<char>, value: Typed, at: nat },
    /// `dst` becomes the result of a call.
    Call { dst: Seq<char>, ty: Seq<char>, callee: Seq<char>, args: Seq<Typed> },
    /// A call without a result.
    Run { callee: Seq<char>, args: Seq<Typed> },
    /// `dst` is `first.0` on the way from block `first.1`, and `again.0` from
    /// block `again.1`.
    Merge { dst: Seq<char>, ty: Seq<char>, first: Typed, again: Typed },
    /// Control goes to a block.
    Jump { to: Seq<char> },
    /// Control goes to `yes` where `cond` holds and to `no` where it does not.
    Branch { cond: Seq<char>, yes: Seq<char>, no: Seq<char> },
    /// A block begins.
    Label { name: Seq<char> },
    /// The function returns nothing.
    ReturnNothing,
    /// The function returns a value.
    Return { value: Typed },
    /// A memory fence.
    Fence { ordering: Seq<char> },
}

/// Values with their types, separated by commas.
pub open spec fn listed_values(vs: Seq<Typed>) -> Seq<char>
    decreases vs.len(),
{
    if vs.len() == 0 {
        Seq::empty()
    } else if vs.len() == 1 {
        vs[0].0 + " "@ + vs[0].1
    } else {
        listed_values(vs.drop_last()) + ", "@ + (vs.last().0 + " "@ + vs.last().1)
    }
}

/// The text with an instruction behind it.
pub open spec fn behind(out: Seq<char>, i: Instr) -> Seq<char> {
    match i {
        Instr::Op { dst, op, ty, l, r } => out + "  "@ + dst + " = "@ + op + " "@ + ty + " "@ + l
            + ", "@ + r + "\n"@,
        Instr::FloatNegate { dst, ty, value } => out + "  "@ + dst + " = fneg "@ + ty + " "@ + value
            + "\n"@,
        Instr::Convert { dst, op, from, value, to } => out + "  "@ + dst + " = "@ + op + " "@ + from
            + " "@ + value + " to "@ + to + "\n"@,
        Instr::Load { dst, volatile, ty, ptr } => out + "  "@ + dst + " = "@ + (if volatile {
            "load volatile"@
        } else {
            "load"@
        }) + " "@ + ty + ", "@ + ty + "* "@ + ptr + "\n"@,
        Instr::Store { volatile, ty, value, ptr } => out + "  "@ + (if volatile {
            "store volatile"@
        } else {
            "store"@
        }) + " "@ + ty + " "@ + value + ", "@ + ty + "* "@ + ptr + "\n"@,
        Instr::FieldPointer { dst, automaton, global, idx } => out + "  "@ + dst
            + " = getelementptr %struct."@ + automaton + ", %struct."@ + automaton + "* "@ + global
            + ", i32 0, i32 "@ + dec(idx) + "\n"@,
        Instr::ElementPointer { dst, ty, base, index } => out + "  "@ + dst + " = getelementptr "@
            + ty + ", "@ + ty + "* "@ + base + ", i32 0, "@ + index.0 + " "@ + index.1 + "\n"@,
        Instr::OffsetPointer { dst, ty, ptr, n } => out + "  "@ + dst + " = getelementptr "@ + ty
            + ", "@ + ty + "* "@ + ptr + ", "@ + n.0 + " "@ + n.1 + "\n"@,
        Instr::Slot { dst, ty } => out + "  "@ + dst + " = alloca "@ + ty + "\n"@,
        Instr::Insert { dst, ty, into, value, at } => out + "  "@ + dst + " = insertvalue "@ + ty
            + " "@ + into + ", "@ + value.0 + " "@ + value.1 + ", "@ + dec(at) + "\n"@,
        Instr::Call { dst, ty, callee, args } => out + "  "@ + dst + " = call "@ + ty + " @"@
            + callee + "("@ + listed_values(args) + ")\n"@,
        Instr::Run { callee, args } => out + "  call void @"@ + callee + "("@ + listed_values(args)
            + ")\n"@,
        Instr::Merge { dst, ty, first, again } => out + "  "@ + dst + " = phi "@ + ty + " [ "@
            + first.0 + ", %"@ + first.1 + " ], [ "@ + again.0 + ", %"@ + again.1 + " ]\n"@,
        Instr::Jump { to } => out + "  br label %"@ + to + "\n"@,
        Instr::Branch { cond, yes, no } => out + "  br i1 "@ + cond + ", label %"@ + yes
            + ", label %"@ + no + "\n"@,
        Instr::Label { name } => out + name + ":\n"@,
        Instr::ReturnNothing => out + "  ret void\n"@,
        Instr::Return { value } => out + "  ret "@ + value.0 + " "@ + value.1 + "\n"@,
        Instr::Fence { ordering } => out + "  fence "@ + ordering + "\n"@,
    }
}

/// The instruction computes the operator on values of the given signedness, of
/// whatever width.
pub open spec fn op_computes(op_text: Seq<char>, op: BinaryOp, signed: bool) -> bool {
    forall|n: nat, a: int, b: int|
        is_pattern(n, a) && is_pattern(n, b) && is_defined(op, signed, n, a, b) ==> (
        #[trigger] ir_result(op_text, n, a, b) matches Some(r) && operator_gives(
            op,
            signed,
            n,
            a,
            b,
            r,
        ))
}

/// The instruction converts integers: to more bits it keeps the number, to fewer
/// what fits of it.
pub open spec fn op_converts(op_text: Seq<char>, from: nat, to: nat, signed: bool) -> bool {
    forall|a: int|
        is_pattern(from, a) ==> (#[trigger] ir_convert(op_text, from, to, a) matches Some(r) && r
            == pattern(to, number(signed, from, a)) && (from < to ==> number(signed, to, r)
            == number(signed, from, a)))
}

proof fn listed_values_are_joined(vs: Seq<Typed>)
    ensures
        listed_values(vs) == join(arguments(vs)),
    decreases vs.len(),
{
    let parts = arguments(vs);
    if vs.len() > 1 {
        listed_values_are_joined(vs.drop_last());
        assert(parts.drop_last() =~= arguments(vs.drop_last()));
        assert(parts.last() == vs.last().0 + " "@ + vs.last().1);
    }
}

// ─── Operators and conversions ─────────────────────────────────────────────

/// A binary operator becomes one instruction behind those of its operands, the
/// left before the right. It takes the value of the left operand first, computes
/// the operator for the type of the left operand, and gives a new value.
pub proof fn binary_operators_are_one_instruction(
    env: Env,
    st: EmitState,
    e: Expr,
    op: BinaryOp,
    lhs: Box<Expr>,
    rhs: Box<Expr>,
    l: Seq<char>,
    r: Seq<char>,
)
    requires
        e.kind == (ExprKind::Binary { op, lhs, rhs }),
        expr(env, st, *lhs).1 == Ok::<Seq<char>, crate::codegen::error::CodegenErrorView>(l),
        expr(env, expr(env, st, *lhs).0, *rhs).1 == Ok::<
            Seq<char>,
            crate::codegen::error::CodegenErrorView,
        >(r),
    ensures
        ({
            let before = expr(env, expr(env, st, *lhs).0, *rhs).0;
            let (after, value) = expr(env, st, e);
            let name = "%tmp."@ + dec(before.values);
            &&& value == Ok::<Seq<char>, crate::codegen::error::CodegenErrorView>(name)
            &&& after.values == before.values + 1
            &&& exists|op_text: Seq<char>| #[trigger]
                op_computes(op_text, op, expr_signed(env, *lhs)) && after.out == behind(
                    before.out,
                    Instr::Op {
                        dst: name,
                        op: op_text,
                        ty: expr_ir(env, before.locals, *lhs),
                        l,
                        r,
                    },
                )
        }),
{
    expr_unfold(env, st, e);
    let signed = expr_signed(env, *lhs);
    let op_text = binary_opcode(op, signed);
    assert forall|n: nat, a: int, b: int|
        is_pattern(n, a) && is_pattern(n, b) && is_defined(op, signed, n, a, b) implies (
    #[trigger] ir_result(op_text, n, a, b) matches Some(x) && operator_gives(
        op,
        signed,
        n,
        a,
        b,
        x,
    )) by {
        operators_are_computed(op, signed, n, a, b);
    }
    assert(op_computes(op_text, op, signed));
}

/// `-`, `!`, `~` and `*` become one instruction behind those of the operand:
/// it subtracts an integer from 0, turns a truth value over, turns every bit of
/// an integer over, or loads what a reference points to.
pub proof fn unary_operators_are_one_instruction(
    env: Env,
    st: EmitState,
    op: UnaryOp,
    operand: Expr,
    v: Seq<char>,
)
    ensures
        ({
            let (after, value) = unary(env, st, op, operand, v);
            let ty = expr_ir(env, st.locals, operand);
            let dst = "%tmp."@ + dec(st.values);
            let one = |i: Instr|
                value == Ok::<Seq<char>, crate::codegen::error::CodegenErrorView>(dst) && after.out
                    == behind(st.out, i) && after.values == st.values + 1;
            match op {
                UnaryOp::Neg => {
                    &&& integer_ir(ty) ==> exists|op_text: Seq<char>, l: Seq<char>|
                        #![trigger op_negates(op_text, l)]
                        op_negates(op_text, l) && one(Instr::Op { dst, op: op_text, ty, l, r: v })
                    &&& !integer_ir(ty) && float_ir(ty) ==> one(
                        Instr::FloatNegate { dst, ty, value: v },
                    )
                    &&& !integer_ir(ty) && !float_ir(ty) ==> value is Err && after.out == st.out
                },
                UnaryOp::Not => exists|op_text: Seq<char>, r: Seq<char>|
                    #![trigger op_turns_over(op_text, r)]
                    op_turns_over(op_text, r) && one(
                        Instr::Op { dst, op: op_text, ty: "i1"@, l: v, r },
                    ),
                UnaryOp::BitNot => if integer_ir(ty) {
                    exists|op_text: Seq<char>, r: Seq<char>|
                        #![trigger op_complements(op_text, r)]
                        op_complements(op_text, r) && one(
                            Instr::Op { dst, op: op_text, ty, l: v, r },
                        )
                } else {
                    value is Err && after.out == st.out
                },
                UnaryOp::Deref => match env.typing.type_at(operand.span) {
                    Some(Type::Ref { inner, .. }) => one(
                        Instr::Load { dst, volatile: false, ty: type_ir(*inner), ptr: v },
                    ),
                    _ => value is Err && after.out == st.out,
                },
            }
        }),
{
    assert forall|n: nat, a: int, signed: bool| is_pattern(n, a) implies #[trigger] negative(
        signed,
        n,
        a,
    ) == ir_result("sub"@, n, 0, a) by {
        subtraction_negates(signed, n, a);
    }
    assert(op_negates("sub"@, "0"@));
    assert forall|a: bool| ir_result("xor"@, 1, #[trigger] flag(a), 1) == Some(flag(!a)) by {
        xor_with_true_negates(a);
    }
    assert(op_turns_over("xor"@, "true"@));
    assert forall|n: nat, a: int| is_pattern(n, a) implies #[trigger] complement_at(
        "xor"@,
        n,
        a,
    ) by {
        xor_with_minus_one_complements(n, a);
    }
    assert(op_complements("xor"@, "-1"@));
}

/// The pattern of the negative of the number that a pattern stands for.
pub open spec fn negative(signed: bool, n: nat, a: int) -> Option<int> {
    Some(pattern(n, -number(signed, n, a)))
}

/// With the constant on its left, the instruction negates integers.
pub open spec fn op_negates(op_text: Seq<char>, l: Seq<char>) -> bool {
    l == "0"@ && forall|n: nat, a: int, signed: bool|
        is_pattern(n, a) ==> #[trigger] negative(signed, n, a) == ir_result(op_text, n, 0, a)
}

/// With the constant on its right, the instruction turns a truth value over.
pub open spec fn op_turns_over(op_text: Seq<char>, r: Seq<char>) -> bool {
    r == "true"@ && forall|a: bool|
        ir_result(op_text, 1, #[trigger] flag(a), 1) == Some(flag(!a))
}

/// Every bit of what the instruction makes of a pattern and that of -1 is the
/// opposite of the bit of the pattern.
pub open spec fn complement_at(op_text: Seq<char>, n: nat, a: int) -> bool {
    let r = ir_result(op_text, n, a, pattern(n, -1));
    r is Some && is_pattern(n, r->0) && forall|i: nat|
        i < n ==> #[trigger] bit(r->0, i) == !bit(a, i)
}

/// With the constant on its right, the instruction turns every bit over.
pub open spec fn op_complements(op_text: Seq<char>, r: Seq<char>) -> bool {
    r == "-1"@ && forall|n: nat, a: int|
        is_pattern(n, a) ==> #[trigger] complement_at(op_text, n, a)
}

/// A cast between integers of different width becomes one instruction, which
/// keeps the number, or what fits of it. A cast to the same type becomes
/// nothing, and there is no other.
pub proof fn casts_are_one_instruction(
    st: EmitState,
    from: Seq<char>,
    to: Seq<char>,
    signed: bool,
    v: Seq<char>,
)
    ensures
        ({
            let (after, value) = cast(st, from, to, signed, v);
            let dst = "%tmp."@ + dec(st.values);
            if from == to {
                after == st && value == Ok::<Seq<char>, crate::codegen::error::CodegenErrorView>(v)
            } else if int_width(from) is Some && int_width(to) is Some {
                &&& value == Ok::<Seq<char>, crate::codegen::error::CodegenErrorView>(dst)
                &&& after.values == st.values + 1
                &&& exists|op_text: Seq<char>| #[trigger]
                    op_converts(op_text, int_width(from)->0, int_width(to)->0, signed) && after.out
                        == behind(st.out, Instr::Convert { dst, op: op_text, from, value: v, to })
            } else {
                value is Err && after == st
            }
        }),
{
    if from != to && int_width(from) is Some && int_width(to) is Some {
        resizing_converts(from, to, signed);
    }
}

proof fn resizing_converts(from: Seq<char>, to: Seq<char>, signed: bool)
    requires
        from != to,
        int_width(from) is Some,
        int_width(to) is Some,
    ensures
        op_converts(
            resize_opcode(int_width(from)->0, int_width(to)->0, signed),
            int_width(from)->0,
            int_width(to)->0,
            signed,
        ),
{
    let f = int_width(from)->0;
    let t = int_width(to)->0;
    assert forall|a: int| is_pattern(f, a) implies (#[trigger] ir_convert(
        resize_opcode(f, t, signed),
        f,
        t,
        a,
    ) matches Some(r) && r == pattern(t, number(signed, f, a)) && (f < t ==> number(signed, t, r)
        == number(signed, f, a))) by {
        casts_keep_what_fits(f, t, signed, a);
    }
}

/// An unchecked cast between integers of different width resizes, one between
/// pointers and integers converts, any other keeps the bits. In audited code it
/// is marked.
pub proof fn unchecked_casts_are_one_instruction(
    st: EmitState,
    from: Seq<char>,
    to: Seq<char>,
    signed: bool,
    v: Seq<char>,
)
    requires
        from != to,
    ensures
        ({
            let (after, value) = unchecked_cast(st, from, to, signed, v);
            let dst = "%tmp."@ + dec(st.values);
            let is_pointer = |t: Seq<char>| t.len() > 0 && t.last() == '*';
            &&& value == dst
            &&& after.values == st.values + 1
            &&& exists|op_text: Seq<char>|
                {
                    &&& after.out == #[trigger] behind(
                        marked(st, "unchecked_cast"@),
                        Instr::Convert { dst, op: op_text, from, value: v, to },
                    )
                    &&& if int_width(from) is Some && int_width(to) is Some {
                        op_converts(op_text, int_width(from)->0, int_width(to)->0, signed)
                    } else if is_pointer(from) && int_width(to) is Some && !is_pointer(to) {
                        op_text == "ptrtoint"@
                    } else if int_width(from) is Some && !is_pointer(from) && is_pointer(to) {
                        op_text == "inttoptr"@
                    } else {
                        op_text == "bitcast"@
                    }
                }
        }),
{
    if int_width(from) is Some && int_width(to) is Some {
        resizing_converts(from, to, signed);
    }
    let dst = "%tmp."@ + dec(st.values);
    let op_text = if int_width(from) is Some && int_width(to) is Some {
        resize_opcode(int_width(from)->0, int_width(to)->0, signed)
    } else if from.len() > 0 && from.last() == '*' && int_width(to) is Some && !(to.len() > 0
        && to.last() == '*') {
        "ptrtoint"@
    } else if int_width(from) is Some && !(from.len() > 0 && from.last() == '*') && to.len() > 0
        && to.last() == '*' {
        "inttoptr"@
    } else {
        "bitcast"@
    };
    assert(unchecked_cast(st, from, to, signed, v).0.out == behind(
        marked(st, "unchecked_cast"@),
        Instr::Convert { dst, op: op_text, from, value: v, to },
    ));
}

// ─── Memory ────────────────────────────────────────────────────────────────

/// The innermost local of a name is the one that counts.
pub proof fn the_innermost_local_counts(locals: Seq<LocalView>, name: Seq<char>)
    ensures
        match find_local(locals, name) {
            Some(b) => exists|i: int|
                0 <= i < locals.len() && #[trigger] locals[i] == b && b.name == name && forall|
                    j: int,
                |
                    i < j < locals.len() ==> (#[trigger] locals[j]).name != name,
            None => forall|i: int| 0 <= i < locals.len() ==> (#[trigger] locals[i]).name != name,
        },
    decreases locals.len(),
{
    if locals.len() > 0 {
        let front = locals.drop_last();
        let n = locals.len() - 1;
        assert(locals[n] == locals.last());
        the_innermost_local_counts(front, name);
        if locals.last().name != name {
            assert forall|i: int| 0 <= i < front.len() implies front[i] == #[trigger] locals[i] by {}
            if find_local(front, name) is Some {
                let b = find_local(front, name)->0;
                let i = choose|i: int|
                    0 <= i < front.len() && #[trigger] front[i] == b && b.name == name && forall|
                        j: int,
                    |
                        i < j < front.len() ==> (#[trigger] front[j]).name != name;
                assert(locals[i] == b);
                assert forall|j: int| i < j < locals.len() implies (#[trigger] locals[j]).name
                    != name by {
                    if j < n {
                        assert(front[j].name != name);
                    }
                }
            } else {
                assert forall|i: int| 0 <= i < locals.len() implies (#[trigger] locals[i]).name
                    != name by {
                    if i < n {
                        assert(front[i].name != name);
                    }
                }
            }
        }
    }
}

/// A local that holds a value is read without any instruction, one that holds a
/// stack slot by loading from the slot.
pub proof fn locals_are_read_where_they_are_held(st: EmitState, name: Seq<char>)
    ensures
        ({
            let (after, value) = local_read(st, name);
            let dst = "%tmp."@ + dec(st.values);
            match find_local(st.locals, name) {
                None => value is Err && after == st,
                Some(b) => if b.storage == LocalStorage::Ssa {
                    after == st && value == Ok::<
                        Seq<char>,
                        crate::codegen::error::CodegenErrorView,
                    >(b.value)
                } else {
                    &&& value == Ok::<Seq<char>, crate::codegen::error::CodegenErrorView>(dst)
                    &&& after.out == behind(
                        st.out,
                        Instr::Load { dst, volatile: false, ty: b.ir_type, ptr: b.value },
                    )
                },
            }
        }),
{
}

/// The constant pointer to a register.
pub open spec fn register(address: nat, ty: Seq<char>) -> Seq<char> {
    "inttoptr (i64 "@ + dec(address) + " to "@ + ty + "*)"@
}

/// The text with the instructions behind it that make `ptr` point to a place of
/// the state: none for a register, whose pointer is constant.
pub open spec fn behind_pointer(
    out: Seq<char>,
    ptr: Seq<char>,
    automaton: Seq<char>,
    global: Seq<char>,
    loc: LocationView,
) -> Seq<char> {
    match loc {
        LocationView::Struct { idx } => behind(
            out,
            Instr::FieldPointer { dst: ptr, automaton, global, idx },
        ),
        LocationView::RegisterBlock { .. } => out,
    }
}

/// The pointer to a place of the state: the given name, or the register.
pub open spec fn pointer_to(name: Seq<char>, loc: LocationView, ty: Seq<char>) -> Seq<char> {
    match loc {
        LocationView::Struct { .. } => name,
        LocationView::RegisterBlock { address } => register(address, ty),
    }
}

/// A field is read by pointing into the live state and loading. A register is
/// read by a volatile load from its address.
pub proof fn fields_are_read_from_the_live_state(
    st: EmitState,
    automaton: Seq<char>,
    loc: LocationView,
    ty: Seq<char>,
)
    ensures
        ({
            let (after, value) = field_load(st, automaton, loc, ty);
            let name = "%tmp."@ + dec(st.values);
            let ptr = pointer_to(name, loc, ty);
            &&& after.out == behind(
                behind_pointer(st.out, name, automaton, "@"@ + automaton + ".state"@, loc),
                Instr::Load { dst: value, volatile: loc is RegisterBlock, ty, ptr },
            )
            &&& value == "%tmp."@ + dec((after.values - 1) as nat)
            &&& after.values == st.values + if loc is Struct {
                2nat
            } else {
                1nat
            }
        }),
{
}

/// A field is written by pointing into the automaton's write global and storing.
/// A register is written by a volatile store to its address.
pub proof fn fields_are_written_to_the_write_global(
    env: Env,
    st: EmitState,
    automaton: Seq<char>,
    loc: LocationView,
    ty: Seq<char>,
    value: Seq<char>,
)
    ensures
        ({
            let after = field_store(env, st, automaton, loc, ty, value);
            let name = "%tmp."@ + dec(st.values);
            after.out == behind(
                behind_pointer(st.out, name, automaton, env.write_global(automaton), loc),
                Instr::Store {
                    volatile: loc is RegisterBlock,
                    ty,
                    value,
                    ptr: pointer_to(name, loc, ty),
                },
            )
        }),
{
}

/// An element is read by pointing to its array in the live state, from there to
/// the element, and loading it.
pub proof fn elements_are_read_from_the_live_state(
    st: EmitState,
    automaton: Seq<char>,
    loc: LocationView,
    ty: Seq<char>,
    elem_ty: Seq<char>,
    index: Typed,
)
    ensures
        ({
            let (after, value) = index_load(st, automaton, loc, ty, elem_ty, index);
            let array = "%tmp."@ + dec(st.values);
            let k = if loc is Struct {
                st.values + 1
            } else {
                st.values
            };
            let elem = "%tmp."@ + dec(k as nat);
            &&& value == "%tmp."@ + dec((k + 1) as nat)
            &&& after.values == k + 2
            &&& after.out == behind(
                behind(
                    behind_pointer(st.out, array, automaton, "@"@ + automaton + ".state"@, loc),
                    Instr::ElementPointer {
                        dst: elem,
                        ty,
                        base: pointer_to(array, loc, ty),
                        index,
                    },
                ),
                Instr::Load { dst: value, volatile: loc is RegisterBlock, ty: elem_ty, ptr: elem },
            )
        }),
{
}

/// An element is written by pointing to its array in the write global, from
/// there to the element, and storing.
pub proof fn elements_are_written_to_the_write_global(
    env: Env,
    st: EmitState,
    automaton: Seq<char>,
    loc: LocationView,
    ty: Seq<char>,
    elem_ty: Seq<char>,
    index: Typed,
    value: Seq<char>,
)
    ensures
        ({
            let after = index_store(env, st, automaton, loc, ty, elem_ty, index, value);
            let array = "%tmp."@ + dec(st.values);
            let k = if loc is Struct {
                st.values + 1
            } else {
                st.values
            };
            let elem = "%tmp."@ + dec(k as nat);
            after.out == behind(
                behind(
                    behind_pointer(st.out, array, automaton, env.write_global(automaton), loc),
                    Instr::ElementPointer {
                        dst: elem,
                        ty,
                        base: pointer_to(array, loc, ty),
                        index,
                    },
                ),
                Instr::Store { volatile: loc is RegisterBlock, ty: elem_ty, value, ptr: elem },
            )
        }),
{
}

/// `automaton.field <op>= value` lowers the value, reads the field, computes the
/// operator on the field and the value in that order, and writes the result back
/// to the same field. `automaton.field = value` only writes.
pub proof fn compound_assignments_read_compute_and_write(
    env: Env,
    st: EmitState,
    automaton: Seq<char>,
    field: Seq<char>,
    op: AssignOp,
    value: Expr,
)
    requires
        mutate_short(env, st, automaton, field, op, value).1 is Ok,
    ensures
        env.locate(automaton, field) is Ok,
        expr(env, st, value).1 is Ok,
        ({
            let after = mutate_short(env, st, automaton, field, op, value).0;
            let (loc, ty) = env.locate(automaton, field)->Ok_0;
            let (st1, v) = (expr(env, st, value).0, expr(env, st, value).1->Ok_0);
            match applied(op) {
                None => after == field_store(env, st1, automaton, loc, ty, v),
                Some(operator) => {
                    let (st2, current) = field_load(st1, automaton, loc, ty);
                    let new = "%tmp."@ + dec(st2.values);
                    exists|op_text: Seq<char>, st3: EmitState|
                        {
                            &&& #[trigger] op_computes(op_text, operator, false)
                            &&& st3.out == behind(
                                st2.out,
                                Instr::Op { dst: new, op: op_text, ty, l: current, r: v },
                            )
                            &&& st3 == (EmitState {
                                out: st3.out,
                                values: st2.values + 1,
                                ..st2
                            })
                            &&& after == #[trigger] field_store(
                                env,
                                st3,
                                automaton,
                                loc,
                                ty,
                                new,
                            )
                        }
                },
            }
        }),
{
    if op != AssignOp::Eq {
        let operator = applied(op)->0;
        let op_text = crate::codegen::lowering::assign_opcode(op);
        assert forall|n: nat, a: int, b: int|
            is_pattern(n, a) && is_pattern(n, b) && is_defined(
                operator,
                false,
                n,
                a,
                b,
            ) implies (#[trigger] ir_result(op_text, n, a, b) matches Some(x) && operator_gives(
            operator,
            false,
            n,
            a,
            b,
            x,
        )) by {
            compound_assignments_compute_their_operator(op, n, a, b);
        }
        assert(op_computes(op_text, operator, false));
        let (loc, ty) = env.locate(automaton, field)->Ok_0;
        let (st1, v) = (expr(env, st, value).0, expr(env, st, value).1->Ok_0);
        let (st2, current) = field_load(st1, automaton, loc, ty);
        let new = "%tmp."@ + dec(st2.values);
        let st3 = crate::codegen::lowering::put_op(
            st2.take_value(),
            new,
            op_text,
            ty,
            current,
            v,
        );
        assert(mutate_short(env, st, automaton, field, op, value).0 == field_store(
            env,
            st3,
            automaton,
            loc,
            ty,
            new,
        ));
    }
}

/// One assignment of a `#mutate` lowers the value, then the index where there
/// is one, and writes the value to the field or to its element.
pub proof fn assignments_write_their_value(
    env: Env,
    st: EmitState,
    automaton: Seq<char>,
    fa: FieldAssign,
    at: (LocationView, Seq<char>),
)
    requires
        assign_field(env, st, automaton, fa, at).1 is Ok,
    ensures
        expr(env, st, fa.value).1 is Ok,
        ({
            let after = assign_field(env, st, automaton, fa, at).0;
            let (st1, v) = (expr(env, st, fa.value).0, expr(env, st, fa.value).1->Ok_0);
            match fa.index {
                None => after == field_store(env, st1, automaton, at.0, at.1, v),
                Some(index) => {
                    let (st2, i) = (expr(env, st1, index).0, expr(env, st1, index).1->Ok_0);
                    &&& element_ir(at.1) is Some
                    &&& expr(env, st1, index).1 is Ok
                    &&& after == index_store(
                        env,
                        st2,
                        automaton,
                        at.0,
                        at.1,
                        element_ir(at.1)->0,
                        (expr_ir(env, st2.locals, index), i),
                        v,
                    )
                },
            }
        }),
{
}

/// The `k`th assignment leads from the `k`th state to the next.
pub open spec fn assigns_next(
    env: Env,
    automaton: Seq<char>,
    assigns: Seq<FieldAssign>,
    at: Seq<(LocationView, Seq<char>)>,
    states: Seq<EmitState>,
    k: int,
) -> bool {
    let r = assign_field(env, states[k], automaton, assigns[k], at[k]);
    r.1 is Ok && r.0 == states[k + 1]
}

/// The assignments of a `#mutate` run one after another, each where the one
/// before it ended.
#[verifier::rlimit(40)]
#[verifier::spinoff_prover]
pub proof fn assignments_run_in_order(
    env: Env,
    st: EmitState,
    automaton: Seq<char>,
    assigns: Seq<FieldAssign>,
    at: Seq<(LocationView, Seq<char>)>,
) -> (states: Seq<EmitState>)
    requires
        assign_fields(env, st, automaton, assigns, at).1 is Ok,
    ensures
        states.len() == assigns.len() + 1,
        states[0] == st,
        states.last() == assign_fields(env, st, automaton, assigns, at).0,
        forall|k: int|
            0 <= k < assigns.len() ==> #[trigger] assigns_next(
                env,
                automaton,
                assigns,
                at,
                states,
                k,
            ),
    decreases assigns.len(),
{
    if assigns.len() == 0 {
        seq![st]
    } else {
        let front = assigns.drop_last();
        let before = assignments_run_in_order(env, st, automaton, front, at);
        let done = assign_fields(env, st, automaton, assigns, at).0;
        let states = before.push(done);
        assert forall|k: int| 0 <= k < assigns.len() implies #[trigger] assigns_next(
            env,
            automaton,
            assigns,
            at,
            states,
            k,
        ) by {
            if k < front.len() {
                assert(assigns_next(env, automaton, front, at, before, k));
            }
        }
        states
    }
}

/// Unchecked and volatile loads and stores are one instruction on the given
/// pointer, volatile exactly where that is asked, and marked in audited code.
pub proof fn raw_accesses_are_one_instruction(
    st: EmitState,
    ty: Seq<char>,
    ptr: Seq<char>,
    value: Seq<char>,
    n: Typed,
    volatile: bool,
)
    ensures
        ({
            let (after, loaded) = unchecked_load(st, ty, ptr, volatile);
            let dst = "%tmp."@ + dec(st.values);
            &&& loaded == dst
            &&& after.values == st.values + 1
            &&& after.out == behind(
                marked(
                    st,
                    if volatile {
                        "volatile_load"@
                    } else {
                        "unchecked_load"@
                    },
                ),
                Instr::Load { dst, volatile, ty, ptr },
            )
        }),
        unchecked_store(st, ty, ptr, value, volatile).out == behind(
            marked(
                st,
                if volatile {
                    "volatile_store"@
                } else {
                    "unchecked_store"@
                },
            ),
            Instr::Store { volatile, ty, value, ptr },
        ),
        ({
            let (after, moved) = unchecked_offset(st, ty, ptr, n);
            let dst = "%tmp."@ + dec(st.values);
            &&& moved == dst
            &&& after.values == st.values + 1
            &&& after.out == behind(
                marked(st, "unchecked_offset"@),
                Instr::OffsetPointer { dst, ty, ptr, n },
            )
        }),
{
}

/// The text so far, with a comment behind it where the code is audited.
pub open spec fn marked(st: EmitState, primitive: Seq<char>) -> Seq<char> {
    match st.audited {
        Some(owner) => st.out + "  ; audit-wrap site for "@ + owner + " ("@ + primitive
            + ") ; Decision #18\n"@,
        None => st.out,
    }
}

// ─── Lists and aggregates ──────────────────────────────────────────────────

/// Expressions in a row are lowered one after another, each where the one before
/// it ended, and give their values with their types in that order.
pub proof fn expressions_run_in_order(env: Env, st: EmitState, es: Seq<Expr>)
    requires
        exprs(env, st, es).1 is Ok,
    ensures
        exprs(env, st, es).1->Ok_0.len() == es.len(),
        exists|states: Seq<EmitState>|
            {
                &&& states.len() == es.len() + 1
                &&& #[trigger] states[0] == st
                &&& states.last() == exprs(env, st, es).0
                &&& forall|k: int|
                    0 <= k < es.len() ==> {
                        let r = expr(env, #[trigger] states[k], es[k]);
                        let v = exprs(env, st, es).1->Ok_0[k];
                        &&& r.0 == states[k + 1]
                        &&& r.1 == Ok::<Seq<char>, crate::codegen::error::CodegenErrorView>(v.1)
                        &&& v.0 == expr_ir(env, states[k + 1].locals, es[k])
                    }
            },
    decreases es.len(),
{
    if es.len() == 0 {
        assert(seq![st][0] == st);
    } else {
        let front = es.drop_last();
        expressions_run_in_order(env, st, front);
        let before = choose|states: Seq<EmitState>|
            {
                &&& states.len() == front.len() + 1
                &&& #[trigger] states[0] == st
                &&& states.last() == exprs(env, st, front).0
                &&& forall|k: int|
                    0 <= k < front.len() ==> {
                        let r = expr(env, #[trigger] states[k], front[k]);
                        let v = exprs(env, st, front).1->Ok_0[k];
                        &&& r.0 == states[k + 1]
                        &&& r.1 == Ok::<Seq<char>, crate::codegen::error::CodegenErrorView>(v.1)
                        &&& v.0 == expr_ir(env, states[k + 1].locals, front[k])
                    }
            };
        let states = before.push(exprs(env, st, es).0);
        assert(states[0] == st);
        assert forall|k: int| 0 <= k < es.len() implies {
            let r = expr(env, #[trigger] states[k], es[k]);
            let v = exprs(env, st, es).1->Ok_0[k];
            &&& r.0 == states[k + 1]
            &&& r.1 == Ok::<Seq<char>, crate::codegen::error::CodegenErrorView>(v.1)
            &&& v.0 == expr_ir(env, states[k + 1].locals, es[k])
        } by {
            assert(states[k] == before[k]);
            if k < front.len() {
                assert(front[k] == es[k]);
                assert(states[k + 1] == before[k + 1]);
            } else {
                assert(es[k] == es.last());
            }
        }
    }
}

/// An aggregate starts undefined and gets its values one after another, each at
/// its own place.
pub proof fn aggregates_hold_each_value_at_its_place(
    st: EmitState,
    ty: Seq<char>,
    values: Seq<Typed>,
)
    ensures
        values.len() == 0 ==> insert_chain(st, ty, values) == (st, "undef"@),
        values.len() > 0 ==> {
            let (before, into) = insert_chain(st, ty, values.drop_last());
            let (after, value) = insert_chain(st, ty, values);
            &&& value == "%tmp."@ + dec(before.values)
            &&& after.values == before.values + 1
            &&& after.out == behind(
                before.out,
                Instr::Insert {
                    dst: value,
                    ty,
                    into,
                    value: values.last(),
                    at: (values.len() - 1) as nat,
                },
            )
        },
{
}

/// A call of an `@fn` becomes, behind the instructions of its arguments, one
/// call of the function of that name with the arguments in order.
pub proof fn calls_pass_their_arguments_in_order(
    env: Env,
    st: EmitState,
    e: Expr,
    callee: Box<Expr>,
    args: Vec<Expr>,
    name: String,
)
    requires
        e.kind == (ExprKind::Call { callee, args }),
        callee.kind matches ExprKind::Path(segs) && segs@.len() == 1 && segs@[0] == name,
        exprs(env, st, args@).1 is Ok,
    ensures
        ({
            let before = exprs(env, st, args@).0;
            let (after, value) = expr(env, st, e);
            let dst = "%tmp."@ + dec(before.values);
            &&& value == Ok::<Seq<char>, crate::codegen::error::CodegenErrorView>(dst)
            &&& after.values == before.values + 1
            &&& after.out == behind(
                before.out,
                Instr::Call {
                    dst,
                    ty: expr_ir(env, before.locals, e),
                    callee: name@,
                    args: exprs(env, st, args@).1->Ok_0,
                },
            )
        }),
{
    expr_unfold(env, st, e);
    listed_values_are_joined(exprs(env, st, args@).1->Ok_0);
}

/// A `#>` call becomes, behind the instructions of its arguments, one call
/// without a result, with the arguments in order.
pub proof fn proc_calls_pass_their_arguments_in_order(
    env: Env,
    st: EmitState,
    s: Stmt,
    name: Seq<char>,
    args: Seq<Expr>,
)
    requires
        exprs(env, st, args).1 is Ok,
    ensures
        ({
            let before = exprs(env, st, args).0;
            let (after, outcome) = proc_call(env, st, s, name, args);
            &&& outcome is Ok
            &&& after.out == behind(
                before.out,
                Instr::Run {
                    callee: callee_symbol(env, before, s, name),
                    args: exprs(env, st, args).1->Ok_0,
                },
            )
        }),
{
    listed_values_are_joined(exprs(env, st, args).1->Ok_0);
}

} // verus!
