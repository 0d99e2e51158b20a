//! The meaning of code generation: which text every construct becomes.
//!
//! Lowering a construct takes a state of the emitter to the next one. The text
//! is described piece by piece, in the order in which it is written.
use vstd::prelude::*;

use crate::ast::{
    AssignOp, AtomicKind, AutomatonDecl, BinaryOp, Block, Expr, ExprKind, FieldAssign, Item, Param,
    Program, Stmt, StmtKind, TraitRef, TransitionDecl, TypeExpr, UnaryOp,
};
use crate::codegen::error::{not_yet, unresolved, CodegenErrorView};
use crate::codegen::irtype::{
    element_ir, float_ir, int_width, integer_ir, pointer_ir, primitive_signed, single_word_ir,
    type_ir, written_ir, written_signed,
};
use crate::codegen::literal::{
    bin_literal, count_value, hex_literal, int_literal, literal_ir, suffix_of, suffix_signed,
};
use crate::codegen::registry::{declares_transition, tag_of, Env, LocationView};
use crate::codegen::state::{find_local, EmitState, LocalStorage, LocalView};
use crate::resolve::{BindingRef, CallContext, Resolution};
use crate::text::{dec, join};
use crate::types::{Type, Typing};

verus! {

/// The value that an expression became, or why it could not be lowered.
pub type Lowered = Result<Seq<char>, CodegenErrorView>;

/// An IR type with a value of it.
pub type Typed = (Seq<char>, Seq<char>);

// ─── Types of expressions ──────────────────────────────────────────────────

/// The operator yields a truth value.
pub open spec fn yields_bool(op: BinaryOp) -> bool {
    op == BinaryOp::Eq || op == BinaryOp::Ne || op == BinaryOp::Lt || op == BinaryOp::Le || op
        == BinaryOp::Gt || op == BinaryOp::Ge || op == BinaryOp::And || op == BinaryOp::Or
}

/// The IR type of an expression: the inferred type where there is one, else a
/// guess from its form and the locals in scope.
pub open spec fn expr_ir(env: Env, locals: Seq<LocalView>, e: Expr) -> Seq<char>
    decreases e,
{
    match env.typing.type_at(e.span) {
        Some(t) => type_ir(t),
        None => match e.kind {
            ExprKind::IntLit(s) | ExprKind::HexLit(s) | ExprKind::BinLit(s) => literal_ir(s@),
            ExprKind::BoolLit(_) => "i1"@,
            ExprKind::Paren(inner) => expr_ir(env, locals, *inner),
            ExprKind::Binary { op, lhs, .. } => if yields_bool(op) {
                "i1"@
            } else {
                expr_ir(env, locals, *lhs)
            },
            ExprKind::Path(segs) => match single_name(segs@) {
                Some(name) => match find_local(locals, name) {
                    Some(b) => b.ir_type,
                    None => "i32"@,
                },
                None => "i32"@,
            },
            _ => "i32"@,
        },
    }
}

/// The expression's type is a signed integer.
pub open spec fn expr_signed(env: Env, e: Expr) -> bool
    decreases e,
{
    match env.typing.type_at(e.span) {
        Some(t) => t is Primitive && primitive_signed(t->Primitive_0),
        None => match e.kind {
            ExprKind::IntLit(s) | ExprKind::HexLit(s) | ExprKind::BinLit(s) => suffix_signed(
                suffix_of(s@),
            ),
            ExprKind::Paren(inner) => expr_signed(env, *inner),
            ExprKind::Binary { lhs, .. } => expr_signed(env, *lhs),
            _ => false,
        },
    }
}

/// The name that a path of one segment writes.
pub open spec fn single_name(segs: Seq<String>) -> Option<Seq<char>> {
    if segs.len() == 1 {
        Some(segs[0]@)
    } else {
        None
    }
}

/// The name that an expression writes, where it is a path of one segment.
pub open spec fn name_of(e: Expr) -> Option<Seq<char>> {
    match e.kind {
        ExprKind::Path(segs) => single_name(segs@),
        _ => None,
    }
}

/// The automaton that a receiver names; `Self` is the owner of the transition.
pub open spec fn receiver(
    st: EmitState,
    obj: Expr,
    outside: Seq<char>,
    other: Seq<char>,
) -> Lowered {
    match name_of(obj) {
        Some(name) => if name == "Self"@ {
            match st.owner {
                Some(o) => Ok(o),
                None => Err(not_yet(outside)),
            }
        } else {
            Ok(name)
        },
        None => Err(not_yet(other)),
    }
}

// ─── Fields ────────────────────────────────────────────────────────────────

/// `  <ptr> = getelementptr %struct.A, %struct.A* <global>, i32 0, i32 <idx>`.
pub open spec fn put_field_pointer(
    st: EmitState,
    ptr: Seq<char>,
    automaton: Seq<char>,
    global: Seq<char>,
    idx: nat,
) -> EmitState {
    st.put("  "@).put(ptr).put(" = getelementptr %struct."@).put(automaton).put(", %struct."@).put(
        automaton,
    ).put("* "@).put(global).put(", i32 0, i32 "@).put(dec(idx)).put("\n"@)
}

/// `  <val> = <load> <ty>, <ty>* <ptr>`.
pub open spec fn put_load(
    st: EmitState,
    val: Seq<char>,
    keyword: Seq<char>,
    ty: Seq<char>,
    ptr: Seq<char>,
) -> EmitState {
    st.put("  "@).put(val).put(" = "@).put(keyword).put(" "@).put(ty).put(", "@).put(ty).put(
        "* "@,
    ).put(ptr).put("\n"@)
}

/// `  <store> <ty> <val>, <ty>* <ptr>`.
pub open spec fn put_store(
    st: EmitState,
    keyword: Seq<char>,
    ty: Seq<char>,
    val: Seq<char>,
    ptr: Seq<char>,
) -> EmitState {
    st.put("  "@).put(keyword).put(" "@).put(ty).put(" "@).put(val).put(", "@).put(ty).put(
        "* "@,
    ).put(ptr).put("\n"@)
}

/// A fixed address as a pointer to `ty`.
pub open spec fn register_pointer(address: nat, ty: Seq<char>) -> Seq<char> {
    "inttoptr (i64 "@ + dec(address) + " to "@ + ty + "*)"@
}

/// The live state of an automaton.
pub open spec fn live_global(automaton: Seq<char>) -> Seq<char> {
    "@"@ + automaton + ".state"@
}

/// Reads a field from the live state, or from its register.
pub open spec fn field_load(
    st: EmitState,
    automaton: Seq<char>,
    loc: LocationView,
    ty: Seq<char>,
) -> (EmitState, Seq<char>) {
    match loc {
        LocationView::Struct { idx } => {
            let ptr = st.next_value();
            let st1 = put_field_pointer(
                st.take_value(),
                ptr,
                automaton,
                live_global(automaton),
                idx,
            );
            let val = st1.next_value();
            (put_load(st1.take_value(), val, "load"@, ty, ptr), val)
        },
        LocationView::RegisterBlock { address } => {
            let val = st.next_value();
            (
                put_load(
                    st.take_value(),
                    val,
                    "load volatile"@,
                    ty,
                    register_pointer(address, ty),
                ),
                val,
            )
        },
    }
}

/// Writes a field of the automaton's write global, or its register.
pub open spec fn field_store(
    env: Env,
    st: EmitState,
    automaton: Seq<char>,
    loc: LocationView,
    ty: Seq<char>,
    value: Seq<char>,
) -> EmitState {
    match loc {
        LocationView::Struct { idx } => {
            let ptr = st.next_value();
            put_store(
                put_field_pointer(
                    st.take_value(),
                    ptr,
                    automaton,
                    env.write_global(automaton),
                    idx,
                ),
                "store"@,
                ty,
                value,
                ptr,
            )
        },
        LocationView::RegisterBlock { address } => {
            put_store(st, "store volatile"@, ty, value, register_pointer(address, ty))
        },
    }
}

/// The pointer to an array field in `global`, or to its registers.
pub open spec fn array_pointer(
    st: EmitState,
    automaton: Seq<char>,
    global: Seq<char>,
    loc: LocationView,
    ty: Seq<char>,
) -> (EmitState, Seq<char>) {
    match loc {
        LocationView::Struct { idx } => {
            let ptr = st.next_value();
            (put_field_pointer(st.take_value(), ptr, automaton, global, idx), ptr)
        },
        LocationView::RegisterBlock { address } => (st, register_pointer(address, ty)),
    }
}

/// `  <elem> = getelementptr <ty>, <ty>* <field>, i32 0, <index type> <index>`.
pub open spec fn put_element_pointer(
    st: EmitState,
    elem: Seq<char>,
    ty: Seq<char>,
    field: Seq<char>,
    index: Typed,
) -> EmitState {
    st.put("  "@).put(elem).put(" = getelementptr "@).put(ty).put(", "@).put(ty).put("* "@).put(
        field,
    ).put(", i32 0, "@).put(index.0).put(" "@).put(index.1).put("\n"@)
}

/// Reads `automaton.field`.
pub open spec fn field_access(
    env: Env,
    st: EmitState,
    automaton: Seq<char>,
    field: Seq<char>,
) -> (EmitState, Lowered) {
    match env.locate(automaton, field) {
        Err(e) => (st, Err(e)),
        Ok((loc, ty)) => {
            let (st1, val) = field_load(st, automaton, loc, ty);
            (st1, Ok(val))
        },
    }
}

/// Reads `@snapshot automaton.field`, where the field is read in one piece.
pub open spec fn snapshot(
    env: Env,
    st: EmitState,
    automaton: Seq<char>,
    field: Seq<char>,
) -> (EmitState, Lowered) {
    if automaton == "Self"@ && st.owner is None {
        (st, Err(not_yet("@snapshot Self.field outside a #transition body"@)))
    } else {
        let name = if automaton == "Self"@ {
            st.owner->0
        } else {
            automaton
        };
        match env.locate(name, field) {
            Err(_) => (st, Err(unresolved(name + "."@ + field))),
            Ok((_, ty)) => if !single_word_ir(ty) {
                (
                    st,
                    Err(
                        not_yet(
                            "@snapshot of non-primitive field (compound types tear at the load level; future slice may add memcpy-snapshot)"@,
                        ),
                    ),
                )
            } else {
                field_access(env, st, name, field)
            },
        }
    }
}

/// Reads `automaton@state`.
pub open spec fn state_read(env: Env, st: EmitState, automaton: Seq<char>) -> (EmitState, Lowered) {
    match env.automaton(automaton) {
        None => (st, Err(unresolved(automaton))),
        Some(a) => if a.is_register_block {
            (st, Err(not_yet("Auto@state on a register-block automaton"@)))
        } else if !a.is_multi_state() {
            (st, Err(not_yet("Auto@state on a monoid automaton (no `#states` clause)"@)))
        } else {
            let ptr = st.next_value();
            let st1 = put_field_pointer(
                st.take_value(),
                ptr,
                automaton,
                live_global(automaton),
                0,
            );
            let val = st1.next_value();
            (put_load(st1.take_value(), val, "load"@, "i32"@, ptr), Ok(val))
        },
    }
}

/// The array field that `obj[…]` indexes: automaton, location, type, element type.
pub open spec fn indexed_field(env: Env, st: EmitState, obj: Expr) -> Result<
    (Seq<char>, LocationView, Seq<char>, Seq<char>),
    CodegenErrorView,
> {
    match obj.kind {
        ExprKind::FieldAccess { obj: inner, field } => match receiver(
            st,
            *inner,
            "Self.field[i] outside a #transition body"@,
            "Index where receiver isn't Auto.field / Self.field"@,
        ) {
            Err(e) => Err(e),
            Ok(automaton) => match env.locate(automaton, field@) {
                Err(e) => Err(e),
                Ok((loc, ty)) => match element_ir(ty) {
                    None => Err(not_yet("indexed read on non-array field"@)),
                    Some(elem) => Ok((automaton, loc, ty, elem)),
                },
            },
        },
        _ => Err(
            not_yet(
                "Index where receiver isn't a field access (slice 5 supports Auto.field[i] only)"@,
            ),
        ),
    }
}

/// Reads an element of an array field, once the index is lowered.
pub open spec fn index_load(
    st: EmitState,
    automaton: Seq<char>,
    loc: LocationView,
    ty: Seq<char>,
    elem_ty: Seq<char>,
    index: Typed,
) -> (EmitState, Seq<char>) {
    let (st1, field) = array_pointer(st, automaton, live_global(automaton), loc, ty);
    let elem = st1.next_value();
    let st2 = put_element_pointer(st1.take_value(), elem, ty, field, index);
    let val = st2.next_value();
    let keyword = if loc is RegisterBlock {
        "load volatile"@
    } else {
        "load"@
    };
    (put_load(st2.take_value(), val, keyword, elem_ty, elem), val)
}

/// Writes an element of an array field, once the index is lowered.
pub open spec fn index_store(
    env: Env,
    st: EmitState,
    automaton: Seq<char>,
    loc: LocationView,
    ty: Seq<char>,
    elem_ty: Seq<char>,
    index: Typed,
    value: Seq<char>,
) -> EmitState {
    let (st1, field) = array_pointer(st, automaton, env.write_global(automaton), loc, ty);
    let elem = st1.next_value();
    let st2 = put_element_pointer(st1.take_value(), elem, ty, field, index);
    let keyword = if loc is RegisterBlock {
        "store volatile"@
    } else {
        "store"@
    };
    put_store(st2, keyword, elem_ty, value, elem)
}

// ─── Operators, casts, aggregates ──────────────────────────────────────────

/// `  <dst> = <op> <ty> <l>, <r>`.
pub open spec fn put_op(
    st: EmitState,
    dst: Seq<char>,
    op: Seq<char>,
    ty: Seq<char>,
    l: Seq<char>,
    r: Seq<char>,
) -> EmitState {
    st.put("  "@).put(dst).put(" = "@).put(op).put(" "@).put(ty).put(" "@).put(l).put(", "@).put(
        r,
    ).put("\n"@)
}

/// The instruction for a binary operator on operands of the given signedness.
pub open spec fn binary_opcode(op: BinaryOp, signed: bool) -> Seq<char> {
    match op {
        BinaryOp::Eq => "icmp eq"@,
        BinaryOp::Ne => "icmp ne"@,
        BinaryOp::Lt => if signed {
            "icmp slt"@
        } else {
            "icmp ult"@
        },
        BinaryOp::Le => if signed {
            "icmp sle"@
        } else {
            "icmp ule"@
        },
        BinaryOp::Gt => if signed {
            "icmp sgt"@
        } else {
            "icmp ugt"@
        },
        BinaryOp::Ge => if signed {
            "icmp sge"@
        } else {
            "icmp uge"@
        },
        BinaryOp::Add => "add"@,
        BinaryOp::Sub => "sub"@,
        BinaryOp::Mul => "mul"@,
        BinaryOp::Div => if signed {
            "sdiv"@
        } else {
            "udiv"@
        },
        BinaryOp::Rem => if signed {
            "srem"@
        } else {
            "urem"@
        },
        BinaryOp::And | BinaryOp::BitAnd => "and"@,
        BinaryOp::Or | BinaryOp::BitOr => "or"@,
        BinaryOp::BitXor => "xor"@,
        BinaryOp::Shl => "shl"@,
        BinaryOp::Shr => if signed {
            "ashr"@
        } else {
            "lshr"@
        },
    }
}

/// A binary operator, once both operands are lowered.
pub open spec fn binary(
    env: Env,
    st: EmitState,
    op: BinaryOp,
    lhs: Expr,
    l: Seq<char>,
    r: Seq<char>,
) -> (EmitState, Seq<char>) {
    let dst = st.next_value();
    (
        put_op(
            st.take_value(),
            dst,
            binary_opcode(op, expr_signed(env, lhs)),
            expr_ir(env, st.locals, lhs),
            l,
            r,
        ),
        dst,
    )
}

/// The IR type that a reference expression points to.
pub open spec fn pointee_ir(env: Env, operand: Expr) -> Lowered {
    match env.typing.type_at(operand.span) {
        Some(Type::Ref { inner, .. }) => Ok(type_ir(*inner)),
        _ => Err(
            not_yet("deref of non-reference operand (Typing didn't record a Ref type)"@),
        ),
    }
}

/// A unary operator, once its operand is lowered.
pub open spec fn unary(
    env: Env,
    st: EmitState,
    op: UnaryOp,
    operand: Expr,
    v: Seq<char>,
) -> (EmitState, Lowered) {
    let ty = expr_ir(env, st.locals, operand);
    let dst = st.next_value();
    let next = st.take_value();
    match op {
        UnaryOp::Neg => if integer_ir(ty) {
            (put_op(next, dst, "sub"@, ty, "0"@, v), Ok(dst))
        } else if float_ir(ty) {
            (
                next.put("  "@).put(dst).put(" = fneg "@).put(ty).put(" "@).put(v).put("\n"@),
                Ok(dst),
            )
        } else {
            (next, Err(not_yet("unary `-` on non-scalar type"@)))
        },
        UnaryOp::Not => (put_op(next, dst, "xor"@, "i1"@, v, "true"@), Ok(dst)),
        UnaryOp::BitNot => if !integer_ir(ty) {
            (st, Err(not_yet("bitwise `~` on non-integer type"@)))
        } else {
            (put_op(next, dst, "xor"@, ty, v, "-1"@), Ok(dst))
        },
        UnaryOp::Deref => match pointee_ir(env, operand) {
            Err(e) => (st, Err(e)),
            Ok(pointee) => (put_load(next, dst, "load"@, pointee, v), Ok(dst)),
        },
    }
}

/// `  <dst> = <op> <from> <v> to <to>`.
pub open spec fn put_conversion(
    st: EmitState,
    dst: Seq<char>,
    op: Seq<char>,
    from: Seq<char>,
    v: Seq<char>,
    to: Seq<char>,
) -> EmitState {
    st.put("  "@).put(dst).put(" = "@).put(op).put(" "@).put(from).put(" "@).put(v).put(
        " to "@,
    ).put(to).put("\n"@)
}

/// The instruction between integers of the given widths.
pub open spec fn resize_opcode(from: nat, to: nat, signed: bool) -> Seq<char> {
    if to < from {
        "trunc"@
    } else if signed {
        "sext"@
    } else {
        "zext"@
    }
}

/// `value as ty`, once the value is lowered.
pub open spec fn cast(
    st: EmitState,
    from: Seq<char>,
    to: Seq<char>,
    signed: bool,
    v: Seq<char>,
) -> (EmitState, Lowered) {
    if from == to {
        (st, Ok(v))
    } else if int_width(from) is Some && int_width(to) is Some {
        let dst = st.next_value();
        let op = resize_opcode(int_width(from)->0, int_width(to)->0, signed);
        (put_conversion(st.take_value(), dst, op, from, v, to), Ok(dst))
    } else {
        (st, Err(not_yet("non-integer cast (float / pointer / aggregate)"@)))
    }
}

/// In an audited transition, a comment that marks an unsafe primitive.
pub open spec fn audit_marker(st: EmitState, primitive: Seq<char>) -> EmitState {
    match st.audited {
        Some(owner) => st.put("  ; audit-wrap site for "@).put(owner).put(" ("@).put(
            primitive,
        ).put(") ; Decision #18\n"@),
        None => st,
    }
}

/// `#unchecked_cast`, once the value is lowered.
pub open spec fn unchecked_cast(
    st: EmitState,
    from: Seq<char>,
    to: Seq<char>,
    signed: bool,
    v: Seq<char>,
) -> (EmitState, Seq<char>) {
    if from == to {
        (st, v)
    } else {
        let op = if int_width(from) is Some && int_width(to) is Some {
            resize_opcode(int_width(from)->0, int_width(to)->0, signed)
        } else if pointer_ir(from) && !pointer_ir(to) && int_width(to) is Some {
            "ptrtoint"@
        } else if !pointer_ir(from) && pointer_ir(to) && int_width(from) is Some {
            "inttoptr"@
        } else {
            "bitcast"@
        };
        let st1 = audit_marker(st, "unchecked_cast"@);
        let dst = st1.next_value();
        (put_conversion(st1.take_value(), dst, op, from, v, to), dst)
    }
}

/// `#unchecked_load` or `#volatile_load`, once the pointer is lowered.
pub open spec fn unchecked_load(
    st: EmitState,
    ty: Seq<char>,
    ptr: Seq<char>,
    volatile: bool,
) -> (EmitState, Seq<char>) {
    let val = st.next_value();
    let st1 = audit_marker(
        st.take_value(),
        if volatile {
            "volatile_load"@
        } else {
            "unchecked_load"@
        },
    );
    let keyword = if volatile {
        "load volatile"@
    } else {
        "load"@
    };
    (put_load(st1, val, keyword, ty, ptr), val)
}

/// `#unchecked_store` or `#volatile_store`, once pointer and value are lowered.
pub open spec fn unchecked_store(
    st: EmitState,
    ty: Seq<char>,
    ptr: Seq<char>,
    value: Seq<char>,
    volatile: bool,
) -> EmitState {
    let st1 = audit_marker(
        st,
        if volatile {
            "volatile_store"@
        } else {
            "unchecked_store"@
        },
    );
    let keyword = if volatile {
        "store volatile"@
    } else {
        "store"@
    };
    put_store(st1, keyword, ty, value, ptr)
}

/// `#unchecked_offset`, once pointer and count are lowered.
pub open spec fn unchecked_offset(
    st: EmitState,
    ty: Seq<char>,
    ptr: Seq<char>,
    n: Typed,
) -> (EmitState, Seq<char>) {
    let dst = st.next_value();
    let st1 = audit_marker(st.take_value(), "unchecked_offset"@);
    (
        st1.put("  "@).put(dst).put(" = getelementptr "@).put(ty).put(", "@).put(ty).put(
            "* "@,
        ).put(ptr).put(", "@).put(n.0).put(" "@).put(n.1).put("\n"@),
        dst,
    )
}

/// Puts the values one after another into an aggregate that starts undefined.
pub open spec fn insert_chain(
    st: EmitState,
    agg_ty: Seq<char>,
    values: Seq<Typed>,
) -> (EmitState, Seq<char>)
    decreases values.len(),
{
    if values.len() == 0 {
        (st, "undef"@)
    } else {
        let (st1, current) = insert_chain(st, agg_ty, values.drop_last());
        let next = st1.next_value();
        (
            st1.take_value().put("  "@).put(next).put(" = insertvalue "@).put(agg_ty).put(
                " "@,
            ).put(current).put(", "@).put(values.last().0).put(" "@).put(values.last().1).put(
                ", "@,
            ).put(dec((values.len() - 1) as nat)).put("\n"@),
            next,
        )
    }
}

/// The arguments of a call: each with its type.
pub open spec fn arguments(args: Seq<Typed>) -> Seq<Seq<char>> {
    Seq::new(args.len(), |i: int| args[i].0 + " "@ + args[i].1)
}

/// A call of an `@fn`, once the arguments are lowered.
pub open spec fn call(
    env: Env,
    st: EmitState,
    e: Expr,
    name: Seq<char>,
    args: Seq<Typed>,
) -> (EmitState, Seq<char>) {
    let dst = st.next_value();
    (
        st.take_value().put("  "@).put(dst).put(" = call "@).put(expr_ir(env, st.locals, e)).put(
            " @"@,
        ).put(name).put("("@).put(join(arguments(args))).put(")\n"@),
        dst,
    )
}

/// Reads a local.
pub open spec fn local_read(st: EmitState, name: Seq<char>) -> (EmitState, Lowered) {
    match find_local(st.locals, name) {
        None => (st, Err(unresolved(name))),
        Some(b) => match b.storage {
            LocalStorage::Ssa => (st, Ok(b.value)),
            LocalStorage::Stack => {
                let val = st.next_value();
                (put_load(st.take_value(), val, "load"@, b.ir_type, b.value), Ok(val))
            },
        },
    }
}

/// What an expression is called in an error.
pub open spec fn expr_name(k: ExprKind) -> Seq<char> {
    match k {
        ExprKind::IntLit(_) => "integer literal"@,
        ExprKind::HexLit(_) => "hex literal"@,
        ExprKind::BinLit(_) => "binary literal"@,
        ExprKind::FloatLit(_) => "float literal"@,
        ExprKind::CharLit(_) => "char literal"@,
        ExprKind::ByteLit(_) => "byte literal"@,
        ExprKind::StringLit(_) => "string literal"@,
        ExprKind::BoolLit(_) => "bool literal"@,
        ExprKind::Null => "null literal"@,
        ExprKind::Path(_) => "path expression"@,
        ExprKind::StateRead(_) => "Auto@state expression"@,
        ExprKind::Snapshot { .. } => "@snapshot expression"@,
        ExprKind::Shadow { .. } => "unknown expression kind"@,
        ExprKind::Paren(_) => "parenthesised expression"@,
        ExprKind::Tuple(_) => "tuple expression"@,
        ExprKind::Array(_) => "array literal"@,
        ExprKind::ArrayRepeat { .. } => "array-repeat literal"@,
        ExprKind::FieldAccess { .. } => "field access"@,
        ExprKind::Index { .. } => "index expression"@,
        ExprKind::Call { .. } => "call expression"@,
        ExprKind::MethodCall { .. } => "method call"@,
        ExprKind::Unary { .. } => "unary expression"@,
        ExprKind::Ref { .. } => "borrow expression"@,
        ExprKind::Binary { .. } => "binary expression"@,
        ExprKind::Cast { .. } => "cast expression"@,
        ExprKind::Range { .. } => "range expression"@,
        ExprKind::UncheckedLoad { .. } => "#unchecked_load expression"@,
        ExprKind::VolatileLoad { .. } => "#volatile_load expression"@,
        ExprKind::UncheckedCast { .. } => "#unchecked_cast expression"@,
        ExprKind::UncheckedOffset { .. } => "#unchecked_offset expression"@,
    }
}

// ─── Expressions ───────────────────────────────────────────────────────────

/// The value text of a parsed literal.
pub open spec fn literal_value(r: Result<Typed, CodegenErrorView>) -> Lowered {
    match r {
        Ok((v, _)) => Ok(v),
        Err(e) => Err(e),
    }
}

/// An expression becomes instructions and the value that holds its result.
#[verifier::opaque]
pub open spec fn expr(env: Env, st: EmitState, e: Expr) -> (EmitState, Lowered)
    decreases e, 1nat,
{
    expr_step(env, st, e)
}

/// What an expression becomes, given what its parts become.
pub open spec fn expr_step(env: Env, st: EmitState, e: Expr) -> (EmitState, Lowered)
    decreases e, 0nat,
{
    match e.kind {
        ExprKind::IntLit(s) => (st, literal_value(int_literal(s@))),
        ExprKind::HexLit(s) => (st, literal_value(hex_literal(s@))),
        ExprKind::BinLit(s) => (st, literal_value(bin_literal(s@))),
        ExprKind::BoolLit(b) => (
            st,
            Ok(
                if b {
                    "1"@
                } else {
                    "0"@
                },
            ),
        ),
        ExprKind::Path(segs) => match single_name(segs@) {
            Some(name) => local_read(st, name),
            None => (st, Err(not_yet("multi-segment path expression"@))),
        },
        ExprKind::Paren(inner) => expr(env, st, *inner),
        ExprKind::Unary { op, operand } => match expr(env, st, *operand) {
            (st1, Err(x)) => (st1, Err(x)),
            (st1, Ok(v)) => unary(env, st1, op, *operand, v),
        },
        ExprKind::Binary { op, lhs, rhs } => match expr(env, st, *lhs) {
            (st1, Err(x)) => (st1, Err(x)),
            (st1, Ok(l)) => match expr(env, st1, *rhs) {
                (st2, Err(x)) => (st2, Err(x)),
                (st2, Ok(r)) => {
                    let (st3, v) = binary(env, st2, op, *lhs, l, r);
                    (st3, Ok(v))
                },
            },
        },
        ExprKind::Call { callee, args } => match name_of(*callee) {
            None => (st, Err(not_yet("non-path call callee"@))),
            Some(name) => match exprs(env, st, args@) {
                (st1, Err(x)) => (st1, Err(x)),
                (st1, Ok(vs)) => {
                    let (st2, v) = call(env, st1, e, name, vs);
                    (st2, Ok(v))
                },
            },
        },
        ExprKind::FieldAccess { obj, field } => match receiver(
            st,
            *obj,
            "Self.field outside a #transition body"@,
            "non-path receiver in FieldAccess (slice 3+ supports Auto.field / Self.field)"@,
        ) {
            Err(x) => (st, Err(x)),
            Ok(automaton) => field_access(env, st, automaton, field@),
        },
        ExprKind::Snapshot { automaton, field } => snapshot(env, st, automaton@, field@),
        ExprKind::Index { obj, index } => match indexed_field(env, st, *obj) {
            Err(x) => (st, Err(x)),
            Ok((automaton, loc, ty, elem_ty)) => match expr(env, st, *index) {
                (st1, Err(x)) => (st1, Err(x)),
                (st1, Ok(i)) => {
                    let (st2, v) = index_load(
                        st1,
                        automaton,
                        loc,
                        ty,
                        elem_ty,
                        (expr_ir(env, st1.locals, *index), i),
                    );
                    (st2, Ok(v))
                },
            },
        },
        ExprKind::Tuple(elems) => {
            let agg_ty = expr_ir(env, st.locals, e);
            match exprs(env, st, elems@) {
                (st1, Err(x)) => (st1, Err(x)),
                (st1, Ok(vs)) => {
                    let (st2, v) = insert_chain(st1, agg_ty, vs);
                    (st2, Ok(v))
                },
            }
        },
        ExprKind::Array(elems) => if elems@.len() == 0 {
            (st, Err(not_yet("empty array literal `[]`"@)))
        } else {
            let agg_ty = expr_ir(env, st.locals, e);
            match exprs(env, st, elems@) {
                (st1, Err(x)) => (st1, Err(x)),
                (st1, Ok(vs)) => {
                    let (st2, v) = insert_chain(st1, agg_ty, vs);
                    (st2, Ok(v))
                },
            }
        },
        ExprKind::ArrayRepeat { value, count } => match count_value(*count) {
            None => (
                st,
                Err(not_yet("array-repeat count that isn't a const integer literal"@)),
            ),
            Some(n) => {
                let agg_ty = expr_ir(env, st.locals, e);
                match expr(env, st, *value) {
                    (st1, Err(x)) => (st1, Err(x)),
                    (st1, Ok(v)) => {
                        let elem = (expr_ir(env, st1.locals, *value), v);
                        let (st2, r) = insert_chain(st1, agg_ty, Seq::new(n, |i: int| elem));
                        (st2, Ok(r))
                    },
                }
            },
        },
        ExprKind::Cast { value, ty } => {
            let from = expr_ir(env, st.locals, *value);
            match written_ir(ty) {
                Err(x) => (st, Err(x)),
                Ok(to) => match expr(env, st, *value) {
                    (st1, Err(x)) => (st1, Err(x)),
                    (st1, Ok(v)) => cast(st1, from, to, expr_signed(env, *value), v),
                },
            }
        },
        ExprKind::StateRead(name) => state_read(env, st, name@),
        ExprKind::UncheckedLoad { ty, ptr } => match written_ir(ty) {
            Err(x) => (st, Err(x)),
            Ok(t) => match expr(env, st, *ptr) {
                (st1, Err(x)) => (st1, Err(x)),
                (st1, Ok(p)) => {
                    let (st2, v) = unchecked_load(st1, t, p, false);
                    (st2, Ok(v))
                },
            },
        },
        ExprKind::VolatileLoad { ty, ptr } => match written_ir(ty) {
            Err(x) => (st, Err(x)),
            Ok(t) => match expr(env, st, *ptr) {
                (st1, Err(x)) => (st1, Err(x)),
                (st1, Ok(p)) => {
                    let (st2, v) = unchecked_load(st1, t, p, true);
                    (st2, Ok(v))
                },
            },
        },
        ExprKind::UncheckedCast { from_ty, to_ty, value, .. } => match written_ir(from_ty) {
            Err(x) => (st, Err(x)),
            Ok(from) => match written_ir(to_ty) {
                Err(x) => (st, Err(x)),
                Ok(to) => match expr(env, st, *value) {
                    (st1, Err(x)) => (st1, Err(x)),
                    (st1, Ok(v)) => {
                        let (st2, r) = unchecked_cast(st1, from, to, written_signed(from_ty), v);
                        (st2, Ok(r))
                    },
                },
            },
        },
        ExprKind::UncheckedOffset { ty, ptr, n } => match written_ir(ty) {
            Err(x) => (st, Err(x)),
            Ok(t) => match expr(env, st, *ptr) {
                (st1, Err(x)) => (st1, Err(x)),
                (st1, Ok(p)) => {
                    let n_ty = expr_ir(env, st1.locals, *n);
                    match expr(env, st1, *n) {
                        (st2, Err(x)) => (st2, Err(x)),
                        (st2, Ok(k)) => {
                            let (st3, v) = unchecked_offset(st2, t, p, (n_ty, k));
                            (st3, Ok(v))
                        },
                    }
                },
            },
        },
        _ => (st, Err(not_yet(expr_name(e.kind)))),
    }
}

/// Expressions in order, each with its IR type, up to the first that fails.
pub open spec fn exprs(env: Env, st: EmitState, es: Seq<Expr>) -> (
    EmitState,
    Result<Seq<Typed>, CodegenErrorView>,
)
    decreases es, 2nat,
{
    if es.len() == 0 {
        (st, Ok(Seq::empty()))
    } else {
        match exprs(env, st, es.drop_last()) {
            (st1, Err(x)) => (st1, Err(x)),
            (st1, Ok(vs)) => match expr(env, st1, es.last()) {
                (st2, Err(x)) => (st2, Err(x)),
                (st2, Ok(v)) => (st2, Ok(vs.push((expr_ir(env, st2.locals, es.last()), v)))),
            },
        }
    }
}

/// What an expression becomes is given by its form and its parts.
pub proof fn expr_unfold(env: Env, st: EmitState, e: Expr)
    ensures
        expr(env, st, e) == expr_step(env, st, e),
{
    reveal(expr);
}

// ─── Returns ───────────────────────────────────────────────────────────────

/// What is due before every return: the state tag is written first, then the
/// fence publishes it, and only then are interrupts unmasked.
pub open spec fn exit_sequence(env: Env, st: EmitState) -> EmitState {
    let st1 = match st.tag_write {
        Some((automaton, tag)) => {
            let ptr = st.next_value();
            put_store(
                put_field_pointer(
                    st.take_value(),
                    ptr,
                    automaton,
                    env.write_global(automaton),
                    0,
                ),
                "store"@,
                "i32"@,
                dec(tag),
                ptr,
            )
        },
        None => st,
    };
    let st2 = match st1.exit_fence {
        Some(ordering) => st1.put("  fence "@).put(ordering).put("\n"@),
        None => st1,
    };
    if st2.unmask {
        st2.put(
            "  call void asm sideeffect \"cpsie i\", \"\"() ; #atomic: interrupt_critical exit (unmask)\n"@,
        )
    } else {
        st2
    }
}

/// Returns nothing.
pub open spec fn return_void(env: Env, st: EmitState) -> EmitState {
    exit_sequence(env, st).put("  ret void\n"@).terminate()
}

/// Returns a value of the given type.
pub open spec fn return_value(env: Env, st: EmitState, v: Typed) -> EmitState {
    exit_sequence(env, st).put("  ret "@).put(v.0).put(" "@).put(v.1).put("\n"@).terminate()
}

// ─── Statements ────────────────────────────────────────────────────────────

/// Gives a scalar value a name of its own; other values keep theirs.
pub open spec fn bind_identity(st: EmitState, ty: Seq<char>, v: Seq<char>) -> (
    EmitState,
    Seq<char>,
) {
    let name = st.next_value();
    if integer_ir(ty) {
        (put_op(st.take_value(), name, "add"@, ty, "0"@, v), name)
    } else if float_ir(ty) {
        (put_op(st.take_value(), name, "fadd"@, ty, "0.0"@, v), name)
    } else {
        (st, v)
    }
}

/// `let name = v`.
pub open spec fn let_value(st: EmitState, name: Seq<char>, ty: Seq<char>, v: Seq<char>) -> EmitState {
    let (st1, value) = bind_identity(st, ty, v);
    st1.bind(LocalView { name, value, ir_type: ty, storage: LocalStorage::Ssa })
}

/// `let mut name = v`.
pub open spec fn let_slot(st: EmitState, name: Seq<char>, ty: Seq<char>, v: Seq<char>) -> EmitState {
    let ptr = st.next_value();
    put_store(
        st.take_value().put("  "@).put(ptr).put(" = alloca "@).put(ty).put("\n"@),
        "store"@,
        ty,
        v,
        ptr,
    ).bind(LocalView { name, value: ptr, ir_type: ty, storage: LocalStorage::Stack })
}

/// Where each assigned field lives, or the first name that refers to nothing.
pub open spec fn locate_all(env: Env, automaton: Seq<char>, assigns: Seq<FieldAssign>) -> Result<
    Seq<(LocationView, Seq<char>)>,
    CodegenErrorView,
>
    decreases assigns.len(),
{
    if assigns.len() == 0 {
        match env.automaton(automaton) {
            None => Err(unresolved(automaton)),
            Some(_) => Ok(Seq::empty()),
        }
    } else {
        match locate_all(env, automaton, assigns.drop_last()) {
            Err(x) => Err(x),
            Ok(locs) => match env.locate(automaton, assigns.last().field@) {
                Err(x) => Err(x),
                Ok(l) => Ok(locs.push(l)),
            },
        }
    }
}

/// One `field = value` or `field[index] = value` of a `#mutate`.
pub open spec fn assign_field(
    env: Env,
    st: EmitState,
    automaton: Seq<char>,
    fa: FieldAssign,
    at: (LocationView, Seq<char>),
) -> (EmitState, Result<(), CodegenErrorView>) {
    match expr(env, st, fa.value) {
        (st1, Err(x)) => (st1, Err(x)),
        (st1, Ok(v)) => match fa.index {
            None => (field_store(env, st1, automaton, at.0, at.1, v), Ok(())),
            Some(index) => match element_ir(at.1) {
                None => (st1, Err(not_yet("indexed field assignment on non-array field"@))),
                Some(elem_ty) => match expr(env, st1, index) {
                    (st2, Err(x)) => (st2, Err(x)),
                    (st2, Ok(i)) => (
                        index_store(
                            env,
                            st2,
                            automaton,
                            at.0,
                            at.1,
                            elem_ty,
                            (expr_ir(env, st2.locals, index), i),
                            v,
                        ),
                        Ok(()),
                    ),
                },
            },
        },
    }
}

/// The assignments of a `#mutate` in order, up to the first that fails.
pub open spec fn assign_fields(
    env: Env,
    st: EmitState,
    automaton: Seq<char>,
    assigns: Seq<FieldAssign>,
    at: Seq<(LocationView, Seq<char>)>,
) -> (EmitState, Result<(), CodegenErrorView>)
    decreases assigns.len(),
{
    if assigns.len() == 0 {
        (st, Ok(()))
    } else {
        match assign_fields(env, st, automaton, assigns.drop_last(), at) {
            (st1, Err(x)) => (st1, Err(x)),
            (st1, Ok(_)) => assign_field(
                env,
                st1,
                automaton,
                assigns.last(),
                at[assigns.len() - 1],
            ),
        }
    }
}

/// `#mutate automaton { … }`: every field is found before anything is written.
pub open spec fn mutate(
    env: Env,
    st: EmitState,
    automaton: Seq<char>,
    assigns: Seq<FieldAssign>,
) -> (EmitState, Result<(), CodegenErrorView>) {
    match locate_all(env, automaton, assigns) {
        Err(x) => (st, Err(x)),
        Ok(at) => assign_fields(env, st, automaton, assigns, at),
    }
}

/// The instruction of a compound assignment. Division, remainder and right
/// shift are the unsigned ones.
pub open spec fn assign_opcode(op: AssignOp) -> Seq<char> {
    match op {
        AssignOp::PlusEq => "add"@,
        AssignOp::MinusEq => "sub"@,
        AssignOp::StarEq => "mul"@,
        AssignOp::SlashEq => "udiv"@,
        AssignOp::PercentEq => "urem"@,
        AssignOp::AmpEq => "and"@,
        AssignOp::PipeEq => "or"@,
        AssignOp::CaretEq => "xor"@,
        AssignOp::ShlEq => "shl"@,
        AssignOp::ShrEq => "lshr"@,
        AssignOp::Eq => "store"@,
    }
}

/// `automaton.field <op>= value`: a compound assignment reads the live state,
/// computes, and writes. It has no lowering for floats.
pub open spec fn mutate_short(
    env: Env,
    st: EmitState,
    automaton: Seq<char>,
    field: Seq<char>,
    op: AssignOp,
    value: Expr,
) -> (EmitState, Result<(), CodegenErrorView>) {
    match env.locate(automaton, field) {
        Err(x) => (st, Err(x)),
        Ok((loc, ty)) => if op != AssignOp::Eq && float_ir(ty) {
            (st, Err(not_yet("compound assignment on a float field"@)))
        } else {
            match expr(env, st, value) {
                (st1, Err(x)) => (st1, Err(x)),
                (st1, Ok(v)) => if op == AssignOp::Eq {
                    (field_store(env, st1, automaton, loc, ty, v), Ok(()))
                } else {
                    let (st2, cur) = field_load(st1, automaton, loc, ty);
                    let new = st2.next_value();
                    let st3 = put_op(st2.take_value(), new, assign_opcode(op), ty, cur, v);
                    (field_store(env, st3, automaton, loc, ty, new), Ok(()))
                },
            }
        },
    }
}

/// The automaton whose transition a `#>` call means: inside a transition the
/// same automaton where it declares one of that name, else the first automaton
/// that does. Where none does, the one that the call stands in is kept.
pub open spec fn callee_owner(env: Env, st: EmitState, name: Seq<char>) -> Seq<char> {
    match st.owner {
        Some(o) if declares_transition(env.items, o, name) => o,
        _ => match env.owner(name) {
            Some(o) => o,
            None => match st.owner {
                Some(o) => o,
                None => Seq::empty(),
            },
        },
    }
}

/// The symbol that a `#>` call names: a transition is called by its owner's
/// and its own name.
pub open spec fn callee_symbol(env: Env, st: EmitState, s: Stmt, name: Seq<char>) -> Seq<char> {
    let to_transition = match env.resolution.binding(s.span) {
        Some(BindingRef::Proc { ctx, .. }) => ctx == CallContext::Transition,
        _ => false,
    };
    let owner = callee_owner(env, st, name);
    if to_transition && owner.len() > 0 {
        owner + "_"@ + name
    } else {
        name
    }
}

/// `#> name(args);`.
pub open spec fn proc_call(env: Env, st: EmitState, s: Stmt, name: Seq<char>, args: Seq<Expr>) -> (
    EmitState,
    Result<(), CodegenErrorView>,
) {
    match exprs(env, st, args) {
        (st1, Err(x)) => (st1, Err(x)),
        (st1, Ok(vs)) => (
            st1.put("  call void @"@).put(callee_symbol(env, st1, s, name)).put("("@).put(
                join(arguments(vs)),
            ).put(")\n"@),
            Ok(()),
        ),
    }
}

/// `name = value;`.
pub open spec fn local_assign(env: Env, st: EmitState, name: Seq<char>, value: Expr) -> (
    EmitState,
    Result<(), CodegenErrorView>,
) {
    match find_local(st.locals, name) {
        None => (st, Err(unresolved(name))),
        Some(b) => match b.storage {
            LocalStorage::Ssa => (
                st,
                Err(
                    not_yet(
                        "Assign on an immutable local (resolver should have caught this; please file a bug)"@,
                    ),
                ),
            ),
            LocalStorage::Stack => match expr(env, st, value) {
                (st1, Err(x)) => (st1, Err(x)),
                (st1, Ok(v)) => (put_store(st1, "store"@, b.ir_type, v, b.value), Ok(())),
            },
        },
    }
}

/// `#flush automaton;`: the shadow is copied over the live state as a whole.
pub open spec fn flush(env: Env, st: EmitState, automaton: Seq<char>) -> (
    EmitState,
    Result<(), CodegenErrorView>,
) {
    match env.automaton(automaton) {
        None => (st, Err(unresolved(automaton))),
        Some(a) => if !a.is_staged {
            (
                st,
                Err(
                    not_yet(
                        "`#flush` on a non-staged automaton (resolver should have caught this; please file a bug)"@,
                    ),
                ),
            )
        } else if a.is_register_block {
            (
                st,
                Err(
                    not_yet(
                        "`#flush` on a register-block automaton (no shadow exists; the combination is undefined for v0.2)"@,
                    ),
                ),
            )
        } else {
            let size_ptr = st.next_value();
            let st1 = st.take_value().put("  "@).put(size_ptr).put(
                " = getelementptr %struct."@,
            ).put(automaton).put(", %struct."@).put(automaton).put("* null, i32 1\n"@);
            let size = st1.next_value();
            let st2 = st1.take_value().put("  "@).put(size).put(" = ptrtoint %struct."@).put(
                automaton,
            ).put("* "@).put(size_ptr).put(" to i64\n"@);
            let dst = st2.next_value();
            let st3 = st2.take_value().put("  "@).put(dst).put(" = bitcast %struct."@).put(
                automaton,
            ).put("* @"@).put(automaton).put(".state to i8*\n"@);
            let src = st3.next_value();
            let st4 = st3.take_value().put("  "@).put(src).put(" = bitcast %struct."@).put(
                automaton,
            ).put("* @"@).put(automaton).put(".shadow to i8*\n"@);
            (
                st4.put("  call void @llvm.memcpy.p0.p0.i64(i8* "@).put(dst).put(", i8* "@).put(
                    src,
                ).put(", i64 "@).put(size).put(", i1 false) ; #flush "@).put(automaton).put(
                    " (Decision #12)\n"@,
                ),
                Ok(()),
            )
        },
    }
}

/// `  br label %<label>`.
pub open spec fn put_jump(st: EmitState, label: Seq<char>) -> EmitState {
    st.put("  br label %"@).put(label).put("\n"@)
}

/// A jump to where the block falls through, unless it has already ended.
pub open spec fn fall_through(st: EmitState, label: Seq<char>) -> EmitState {
    if st.terminated {
        st
    } else {
        put_jump(st, label)
    }
}

/// The comparison that keeps a counted loop going.
pub open spec fn loop_compare(signed: bool, inclusive: bool) -> Seq<char> {
    if signed {
        if inclusive {
            "sle"@
        } else {
            "slt"@
        }
    } else if inclusive {
        "ule"@
    } else {
        "ult"@
    }
}

/// The head of a counted loop: the counter comes from the predecessor or from
/// the continue block, and is compared with the bound.
pub open spec fn sigma_head(
    st: EmitState,
    id: Seq<char>,
    ty: Seq<char>,
    signed: bool,
    inclusive: bool,
    lo: Seq<char>,
    hi: Seq<char>,
) -> EmitState {
    let pred = st.block;
    put_jump(st, "sigma.header."@ + id).start_block("sigma.header."@ + id).put(
        "  %sigma.i."@,
    ).put(id).put(" = phi "@).put(ty).put(" [ "@).put(lo).put(", %"@).put(pred).put(
        " ], [ %sigma.i_next."@,
    ).put(id).put(", %sigma.continue."@).put(id).put(" ]\n"@).put("  %sigma.cond."@).put(id).put(
        " = icmp "@,
    ).put(loop_compare(signed, inclusive)).put(" "@).put(ty).put(" %sigma.i."@).put(id).put(
        ", "@,
    ).put(hi).put("\n"@).put("  br i1 %sigma.cond."@).put(id).put(", label %sigma.body."@).put(
        id,
    ).put(", label %sigma.exit."@).put(id).put("\n"@).start_block("sigma.body."@ + id)
}

/// The foot of a counted loop: count, go back to the head, go on behind it.
pub open spec fn sigma_foot(st: EmitState, id: Seq<char>, ty: Seq<char>, signed: bool) -> EmitState {
    put_jump(
        fall_through(st, "sigma.continue."@ + id).start_block("sigma.continue."@ + id).put(
            "  %sigma.i_next."@,
        ).put(id).put(
            if signed {
                " = add nsw "@
            } else {
                " = add nuw "@
            },
        ).put(ty).put(" %sigma.i."@).put(id).put(", 1\n"@),
        "sigma.header."@ + id,
    ).start_block("sigma.exit."@ + id)
}

/// The step after a step that may have failed: its error is recorded.
pub open spec fn noted(r: (EmitState, Result<(), CodegenErrorView>)) -> EmitState {
    match r.1 {
        Ok(_) => r.0,
        Err(x) => r.0.fail(x),
    }
}

/// A statement becomes instructions; an error is recorded and the rest goes on.
#[verifier::opaque]
pub open spec fn stmt(env: Env, st: EmitState, s: Stmt) -> EmitState
    decreases s, 1nat,
{
    stmt_step(env, st, s)
}

/// What a statement becomes is given by its form and its parts.
pub proof fn stmt_unfold(env: Env, st: EmitState, s: Stmt)
    ensures
        stmt(env, st, s) == stmt_step(env, st, s),
{
    reveal(stmt);
}

/// What a statement becomes, given what its parts become.
pub open spec fn stmt_step(env: Env, st: EmitState, s: Stmt) -> EmitState
    decreases s, 0nat,
{
    match s.kind {
        StmtKind::Return(Some(e)) => {
            let ty = expr_ir(env, st.locals, e);
            match expr(env, st, e) {
                (st1, Ok(v)) => return_value(env, st1, (ty, v)),
                (st1, Err(x)) => st1.fail(x),
            }
        },
        StmtKind::Return(None) => return_void(env, st),
        StmtKind::Let { mutable, name, ty, value } => {
            let (st0, ir) = match ty {
                Some(t) => match written_ir(t) {
                    Ok(i) => (st, i),
                    Err(x) => (st.fail(x), "i32"@),
                },
                None => (st, expr_ir(env, st.locals, value)),
            };
            match expr(env, st0, value) {
                (st1, Err(x)) => st1.fail(x),
                (st1, Ok(v)) => if mutable {
                    let_slot(st1, name@, ir, v)
                } else {
                    let_value(st1, name@, ir, v)
                },
            }
        },
        StmtKind::LetShort { name, value } => {
            let ir = expr_ir(env, st.locals, value);
            match expr(env, st, value) {
                (st1, Err(x)) => st1.fail(x),
                (st1, Ok(v)) => let_value(st1, name@, ir, v),
            }
        },
        StmtKind::Expr(e) => match expr(env, st, e) {
            (st1, Err(x)) => st1.fail(x),
            (st1, Ok(_)) => st1,
        },
        StmtKind::Mutate { automaton, assigns } => noted(mutate(env, st, automaton@, assigns@)),
        StmtKind::MutateShort { automaton, field, op, value } => noted(
            mutate_short(env, st, automaton@, field@, op, value),
        ),
        StmtKind::ProcCall { name, args } => noted(proc_call(env, st, s, name@, args@)),
        StmtKind::UncheckedStore { ty, ptr, value } => noted(
            raw_store(env, st, ty, ptr, value, false),
        ),
        StmtKind::VolatileStore { ty, ptr, value } => noted(
            raw_store(env, st, ty, ptr, value, true),
        ),
        StmtKind::Sigma { var, source, body } => match source.kind {
            ExprKind::Range { lo, hi, inclusive } => {
                let ty = expr_ir(env, st.locals, *lo);
                let signed = expr_signed(env, *lo);
                match expr(env, st, *lo) {
                    (st1, Err(x)) => st1.fail(x),
                    (st1, Ok(l)) => match expr(env, st1, *hi) {
                        (st2, Err(x)) => st2.fail(x),
                        (st2, Ok(h)) => {
                            let id = dec(st2.labels);
                            let head = sigma_head(
                                st2.take_label(),
                                id,
                                ty,
                                signed,
                                inclusive,
                                l,
                                h,
                            );
                            let inside = head.bind(
                                LocalView {
                                    name: var@,
                                    value: "%sigma.i."@ + id,
                                    ir_type: ty,
                                    storage: LocalStorage::Ssa,
                                },
                            ).open_loop("sigma.continue."@ + id, "sigma.exit."@ + id);
                            let done = stmts(env, inside, body.stmts@);
                            sigma_foot(
                                done.unbind(head.locals.len()).close_loop(),
                                id,
                                ty,
                                signed,
                            )
                        },
                    },
                }
            },
            _ => st.fail(
                not_yet(
                    "sigma over a non-range source (array source needs the slice-indexing slice)"@,
                ),
            ),
        },
        StmtKind::If { cond, then_block, else_block } => match expr(env, st, cond) {
            (st1, Err(x)) => st1.fail(x),
            (st1, Ok(c)) => {
                let id = dec(st1.labels);
                let then_label = "if.then."@ + id;
                let else_label = "if.else."@ + id;
                let exit_label = "if.exit."@ + id;
                let false_label = if else_block is Some {
                    else_label
                } else {
                    exit_label
                };
                let st2 = st1.take_label().put("  br i1 "@).put(c).put(", label %"@).put(
                    then_label,
                ).put(", label %"@).put(false_label).put("\n"@).start_block(then_label);
                let st3 = fall_through(
                    stmts(env, st2, then_block.stmts@).unbind(st2.locals.len()),
                    exit_label,
                );
                let st4 = match else_block {
                    None => st3,
                    Some(b) => {
                        let in_else = st3.start_block(else_label);
                        fall_through(
                            stmts(env, in_else, b.stmts@).unbind(in_else.locals.len()),
                            exit_label,
                        )
                    },
                };
                st4.start_block(exit_label)
            },
        },
        StmtKind::Break => if st.loops.len() > 0 {
            put_jump(st, st.loops.last().1).terminate()
        } else {
            st.fail(
                not_yet(
                    "`break` outside a sigma loop (resolver should have caught this; please file a bug)"@,
                ),
            )
        },
        StmtKind::Continue => if st.loops.len() > 0 {
            put_jump(st, st.loops.last().0).terminate()
        } else {
            st.fail(
                not_yet(
                    "`continue` outside a sigma loop (resolver should have caught this; please file a bug)"@,
                ),
            )
        },
        StmtKind::Flush { automaton } => noted(flush(env, st, automaton@)),
        StmtKind::Assign { name, value } => noted(local_assign(env, st, name@, value)),
    }
}

/// `#unchecked_store<ty>(ptr, value);` or its volatile form.
pub open spec fn raw_store(
    env: Env,
    st: EmitState,
    ty: TypeExpr,
    ptr: Expr,
    value: Expr,
    volatile: bool,
) -> (EmitState, Result<(), CodegenErrorView>) {
    match written_ir(ty) {
        Err(x) => (st, Err(x)),
        Ok(t) => match expr(env, st, ptr) {
            (st1, Err(x)) => (st1, Err(x)),
            (st1, Ok(p)) => match expr(env, st1, value) {
                (st2, Err(x)) => (st2, Err(x)),
                (st2, Ok(v)) => (unchecked_store(st2, t, p, v, volatile), Ok(())),
            },
        },
    }
}

/// Statements in order. What follows a terminator is dead and left out.
pub open spec fn stmts(env: Env, st: EmitState, ss: Seq<Stmt>) -> EmitState
    decreases ss, 2nat,
{
    if ss.len() == 0 {
        st
    } else {
        let st1 = stmts(env, st, ss.drop_last());
        if st1.terminated {
            st1
        } else {
            stmt(env, st1, ss.last())
        }
    }
}

/// The statement is a `return` or holds one.
pub open spec fn has_return(s: Stmt) -> bool
    decreases s, 0nat,
{
    match s.kind {
        StmtKind::Return(_) => true,
        StmtKind::If { then_block, else_block, .. } => any_has_return(then_block.stmts@) || (
        match else_block {
            Some(b) => any_has_return(b.stmts@),
            None => false,
        }),
        StmtKind::Sigma { body, .. } => any_has_return(body.stmts@),
        _ => false,
    }
}

/// One of the statements is a `return` or holds one.
pub open spec fn any_has_return(ss: Seq<Stmt>) -> bool
    decreases ss, 1nat,
{
    ss.len() > 0 && (any_has_return(ss.drop_last()) || has_return(ss.last()))
}

/// The body of a function. Where it does not end in a terminator, it returns
/// if it returns nothing, and otherwise its end cannot be reached. That such a
/// body holds no `return` at all is an error.
pub open spec fn body(env: Env, st: EmitState, b: Block, ret_ty: Seq<char>) -> EmitState {
    let st1 = stmts(env, st, b.stmts@);
    if st1.terminated {
        st1
    } else if ret_ty == "void"@ {
        return_void(env, st1)
    } else if any_has_return(b.stmts@) {
        st1.put("  unreachable\n"@).terminate()
    } else {
        st1.put("  unreachable\n"@).terminate().fail(
            not_yet("non-unit function without a `return`"@),
        )
    }
}

// ─── Items ─────────────────────────────────────────────────────────────────

/// One of the traits has the given name.
pub open spec fn has_trait(traits: Seq<TraitRef>, name: Seq<char>) -> bool {
    exists|i: int| 0 <= i < traits.len() && (#[trigger] traits[i]).name@ == name
}

/// The fence at the entry of a callable with the given traits.
pub open spec fn entry_fence(traits: Seq<TraitRef>) -> Option<Seq<char>> {
    if has_trait(traits, "SeqCst"@) {
        Some("seq_cst"@)
    } else if has_trait(traits, "Acquire"@) {
        Some("acquire"@)
    } else {
        None
    }
}

/// The fence at every exit of a callable with the given traits.
pub open spec fn leaving_fence(traits: Seq<TraitRef>) -> Option<Seq<char>> {
    if has_trait(traits, "SeqCst"@) {
        Some("seq_cst"@)
    } else if has_trait(traits, "Release"@) {
        Some("release"@)
    } else {
        None
    }
}

/// `entry:` and the entry fence.
pub open spec fn put_entry(st: EmitState, fence: Option<Seq<char>>) -> EmitState {
    let st1 = st.put("entry:\n"@);
    match fence {
        Some(ordering) => st1.put("  fence "@).put(ordering).put("\n"@),
        None => st1,
    }
}

/// Masks interrupts at the entry of an `#atomic` body.
pub open spec fn atomic_entry(st: EmitState, atomic: Option<AtomicKind>) -> EmitState {
    match atomic {
        None => st,
        Some(AtomicKind::InterruptCritical) => st.put(
            "  call void asm sideeffect \"cpsid i\", \"\"() ; #atomic: interrupt_critical entry (mask all maskable interrupts)\n"@,
        ).with_unmask(),
        Some(AtomicKind::MulticoreCritical) => st.fail(
            not_yet("#atomic: multicore_critical (Decision #21 lock machinery, v0.7+)"@),
        ),
        Some(AtomicKind::Custom(_)) => st.fail(
            not_yet("#atomic: <custom> kind (codegen only knows interrupt_critical today)"@),
        ),
    }
}

/// The IR type of a result; a type that has none is recorded and counts as nothing.
pub open spec fn return_type(st: EmitState, ret: Option<TypeExpr>) -> (EmitState, Seq<char>) {
    match ret {
        None => (st, "void"@),
        Some(t) => match written_ir(t) {
            Ok(ty) => (st, ty),
            Err(x) => (st.fail(x), "void"@),
        },
    }
}

/// Brings the parameters into scope and gives their declarations.
pub open spec fn parameters(st: EmitState, params: Seq<Param>) -> (
    EmitState,
    Result<Seq<Seq<char>>, CodegenErrorView>,
)
    decreases params.len(),
{
    if params.len() == 0 {
        (st, Ok(Seq::empty()))
    } else {
        match parameters(st, params.drop_last()) {
            (st1, Err(x)) => (st1, Err(x)),
            (st1, Ok(parts)) => match written_ir(params.last().ty) {
                Err(x) => (st1, Err(x)),
                Ok(ty) => (
                    st1.bind(
                        LocalView {
                            name: params.last().name@,
                            value: "%"@ + params.last().name@,
                            ir_type: ty,
                            storage: LocalStorage::Ssa,
                        },
                    ),
                    Ok(parts.push(ty + " %"@ + params.last().name@)),
                ),
            },
        }
    }
}

/// A function with parameters and a result: `@fn`, `#effect` or `#interrupt`.
/// A parameter without an IR type is recorded and the function left out.
pub open spec fn function(
    env: Env,
    st: EmitState,
    name: Seq<char>,
    params: Seq<Param>,
    ret: Option<TypeExpr>,
    section: Seq<char>,
    traits: Seq<TraitRef>,
    atomic: Option<AtomicKind>,
    b: Block,
) -> EmitState {
    let (st1, ret_ty) = return_type(st.reset(), ret);
    match parameters(st1, params) {
        (st2, Err(x)) => st2.fail(x),
        (st2, Ok(parts)) => {
            let st3 = st2.with_exit_fence(leaving_fence(traits)).put("define "@).put(ret_ty).put(
                " @"@,
            ).put(name).put("("@).put(join(parts)).put(")"@).put(section).put(" {\n"@);
            let st4 = atomic_entry(put_entry(st3, entry_fence(traits)), atomic);
            body(env, st4, b, ret_ty).put("}\n"@).put("\n"@).with_exit_fence(None)
        },
    }
}

/// The state tag that a transition leaves behind, or the error where its
/// destination is none of the automaton's states.
pub open spec fn destination(env: Env, st: EmitState, owner: Seq<char>, dest: Option<String>) -> (
    EmitState,
    Option<(Seq<char>, nat)>,
) {
    match dest {
        None => (st, None),
        Some(d) => match env.automaton(owner) {
            None => (st, None),
            Some(a) => match tag_of(a.states, d@) {
                Some(tag) => (st, Some((owner, tag))),
                None => (
                    if a.is_multi_state() {
                        st.fail(unresolved(owner + "#states["@ + d@ + "]"@))
                    } else {
                        st
                    },
                    None,
                ),
            },
        },
    }
}

/// A transition becomes a function without parameters and result.
pub open spec fn transition(env: Env, st: EmitState, owner: Seq<char>, t: TransitionDecl) -> EmitState {
    let st0 = st.reset().with_owner(Some(owner));
    let st1 = match env.automaton(owner) {
        Some(a) if a.is_audited => st0.with_audited(Some(owner)),
        _ => st0,
    };
    let (st2, tag) = destination(
        env,
        st1.with_exit_fence(leaving_fence(t.trait_list@)),
        owner,
        t.destination,
    );
    let st3 = st2.with_tag_write(tag).put("define void @"@).put(owner).put("_"@).put(
        t.name@,
    ).put("() {\n"@);
    let st4 = atomic_entry(put_entry(st3, entry_fence(t.trait_list@)), t.atomic);
    body(env, st4, t.body, "void"@).put("}\n"@).put("\n"@).with_owner(None).with_exit_fence(
        None,
    ).with_tag_write(None)
}

/// The transitions of an automaton in order.
pub open spec fn transitions(
    env: Env,
    st: EmitState,
    owner: Seq<char>,
    ts: Seq<TransitionDecl>,
) -> EmitState
    decreases ts.len(),
{
    if ts.len() == 0 {
        st
    } else {
        transition(env, transitions(env, st, owner, ts.drop_last()), owner, ts.last())
    }
}

/// Records every field whose type has no IR type, in order.
pub open spec fn field_errors(st: EmitState, d: AutomatonDecl, n: nat) -> EmitState
    decreases n,
{
    if n == 0 {
        st
    } else {
        let st1 = field_errors(st, d, (n - 1) as nat);
        match written_ir(d.fields@[n - 1].ty) {
            Ok(_) => st1,
            Err(x) => st1.fail(x),
        }
    }
}

/// An item becomes functions; items that hold no code become nothing.
pub open spec fn item(env: Env, st: EmitState, i: Item) -> EmitState {
    match i {
        Item::Fn(d) => function(
            env,
            st,
            d.name@,
            d.params@,
            d.return_type,
            ""@,
            Seq::empty(),
            None,
            d.body,
        ),
        Item::Effect(d) => function(
            env,
            st,
            d.name@,
            d.params@,
            d.return_type,
            ""@,
            d.trait_list@,
            d.atomic,
            d.body,
        ),
        Item::Interrupt(d) => function(
            env,
            st,
            d.name@,
            d.params@,
            d.return_type,
            " section \".interrupts\""@,
            d.trait_list@,
            d.atomic,
            d.body,
        ),
        Item::Automaton(d) => transitions(
            env,
            field_errors(st, d, d.fields@.len()),
            d.name@,
            d.transitions@,
        ),
        _ => st,
    }
}

/// Items in order.
pub open spec fn items(env: Env, st: EmitState, is: Seq<Item>) -> EmitState
    decreases is.len(),
{
    if is.len() == 0 {
        st
    } else {
        item(env, items(env, st, is.drop_last()), is.last())
    }
}

// ─── Module ────────────────────────────────────────────────────────────────

/// The lines that name the module.
pub open spec fn module_header(st: EmitState, name: Seq<char>) -> EmitState {
    st.put("; ModuleID = '"@).put(name).put("'\n"@).put("source_filename = \""@).put(name).put(
        "\"\n"@,
    ).put("\n"@)
}

/// The types in the state struct of an automaton, the state tag first.
pub open spec fn struct_types(env: Env, name: Seq<char>) -> Seq<Seq<char>> {
    match env.automaton(name) {
        None => Seq::empty(),
        Some(a) => {
            let tag = if a.is_multi_state() {
                seq!["i32"@]
            } else {
                Seq::empty()
            };
            tag + Seq::new(a.fields.len(), |i: int| a.fields[i].ty)
        },
    }
}

/// The state struct of an automaton, its live state and, if it is staged, its
/// shadow. A register block has none.
pub open spec fn state_struct(env: Env, st: EmitState, i: Item) -> EmitState {
    match i {
        Item::Automaton(d) => if d.address is Some || env.automaton(d.name@) is None {
            st
        } else {
            let name = d.name@;
            let st1 = st.put("%struct."@).put(name).put(" = type { "@).put(
                join(struct_types(env, name)),
            ).put(" }\n"@).put("@"@).put(name).put(".state = global %struct."@).put(name).put(
                " zeroinitializer\n"@,
            );
            let st2 = if d.staged {
                st1.put("@"@).put(name).put(".shadow = global %struct."@).put(name).put(
                    " zeroinitializer\n"@,
                )
            } else {
                st1
            };
            st2.put("\n"@)
        },
        _ => st,
    }
}

/// The state structs of all automatons in order.
pub open spec fn state_structs(env: Env, st: EmitState, is: Seq<Item>) -> EmitState
    decreases is.len(),
{
    if is.len() == 0 {
        st
    } else {
        state_struct(env, state_structs(env, st, is.drop_last()), is.last())
    }
}

/// The item is an automaton that can be flushed.
pub open spec fn flushable(i: Item) -> bool {
    match i {
        Item::Automaton(d) => d.staged && d.address is None,
        _ => false,
    }
}

/// The declaration that flushes need, where there can be any.
pub open spec fn staged_intrinsics(st: EmitState, is: Seq<Item>) -> EmitState {
    if exists|i: int| 0 <= i < is.len() && flushable(#[trigger] is[i]) {
        st.put("declare void @llvm.memcpy.p0.p0.i64(i8*, i8*, i64, i1)\n"@).put("\n"@)
    } else {
        st
    }
}

/// The state after a whole program has been emitted.
pub open spec fn module(env: Env, name: Seq<char>) -> EmitState {
    items(
        env,
        staged_intrinsics(
            state_structs(env, module_header(EmitState::initial(), name), env.items),
            env.items,
        ),
        env.items,
    )
}

/// The text of a program's module, or every error in source order.
pub open spec fn lowered(
    program: Program,
    resolution: Resolution,
    typing: Typing,
    name: Seq<char>,
) -> Result<Seq<char>, Seq<CodegenErrorView>> {
    let st = module(Env { items: program.items@, resolution, typing }, name);
    if st.errors.len() == 0 {
        Ok(st.out)
    } else {
        Err(st.errors)
    }
}

} // verus!
