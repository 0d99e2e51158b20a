//! IR types: how primitive, written and inferred types are spelled in IR.
use vstd::prelude::*;

use crate::ast::{ArraySize, PrimitiveType, TypeExpr, TypeKind};
use crate::codegen::error::{not_yet, result_view, CodegenError, CodegenErrorView};
use crate::text::{
    char_is_digit, char_is_space, chars_of, find_first, find_first_is_first, find_from, is_digit,
    is_space, join, push_part, remove_char, same, slice, trimmed, without,
};
use crate::types::Type;

verus! {

/// The IR type of a primitive. Pointer-sized integers take 64 bits, and a
/// character is a Unicode scalar value.
pub open spec fn primitive_ir(p: PrimitiveType) -> Seq<char> {
    match p {
        PrimitiveType::Bool => "i1"@,
        PrimitiveType::U8 | PrimitiveType::I8 => "i8"@,
        PrimitiveType::U16 | PrimitiveType::I16 => "i16"@,
        PrimitiveType::U32 | PrimitiveType::I32 | PrimitiveType::Char => "i32"@,
        PrimitiveType::U64 | PrimitiveType::I64 => "i64"@,
        PrimitiveType::Usize | PrimitiveType::Isize => "i64"@,
        PrimitiveType::F32 => "float"@,
        PrimitiveType::F64 => "double"@,
    }
}

/// The IR type of a primitive.
pub fn primitive_ir_type(p: PrimitiveType) -> (r: &'static str)
    ensures
        r@ == primitive_ir(p),
{
    match p {
        PrimitiveType::Bool => "i1",
        PrimitiveType::U8 | PrimitiveType::I8 => "i8",
        PrimitiveType::U16 | PrimitiveType::I16 => "i16",
        PrimitiveType::U32 | PrimitiveType::I32 | PrimitiveType::Char => "i32",
        PrimitiveType::U64 | PrimitiveType::I64 => "i64",
        PrimitiveType::Usize | PrimitiveType::Isize => "i64",
        PrimitiveType::F32 => "float",
        PrimitiveType::F64 => "double",
    }
}

/// The primitive is a signed integer.
pub open spec fn primitive_signed(p: PrimitiveType) -> bool {
    p == PrimitiveType::I8 || p == PrimitiveType::I16 || p == PrimitiveType::I32 || p
        == PrimitiveType::I64 || p == PrimitiveType::Isize
}

pub fn primitive_is_signed(p: PrimitiveType) -> (r: bool)
    ensures
        r == primitive_signed(p),
{
    matches!(
        p,
        PrimitiveType::I8
            | PrimitiveType::I16
            | PrimitiveType::I32
            | PrimitiveType::I64
            | PrimitiveType::Isize
    )
}

// ─── Inferred types ────────────────────────────────────────────────────────

/// The IR type of an inferred type. Named types and unknown ones are `i32`.
pub open spec fn type_ir(t: Type) -> Seq<char>
    decreases t,
{
    match t {
        Type::Unit => "void"@,
        Type::Primitive(p) => primitive_ir(p),
        Type::Ref { inner, .. } => type_ir(*inner) + "*"@,
        Type::Array { element, size } => "["@ + without(size@, '_') + " x "@ + type_ir(*element)
            + "]"@,
        Type::Slice { element } => "{"@ + type_ir(*element) + "*, i64}"@,
        Type::Tuple(elems) => "{"@ + join(types_ir(elems@)) + "}"@,
        Type::Range { element, .. } => "{"@ + type_ir(*element) + ", "@ + type_ir(*element) + "}"@,
        Type::StringSlice => "{i8*, i64}"@,
        Type::Nominal { .. } | Type::Unknown(_) => "i32"@,
    }
}

/// The IR types of inferred types, in order.
pub open spec fn types_ir(ts: Seq<Type>) -> Seq<Seq<char>>
    decreases ts,
{
    if ts.len() == 0 {
        Seq::empty()
    } else {
        types_ir(ts.drop_last()).push(type_ir(ts.last()))
    }
}

proof fn types_ir_len(ts: Seq<Type>)
    ensures
        types_ir(ts).len() == ts.len(),
    decreases ts.len(),
{
    if ts.len() > 0 {
        types_ir_len(ts.drop_last());
    }
}

/// The IR type of an inferred type.
pub fn type_to_ir(t: &Type) -> (r: String)
    ensures
        r@ == type_ir(*t),
    decreases t,
{
    match t {
        Type::Unit => "void".to_owned(),
        Type::Primitive(p) => primitive_ir_type(*p).to_owned(),
        Type::Ref { inner, .. } => {
            let mut out = type_to_ir(inner);
            out.append("*");
            out
        },
        Type::Array { element, size } => {
            let mut out = "[".to_owned();
            let n = remove_char(size.as_str(), '_');
            out.append(n.as_str());
            out.append(" x ");
            let e = type_to_ir(element);
            out.append(e.as_str());
            out.append("]");
            out
        },
        Type::Slice { element } => {
            let mut out = "{".to_owned();
            let e = type_to_ir(element);
            out.append(e.as_str());
            out.append("*, i64}");
            out
        },
        Type::Tuple(elems) => {
            let mut parts = String::new();
            let mut i: usize = 0;
            assert(elems@.take(0) =~= Seq::<Type>::empty());
            while i < elems.len()
                invariant
                    i <= elems@.len(),
                    parts@ == join(types_ir(elems@.take(i as int))),
                    decreases_to!(t => elems@),
                decreases elems@.len() - i,
            {
                let p = type_to_ir(&elems[i]);
                let ghost sofar = types_ir(elems@.take(i as int));
                proof {
                    types_ir_len(elems@.take(i as int));
                    assert(elems@.take(i as int + 1).drop_last() =~= elems@.take(i as int));
                }
                push_part(&mut parts, p.as_str(), Ghost(sofar), i == 0);
                i = i + 1;
            }
            assert(elems@.take(i as int) =~= elems@);
            let mut out = "{".to_owned();
            out.append(parts.as_str());
            out.append("}");
            out
        },
        Type::Range { element, .. } => {
            let e = type_to_ir(element);
            let mut out = "{".to_owned();
            out.append(e.as_str());
            out.append(", ");
            out.append(e.as_str());
            out.append("}");
            out
        },
        Type::StringSlice => "{i8*, i64}".to_owned(),
        Type::Nominal { .. } | Type::Unknown(_) => "i32".to_owned(),
    }
}

// ─── Written types ─────────────────────────────────────────────────────────

/// What a written type is called in an error.
pub open spec fn kind_name(k: TypeKind) -> Seq<char> {
    match k {
        TypeKind::Unit => "unit type"@,
        TypeKind::Primitive(_) => "primitive type"@,
        TypeKind::Path(_) => "nominal-path type"@,
        TypeKind::Ref(_) => "reference type"@,
        TypeKind::Array(_) => "array type"@,
        TypeKind::Slice(_) => "slice type"@,
        TypeKind::Tuple(_) => "tuple type"@,
        TypeKind::Access(_) => "access<T> type"@,
        TypeKind::Fn(_) => "@fn pointer type"@,
    }
}

/// What a written type is called in an error.
pub fn type_kind_name(k: &TypeKind) -> (r: &'static str)
    ensures
        r@ == kind_name(*k),
{
    match k {
        TypeKind::Unit => "unit type",
        TypeKind::Primitive(_) => "primitive type",
        TypeKind::Path(_) => "nominal-path type",
        TypeKind::Ref(_) => "reference type",
        TypeKind::Array(_) => "array type",
        TypeKind::Slice(_) => "slice type",
        TypeKind::Tuple(_) => "tuple type",
        TypeKind::Access(_) => "access<T> type",
        TypeKind::Fn(_) => "@fn pointer type",
    }
}

/// The IR type of a written type. Named types, `access` types and function
/// pointers have none.
pub open spec fn written_ir(t: TypeExpr) -> Result<Seq<char>, CodegenErrorView>
    decreases t,
{
    match t.kind {
        TypeKind::Unit => Ok("void"@),
        TypeKind::Primitive(p) => Ok(primitive_ir(p)),
        TypeKind::Ref(rt) => match written_ir(*rt.inner) {
            Ok(inner) => Ok(inner + "*"@),
            Err(e) => Err(e),
        },
        TypeKind::Array(at) => match written_ir(*at.element) {
            Ok(elem) => Ok("["@ + without(at.size->IntLiteral_0@, '_') + " x "@ + elem + "]"@),
            Err(e) => Err(e),
        },
        TypeKind::Slice(st) => match written_ir(*st.element) {
            Ok(elem) => Ok("{"@ + elem + "*, i64}"@),
            Err(e) => Err(e),
        },
        TypeKind::Tuple(tt) => match written_irs(tt.elements@) {
            Ok(parts) => Ok("{"@ + join(parts) + "}"@),
            Err(e) => Err(e),
        },
        _ => Err(not_yet(kind_name(t.kind))),
    }
}

/// The IR types of written types, in order, or the first error.
pub open spec fn written_irs(ts: Seq<TypeExpr>) -> Result<Seq<Seq<char>>, CodegenErrorView>
    decreases ts,
{
    if ts.len() == 0 {
        Ok(Seq::empty())
    } else {
        match written_irs(ts.drop_last()) {
            Err(e) => Err(e),
            Ok(parts) => match written_ir(ts.last()) {
                Err(e) => Err(e),
                Ok(p) => Ok(parts.push(p)),
            },
        }
    }
}

proof fn written_irs_prefix(ts: Seq<TypeExpr>, i: int)
    requires
        0 <= i <= ts.len(),
        written_irs(ts.take(i)) is Err,
    ensures
        written_irs(ts) == written_irs(ts.take(i)),
    decreases ts.len(),
{
    if i == ts.len() {
        assert(ts.take(i) =~= ts);
    } else {
        assert(ts.drop_last().take(i) =~= ts.take(i));
        written_irs_prefix(ts.drop_last(), i);
    }
}

proof fn written_irs_len(ts: Seq<TypeExpr>)
    requires
        written_irs(ts) is Ok,
    ensures
        written_irs(ts)->Ok_0.len() == ts.len(),
    decreases ts.len(),
{
    if ts.len() > 0 {
        written_irs_len(ts.drop_last());
    }
}

/// The IR type of a written type.
pub fn lower_type(t: &TypeExpr) -> (r: Result<String, CodegenError>)
    ensures
        result_view(r) == written_ir(*t),
    decreases t,
{
    match &t.kind {
        TypeKind::Unit => Ok("void".to_owned()),
        TypeKind::Primitive(p) => Ok(primitive_ir_type(*p).to_owned()),
        TypeKind::Ref(rt) => {
            let mut out = lower_type(&rt.inner)?;
            out.append("*");
            Ok(out)
        },
        TypeKind::Array(at) => {
            let elem = lower_type(&at.element)?;
            let ArraySize::IntLiteral(size) = &at.size;
            let n = remove_char(size.as_str(), '_');
            let mut out = "[".to_owned();
            out.append(n.as_str());
            out.append(" x ");
            out.append(elem.as_str());
            out.append("]");
            Ok(out)
        },
        TypeKind::Slice(st) => {
            let elem = lower_type(&st.element)?;
            let mut out = "{".to_owned();
            out.append(elem.as_str());
            out.append("*, i64}");
            Ok(out)
        },
        TypeKind::Tuple(tt) => {
            let mut parts = String::new();
            let mut i: usize = 0;
            let ghost ts = tt.elements@;
            assert(ts.take(0) =~= Seq::<TypeExpr>::empty());
            while i < tt.elements.len()
                invariant
                    i <= ts.len(),
                    ts == tt.elements@,
                    t.kind == TypeKind::Tuple(*tt),
                    written_irs(ts.take(i as int)) is Ok,
                    parts@ == join(written_irs(ts.take(i as int))->Ok_0),
                    decreases_to!(t => ts),
                decreases ts.len() - i,
            {
                let ghost sofar = written_irs(ts.take(i as int))->Ok_0;
                proof {
                    written_irs_len(ts.take(i as int));
                    assert(ts.take(i as int + 1).drop_last() =~= ts.take(i as int));
                }
                let p = match lower_type(&tt.elements[i]) {
                    Ok(p) => p,
                    Err(e) => {
                        proof {
                            written_irs_prefix(ts, i + 1);
                        }
                        return Err(e);
                    },
                };
                push_part(&mut parts, p.as_str(), Ghost(sofar), i == 0);
                i = i + 1;
            }
            assert(ts.take(i as int) =~= ts);
            let mut out = "{".to_owned();
            out.append(parts.as_str());
            out.append("}");
            Ok(out)
        },
        _ => Err(CodegenError::NotYetImplemented { what: type_kind_name(&t.kind) }),
    }
}

/// The written type is a signed integer primitive.
pub open spec fn written_signed(t: TypeExpr) -> bool {
    t.kind is Primitive && primitive_signed(t.kind->Primitive_0)
}

/// Whether a written type is a signed integer primitive.
pub fn type_expr_is_signed_int(t: &TypeExpr) -> (r: bool)
    ensures
        r == written_signed(*t),
{
    match &t.kind {
        TypeKind::Primitive(p) => primitive_is_signed(*p),
        _ => false,
    }
}

// ─── Questions about IR types ──────────────────────────────────────────────

/// The width of an integer IR type that a cast can start from or end in.
pub open spec fn int_width(ir_ty: Seq<char>) -> Option<nat> {
    if ir_ty == "i1"@ {
        Some(1)
    } else if ir_ty == "i8"@ {
        Some(8)
    } else if ir_ty == "i16"@ {
        Some(16)
    } else if ir_ty == "i32"@ {
        Some(32)
    } else if ir_ty == "i64"@ {
        Some(64)
    } else if ir_ty == "i128"@ {
        Some(128)
    } else {
        None
    }
}

/// The bit width of an integer IR type, `None` for any other type.
pub fn int_bits(ir_ty: &str) -> (r: Option<u32>)
    ensures
        match r {
            Some(n) => int_width(ir_ty@) == Some(n as nat),
            None => int_width(ir_ty@) is None,
        },
{
    if same(ir_ty, "i1") {
        Some(1)
    } else if same(ir_ty, "i8") {
        Some(8)
    } else if same(ir_ty, "i16") {
        Some(16)
    } else if same(ir_ty, "i32") {
        Some(32)
    } else if same(ir_ty, "i64") {
        Some(64)
    } else if same(ir_ty, "i128") {
        Some(128)
    } else {
        None
    }
}

/// `i` and then one or more digits.
pub open spec fn integer_ir(ir_ty: Seq<char>) -> bool {
    ir_ty.len() >= 2 && ir_ty[0] == 'i' && forall|j: int|
        1 <= j < ir_ty.len() ==> is_digit(#[trigger] ir_ty[j])
}

/// Whether the IR type is an integer type.
pub fn is_integer_ir_type(ir_ty: &str) -> (r: bool)
    ensures
        r == integer_ir(ir_ty@),
{
    let cs = chars_of(ir_ty);
    if cs.len() < 2 || cs[0] != 'i' {
        return false;
    }
    let mut j: usize = 1;
    while j < cs.len()
        invariant
            1 <= j <= cs@.len(),
            cs@ == ir_ty@,
            forall|k: int| 1 <= k < j ==> is_digit(#[trigger] cs@[k]),
        decreases cs@.len() - j,
    {
        if !char_is_digit(cs[j]) {
            return false;
        }
        j = j + 1;
    }
    true
}

/// A floating-point IR type.
pub open spec fn float_ir(ir_ty: Seq<char>) -> bool {
    ir_ty == "float"@ || ir_ty == "double"@
}

pub fn is_float_ir_type(ir_ty: &str) -> (r: bool)
    ensures
        r == float_ir(ir_ty@),
{
    same(ir_ty, "float") || same(ir_ty, "double")
}

/// An IR type that is read in one piece, so that a snapshot cannot tear.
pub open spec fn single_word_ir(ir_ty: Seq<char>) -> bool {
    ir_ty == "i1"@ || ir_ty == "i8"@ || ir_ty == "i16"@ || ir_ty == "i32"@ || ir_ty == "i64"@
}

/// Whether a value of the IR type is read in one piece.
pub fn is_primitive_ir_ty_for_snapshot(ir_ty: &str) -> (r: bool)
    ensures
        r == single_word_ir(ir_ty@),
{
    same(ir_ty, "i1") || same(ir_ty, "i8") || same(ir_ty, "i16") || same(ir_ty, "i32") || same(
        ir_ty,
        "i64",
    )
}

/// A pointer IR type.
pub open spec fn pointer_ir(ir_ty: Seq<char>) -> bool {
    ir_ty.len() > 0 && ir_ty.last() == '*'
}

pub fn is_pointer_ir_type(ir_ty: &str) -> (r: bool)
    ensures
        r == pointer_ir(ir_ty@),
{
    let cs = chars_of(ir_ty);
    cs.len() > 0 && cs[cs.len() - 1] == '*'
}

/// The element type `T` of an array IR type `[N x T]`: what follows the first
/// ` x ` between the brackets.
pub open spec fn element_ir(ir_ty: Seq<char>) -> Option<Seq<char>> {
    if ir_ty.len() >= 2 && ir_ty[0] == '[' && ir_ty.last() == ']' {
        let body = ir_ty.subrange(1, ir_ty.len() - 1);
        match find_first(body, " x "@, 0) {
            Some(i) => Some(trimmed(body.skip(i + 3))),
            None => None,
        }
    } else {
        None
    }
}

fn trim(s: &str) -> (r: String)
    ensures
        r@ == trimmed(s@),
{
    let cs = chars_of(s);
    let mut a: usize = 0;
    let mut b: usize = cs.len();
    assert(cs@.subrange(0, b as int) =~= s@);
    while a < b && char_is_space(cs[a])
        invariant
            a <= b == cs@.len(),
            cs@ == s@,
            trimmed(s@) == trimmed(cs@.subrange(a as int, b as int)),
        decreases b - a,
    {
        assert(cs@.subrange(a as int, b as int).drop_first() =~= cs@.subrange(a + 1, b as int));
        a = a + 1;
    }
    let ghost start = a;
    while a < b && char_is_space(cs[b - 1])
        invariant
            a <= b <= cs@.len(),
            cs@ == s@,
            a < b ==> !is_space(cs@[a as int]),
            trimmed(s@) == trimmed(cs@.subrange(a as int, b as int)),
        decreases b - a,
    {
        assert(cs@.subrange(a as int, b as int).drop_last() =~= cs@.subrange(a as int, b - 1));
        b = b - 1;
    }
    let r = slice(s, a, b);
    r
}

/// The element type of an array IR type, `None` for any other type.
pub fn array_element_ir_type(ir_ty: &str) -> (r: Option<String>)
    ensures
        match r {
            Some(t) => element_ir(ir_ty@) == Some(t@),
            None => element_ir(ir_ty@) is None,
        },
{
    let cs = chars_of(ir_ty);
    let n: usize = cs.len();
    if n < 2 || cs[0] != '[' || cs[n - 1] != ']' {
        return None;
    }
    let body = slice(ir_ty, 1, n - 1);
    let hay = chars_of(body.as_str());
    let needle = chars_of(" x ");
    proof {
        reveal_strlit(" x ");
        find_first_is_first(body@, " x "@, 0);
    }
    match find_from(&hay, &needle, 0) {
        Some(i) => {
            let rest = slice(body.as_str(), i + 3, n - 2);
            assert(rest@ =~= body@.skip(i + 3));
            Some(trim(rest.as_str()))
        },
        None => None,
    }
}

} // verus!
