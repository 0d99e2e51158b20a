//! The emitter: writes the text that the lowering of each construct prescribes.
use vstd::prelude::*;

use crate::ast::{BinaryOp, Expr, ExprKind, UnaryOp};
use crate::codegen::error::{result_view, CodegenError, CodegenErrorView};
use crate::codegen::irtype::{
    array_element_ir_type, int_bits, is_float_ir_type, is_integer_ir_type, is_pointer_ir_type,
    is_primitive_ir_ty_for_snapshot, lower_type, primitive_is_signed, type_expr_is_signed_int,
    type_to_ir,
};
use crate::codegen::literal::{
    const_int_count, int_literal_ir_type, literal_suffix, parse_bin_literal, parse_hex_literal,
    parse_int_literal, suffix_is_signed,
};
use crate::codegen::lowering::{
    arguments, array_pointer, audit_marker, binary, binary_opcode, call, cast, expr, expr_ir,
    expr_name, expr_signed, expr_unfold, exprs, field_access, field_load, field_store, index_load,
    index_store, indexed_field, insert_chain, live_global, local_read, name_of, pointee_ir,
    put_conversion, put_element_pointer, put_field_pointer, put_load, put_op, put_store, receiver,
    register_pointer, resize_opcode, snapshot, state_read, unary, unchecked_cast, unchecked_load,
    unchecked_offset, yields_bool, Typed,
};
use crate::codegen::registry::{Context, Env, FieldLocation, LocationView};
use crate::codegen::state::{EmitState, Emitter, LocalStorage};
use crate::text::{decimal, join, push_part, same};
use crate::types::Type;

verus! {

// ─── Types of expressions ──────────────────────────────────────────────────

/// Whether the operator yields a truth value.
fn op_yields_bool(op: BinaryOp) -> (r: bool)
    ensures
        r == yields_bool(op),
{
    matches!(
        op,
        BinaryOp::Eq
            | BinaryOp::Ne
            | BinaryOp::Lt
            | BinaryOp::Le
            | BinaryOp::Gt
            | BinaryOp::Ge
            | BinaryOp::And
            | BinaryOp::Or
    )
}

/// Whether the expression's type is a signed integer.
pub fn expr_is_signed_int(cx: &Context<'_>, e: &Expr) -> (r: bool)
    ensures
        r == expr_signed(cx@, *e),
    decreases e,
{
    if let Some(ty) = cx.typing().lookup(e.span) {
        return match ty {
            Type::Primitive(p) => primitive_is_signed(*p),
            _ => false,
        };
    }
    match &e.kind {
        ExprKind::IntLit(s) | ExprKind::HexLit(s) | ExprKind::BinLit(s) => {
            let suffix = literal_suffix(s.as_str());
            suffix_is_signed(suffix.as_str())
        },
        ExprKind::Paren(inner) => expr_is_signed_int(cx, inner),
        ExprKind::Binary { lhs, .. } => expr_is_signed_int(cx, lhs),
        _ => false,
    }
}

/// The IR type that a reference expression points to.
fn expr_pointee_ir_type(cx: &Context<'_>, operand: &Expr) -> (r: Result<String, CodegenError>)
    ensures
        result_view(r) == pointee_ir(cx@, *operand),
{
    match cx.typing().lookup(operand.span) {
        Some(Type::Ref { inner, .. }) => Ok(type_to_ir(inner)),
        _ => Err(
            CodegenError::NotYetImplemented {
                what: "deref of non-reference operand (Typing didn't record a Ref type)",
            },
        ),
    }
}

/// The name that an expression writes, where it is a path of one segment.
fn path_name(e: &Expr) -> (r: Option<&String>)
    ensures
        match r {
            Some(n) => name_of(*e) == Some(n@),
            None => name_of(*e) is None,
        },
{
    match &e.kind {
        ExprKind::Path(segs) => if segs.len() == 1 {
            Some(&segs[0])
        } else {
            None
        },
        _ => None,
    }
}

/// A fixed address as a pointer to `ty`.
fn register_pointer_text(address: u128, ty: &str) -> (r: String)
    ensures
        r@ == register_pointer(address as nat, ty@),
{
    let mut out = "inttoptr (i64 ".to_owned();
    let a = decimal(address);
    out.append(a.as_str());
    out.append(" to ");
    out.append(ty);
    out.append("*)");
    out
}

/// The live state of an automaton.
fn live_global_text(automaton: &str) -> (r: String)
    ensures
        r@ == live_global(automaton@),
{
    let mut out = "@".to_owned();
    out.append(automaton);
    out.append(".state");
    out
}

/// The instruction for a binary operator.
fn binary_opcode_text(op: BinaryOp, signed: bool) -> (r: &'static str)
    ensures
        r@ == binary_opcode(op, signed),
{
    match op {
        BinaryOp::Eq => "icmp eq",
        BinaryOp::Ne => "icmp ne",
        BinaryOp::Lt => if signed {
            "icmp slt"
        } else {
            "icmp ult"
        },
        BinaryOp::Le => if signed {
            "icmp sle"
        } else {
            "icmp ule"
        },
        BinaryOp::Gt => if signed {
            "icmp sgt"
        } else {
            "icmp ugt"
        },
        BinaryOp::Ge => if signed {
            "icmp sge"
        } else {
            "icmp uge"
        },
        BinaryOp::Add => "add",
        BinaryOp::Sub => "sub",
        BinaryOp::Mul => "mul",
        BinaryOp::Div => if signed {
            "sdiv"
        } else {
            "udiv"
        },
        BinaryOp::Rem => if signed {
            "srem"
        } else {
            "urem"
        },
        BinaryOp::And | BinaryOp::BitAnd => "and",
        BinaryOp::Or | BinaryOp::BitOr => "or",
        BinaryOp::BitXor => "xor",
        BinaryOp::Shl => "shl",
        BinaryOp::Shr => if signed {
            "ashr"
        } else {
            "lshr"
        },
    }
}

/// The instruction between integers of the given widths.
fn resize_opcode_text(from: u32, to: u32, signed: bool) -> (r: &'static str)
    ensures
        r@ == resize_opcode(from as nat, to as nat, signed),
{
    if to < from {
        "trunc"
    } else if signed {
        "sext"
    } else {
        "zext"
    }
}

/// What an expression is called in an error.
pub fn expr_kind_name(k: &ExprKind) -> (r: &'static str)
    ensures
        r@ == expr_name(*k),
{
    match k {
        ExprKind::IntLit(_) => "integer literal",
        ExprKind::HexLit(_) => "hex literal",
        ExprKind::BinLit(_) => "binary literal",
        ExprKind::FloatLit(_) => "float literal",
        ExprKind::CharLit(_) => "char literal",
        ExprKind::ByteLit(_) => "byte literal",
        ExprKind::StringLit(_) => "string literal",
        ExprKind::BoolLit(_) => "bool literal",
        ExprKind::Null => "null literal",
        ExprKind::Path(_) => "path expression",
        ExprKind::StateRead(_) => "Auto@state expression",
        ExprKind::Snapshot { .. } => "@snapshot expression",
        ExprKind::Shadow { .. } => "unknown expression kind",
        ExprKind::Paren(_) => "parenthesised expression",
        ExprKind::Tuple(_) => "tuple expression",
        ExprKind::Array(_) => "array literal",
        ExprKind::ArrayRepeat { .. } => "array-repeat literal",
        ExprKind::FieldAccess { .. } => "field access",
        ExprKind::Index { .. } => "index expression",
        ExprKind::Call { .. } => "call expression",
        ExprKind::MethodCall { .. } => "method call",
        ExprKind::Unary { .. } => "unary expression",
        ExprKind::Ref { .. } => "borrow expression",
        ExprKind::Binary { .. } => "binary expression",
        ExprKind::Cast { .. } => "cast expression",
        ExprKind::Range { .. } => "range expression",
        ExprKind::UncheckedLoad { .. } => "#unchecked_load expression",
        ExprKind::VolatileLoad { .. } => "#volatile_load expression",
        ExprKind::UncheckedCast { .. } => "#unchecked_cast expression",
        ExprKind::UncheckedOffset { .. } => "#unchecked_offset expression",
    }
}

/// Typed values as mathematical values.
pub open spec fn typed_views(vs: Seq<(String, String)>) -> Seq<Typed> {
    Seq::new(vs.len(), |i: int| (vs[i].0@, vs[i].1@))
}

/// The result of lowering several expressions as a mathematical value.
pub open spec fn typed_result(r: Result<Vec<(String, String)>, CodegenError>) -> Result<
    Seq<Typed>,
    CodegenErrorView,
> {
    match r {
        Ok(vs) => Ok(typed_views(vs@)),
        Err(e) => Err(e@),
    }
}

/// The arguments of a call as text.
pub fn arguments_text(args: &Vec<(String, String)>) -> (r: String)
    ensures
        r@ == join(arguments(typed_views(args@))),
{
    let ghost all = arguments(typed_views(args@));
    let mut out = String::new();
    let mut i: usize = 0;
    assert(all.take(0) =~= Seq::<Seq<char>>::empty());
    while i < args.len()
        invariant
            i <= args@.len() == all.len(),
            all == arguments(typed_views(args@)),
            out@ == join(all.take(i as int)),
        decreases args@.len() - i,
    {
        let mut part = args[i].0.clone();
        part.append(" ");
        part.append(args[i].1.as_str());
        push_part(&mut out, part.as_str(), Ghost(all.take(i as int)), i == 0);
        assert(all.take(i as int).push(part@) =~= all.take(i as int + 1));
        i = i + 1;
    }
    assert(all.take(i as int) =~= all);
    out
}

proof fn exprs_prefix(env: Env, st: EmitState, es: Seq<Expr>, i: int)
    requires
        0 <= i <= es.len(),
        exprs(env, st, es.take(i)).1 is Err,
    ensures
        exprs(env, st, es) == exprs(env, st, es.take(i)),
    decreases es.len(),
{
    if i == es.len() {
        assert(es.take(i) =~= es);
    } else {
        assert(es.drop_last().take(i) =~= es.take(i));
        exprs_prefix(env, st, es.drop_last(), i);
    }
}

impl Emitter {
    /// The IR type of an expression.
    pub fn expr_ir_type(&self, cx: &Context<'_>, e: &Expr) -> (r: String)
        ensures
            r@ == expr_ir(cx@, self@.locals, *e),
        decreases e,
    {
        if let Some(ty) = cx.typing().lookup(e.span) {
            return type_to_ir(ty);
        }
        match &e.kind {
            ExprKind::IntLit(s) | ExprKind::HexLit(s) | ExprKind::BinLit(s) => {
                int_literal_ir_type(s.as_str()).to_owned()
            },
            ExprKind::BoolLit(_) => "i1".to_owned(),
            ExprKind::Paren(inner) => self.expr_ir_type(cx, inner),
            ExprKind::Binary { op, lhs, .. } => if op_yields_bool(*op) {
                "i1".to_owned()
            } else {
                self.expr_ir_type(cx, lhs)
            },
            ExprKind::Path(segs) => if segs.len() == 1 {
                match self.local(segs[0].as_str()) {
                    Some(b) => b.ir_type.clone(),
                    None => "i32".to_owned(),
                }
            } else {
                "i32".to_owned()
            },
            _ => "i32".to_owned(),
        }
    }

    /// The automaton that a receiver names.
    fn receiver_name(&self, obj: &Expr, outside: &'static str, other: &'static str) -> (r: Result<
        String,
        CodegenError,
    >)
        ensures
            result_view(r) == receiver(self@, *obj, outside@, other@),
    {
        match path_name(obj) {
            Some(name) => if same(name.as_str(), "Self") {
                match self.owner() {
                    Some(o) => Ok(o),
                    None => Err(CodegenError::NotYetImplemented { what: outside }),
                }
            } else {
                Ok(name.clone())
            },
            None => Err(CodegenError::NotYetImplemented { what: other }),
        }
    }

    // ─── Single instructions ───────────────────────────────────────────────

    pub fn put_field_pointer(&mut self, ptr: &str, automaton: &str, global: &str, idx: usize)
        ensures
            final(self)@ == put_field_pointer(old(self)@, ptr@, automaton@, global@, idx as nat),
    {
        self.put("  ");
        self.put(ptr);
        self.put(" = getelementptr %struct.");
        self.put(automaton);
        self.put(", %struct.");
        self.put(automaton);
        self.put("* ");
        self.put(global);
        self.put(", i32 0, i32 ");
        let n = decimal(idx as u128);
        self.put(n.as_str());
        self.put("\n");
    }

    pub fn put_load(&mut self, val: &str, keyword: &str, ty: &str, ptr: &str)
        ensures
            final(self)@ == put_load(old(self)@, val@, keyword@, ty@, ptr@),
    {
        self.put("  ");
        self.put(val);
        self.put(" = ");
        self.put(keyword);
        self.put(" ");
        self.put(ty);
        self.put(", ");
        self.put(ty);
        self.put("* ");
        self.put(ptr);
        self.put("\n");
    }

    pub fn put_store(&mut self, keyword: &str, ty: &str, val: &str, ptr: &str)
        ensures
            final(self)@ == put_store(old(self)@, keyword@, ty@, val@, ptr@),
    {
        self.put("  ");
        self.put(keyword);
        self.put(" ");
        self.put(ty);
        self.put(" ");
        self.put(val);
        self.put(", ");
        self.put(ty);
        self.put("* ");
        self.put(ptr);
        self.put("\n");
    }

    pub fn put_op(&mut self, dst: &str, op: &str, ty: &str, l: &str, r: &str)
        ensures
            final(self)@ == put_op(old(self)@, dst@, op@, ty@, l@, r@),
    {
        self.put("  ");
        self.put(dst);
        self.put(" = ");
        self.put(op);
        self.put(" ");
        self.put(ty);
        self.put(" ");
        self.put(l);
        self.put(", ");
        self.put(r);
        self.put("\n");
    }

    fn put_conversion(&mut self, dst: &str, op: &str, from: &str, v: &str, to: &str)
        ensures
            final(self)@ == put_conversion(old(self)@, dst@, op@, from@, v@, to@),
    {
        self.put("  ");
        self.put(dst);
        self.put(" = ");
        self.put(op);
        self.put(" ");
        self.put(from);
        self.put(" ");
        self.put(v);
        self.put(" to ");
        self.put(to);
        self.put("\n");
    }

    fn put_element_pointer(&mut self, elem: &str, ty: &str, field: &str, index_ty: &str, index: &str)
        ensures
            final(self)@ == put_element_pointer(
                old(self)@,
                elem@,
                ty@,
                field@,
                (index_ty@, index@),
            ),
    {
        self.put("  ");
        self.put(elem);
        self.put(" = getelementptr ");
        self.put(ty);
        self.put(", ");
        self.put(ty);
        self.put("* ");
        self.put(field);
        self.put(", i32 0, ");
        self.put(index_ty);
        self.put(" ");
        self.put(index);
        self.put("\n");
    }

    // ─── Fields ────────────────────────────────────────────────────────────

    /// Reads a field from the live state, or from its register.
    pub fn emit_field_load(&mut self, automaton: &str, loc: FieldLocation, ty: &str) -> (r: String)
        ensures
            (final(self)@, r@) == field_load(old(self)@, automaton@, loc@, ty@),
    {
        match loc {
            FieldLocation::Struct { idx } => {
                let ptr = self.fresh_value();
                let global = live_global_text(automaton);
                self.put_field_pointer(ptr.as_str(), automaton, global.as_str(), idx);
                let val = self.fresh_value();
                self.put_load(val.as_str(), "load", ty, ptr.as_str());
                val
            },
            FieldLocation::RegisterBlock { absolute_address } => {
                let val = self.fresh_value();
                let ptr = register_pointer_text(absolute_address, ty);
                self.put_load(val.as_str(), "load volatile", ty, ptr.as_str());
                val
            },
        }
    }

    /// Writes a field of the automaton's write global, or its register.
    pub fn emit_field_store(
        &mut self,
        cx: &Context<'_>,
        automaton: &str,
        loc: FieldLocation,
        ty: &str,
        value: &str,
    )
        ensures
            final(self)@ == field_store(cx@, old(self)@, automaton@, loc@, ty@, value@),
    {
        match loc {
            FieldLocation::Struct { idx } => {
                let ptr = self.fresh_value();
                let global = cx.write_global(automaton);
                self.put_field_pointer(ptr.as_str(), automaton, global.as_str(), idx);
                self.put_store("store", ty, value, ptr.as_str());
            },
            FieldLocation::RegisterBlock { absolute_address } => {
                let ptr = register_pointer_text(absolute_address, ty);
                self.put_store("store volatile", ty, value, ptr.as_str());
            },
        }
    }

    fn emit_array_pointer(
        &mut self,
        automaton: &str,
        global: &str,
        loc: FieldLocation,
        ty: &str,
    ) -> (r: String)
        ensures
            (final(self)@, r@) == array_pointer(old(self)@, automaton@, global@, loc@, ty@),
    {
        match loc {
            FieldLocation::Struct { idx } => {
                let ptr = self.fresh_value();
                self.put_field_pointer(ptr.as_str(), automaton, global, idx);
                ptr
            },
            FieldLocation::RegisterBlock { absolute_address } => register_pointer_text(
                absolute_address,
                ty,
            ),
        }
    }

    /// Reads `automaton.field`.
    fn emit_field_access_by_name(&mut self, cx: &Context<'_>, automaton: &str, field: &str) -> (r:
        Result<String, CodegenError>)
        ensures
            (final(self)@, result_view(r)) == field_access(
                cx@,
                old(self)@,
                automaton@,
                field@,
            ),
    {
        match cx.locate(automaton, field) {
            Err(e) => Err(e),
            Ok((loc, ty)) => Ok(self.emit_field_load(automaton, loc, ty.as_str())),
        }
    }

    /// Reads `obj.field`.
    fn emit_field_access(&mut self, cx: &Context<'_>, obj: &Expr, field: &str) -> (r: Result<
        String,
        CodegenError,
    >)
        ensures
            (final(self)@, result_view(r)) == match receiver(
                old(self)@,
                *obj,
                "Self.field outside a #transition body"@,
                "non-path receiver in FieldAccess (slice 3+ supports Auto.field / Self.field)"@,
            ) {
                Err(x) => (old(self)@, Err(x)),
                Ok(automaton) => field_access(cx@, old(self)@, automaton, field@),
            },
    {
        match self.receiver_name(
            obj,
            "Self.field outside a #transition body",
            "non-path receiver in FieldAccess (slice 3+ supports Auto.field / Self.field)",
        ) {
            Err(e) => Err(e),
            Ok(automaton) => self.emit_field_access_by_name(cx, automaton.as_str(), field),
        }
    }

    /// Reads `@snapshot automaton.field`.
    fn emit_snapshot(&mut self, cx: &Context<'_>, automaton: &str, field: &str) -> (r: Result<
        String,
        CodegenError,
    >)
        ensures
            (final(self)@, result_view(r)) == snapshot(cx@, old(self)@, automaton@, field@),
    {
        let name: String = if same(automaton, "Self") {
            match self.owner() {
                Some(o) => o,
                None => {
                    return Err(
                        CodegenError::NotYetImplemented {
                            what: "@snapshot Self.field outside a #transition body",
                        },
                    );
                },
            }
        } else {
            automaton.to_owned()
        };
        match cx.locate(name.as_str(), field) {
            Err(_) => {
                let mut full = name.clone();
                full.append(".");
                full.append(field);
                Err(CodegenError::UnresolvedName { name: full })
            },
            Ok((_, ty)) => if !is_primitive_ir_ty_for_snapshot(ty.as_str()) {
                Err(
                    CodegenError::NotYetImplemented {
                        what:
                            "@snapshot of non-primitive field (compound types tear at the load level; future slice may add memcpy-snapshot)",
                    },
                )
            } else {
                self.emit_field_access_by_name(cx, name.as_str(), field)
            },
        }
    }

    /// Reads `automaton@state`.
    fn emit_state_read(&mut self, cx: &Context<'_>, automaton: &str) -> (r: Result<
        String,
        CodegenError,
    >)
        ensures
            (final(self)@, result_view(r)) == state_read(cx@, old(self)@, automaton@),
    {
        match cx.automaton(automaton) {
            None => Err(CodegenError::UnresolvedName { name: automaton.to_owned() }),
            Some(a) => if a.is_register_block {
                Err(
                    CodegenError::NotYetImplemented {
                        what: "Auto@state on a register-block automaton",
                    },
                )
            } else if !a.is_multi_state() {
                Err(
                    CodegenError::NotYetImplemented {
                        what: "Auto@state on a monoid automaton (no `#states` clause)",
                    },
                )
            } else {
                let ptr = self.fresh_value();
                let global = live_global_text(automaton);
                self.put_field_pointer(ptr.as_str(), automaton, global.as_str(), 0);
                let val = self.fresh_value();
                self.put_load(val.as_str(), "load", "i32", ptr.as_str());
                Ok(val)
            },
        }
    }

    /// The array field that `obj[…]` indexes.
    fn locate_indexed(&self, cx: &Context<'_>, obj: &Expr) -> (r: Result<
        (String, FieldLocation, String, String),
        CodegenError,
    >)
        ensures
            match r {
                Ok((a, loc, ty, elem)) => indexed_field(cx@, self@, *obj) == Ok::<
                    (Seq<char>, LocationView, Seq<char>, Seq<char>),
                    CodegenErrorView,
                >((a@, loc@, ty@, elem@)),
                Err(e) => indexed_field(cx@, self@, *obj) == Err::<
                    (Seq<char>, LocationView, Seq<char>, Seq<char>),
                    CodegenErrorView,
                >(e@),
            },
    {
        match &obj.kind {
            ExprKind::FieldAccess { obj: inner, field } => {
                let automaton = self.receiver_name(
                    inner,
                    "Self.field[i] outside a #transition body",
                    "Index where receiver isn't Auto.field / Self.field",
                )?;
                let (loc, ty) = cx.locate(automaton.as_str(), field.as_str())?;
                match array_element_ir_type(ty.as_str()) {
                    None => Err(
                        CodegenError::NotYetImplemented {
                            what: "indexed read on non-array field",
                        },
                    ),
                    Some(elem) => Ok((automaton, loc, ty, elem)),
                }
            },
            _ => Err(
                CodegenError::NotYetImplemented {
                    what:
                        "Index where receiver isn't a field access (slice 5 supports Auto.field[i] only)",
                },
            ),
        }
    }

    /// Reads an element of an array field.
    fn emit_index_load(
        &mut self,
        automaton: &str,
        loc: FieldLocation,
        ty: &str,
        elem_ty: &str,
        index_ty: &str,
        index: &str,
    ) -> (r: String)
        ensures
            (final(self)@, r@) == index_load(
                old(self)@,
                automaton@,
                loc@,
                ty@,
                elem_ty@,
                (index_ty@, index@),
            ),
    {
        let global = live_global_text(automaton);
        let field = self.emit_array_pointer(automaton, global.as_str(), loc, ty);
        let elem = self.fresh_value();
        self.put_element_pointer(elem.as_str(), ty, field.as_str(), index_ty, index);
        let val = self.fresh_value();
        let keyword = match loc {
            FieldLocation::RegisterBlock { .. } => "load volatile",
            FieldLocation::Struct { .. } => "load",
        };
        self.put_load(val.as_str(), keyword, elem_ty, elem.as_str());
        val
    }

    /// Writes an element of an array field.
    pub fn emit_indexed_field_store(
        &mut self,
        cx: &Context<'_>,
        automaton: &str,
        loc: FieldLocation,
        ty: &str,
        elem_ty: &str,
        index_ty: &str,
        index: &str,
        value: &str,
    )
        ensures
            final(self)@ == index_store(
                cx@,
                old(self)@,
                automaton@,
                loc@,
                ty@,
                elem_ty@,
                (index_ty@, index@),
                value@,
            ),
    {
        let global = cx.write_global(automaton);
        let field = self.emit_array_pointer(automaton, global.as_str(), loc, ty);
        let elem = self.fresh_value();
        self.put_element_pointer(elem.as_str(), ty, field.as_str(), index_ty, index);
        let keyword = match loc {
            FieldLocation::RegisterBlock { .. } => "store volatile",
            FieldLocation::Struct { .. } => "store",
        };
        self.put_store(keyword, elem_ty, value, elem.as_str());
    }

    // ─── Operators, casts, aggregates ──────────────────────────────────────

    /// A unary operator on a lowered operand.
    fn emit_unary(&mut self, cx: &Context<'_>, op: UnaryOp, operand: &Expr, v: &str) -> (r: Result<
        String,
        CodegenError,
    >)
        ensures
            (final(self)@, result_view(r)) == unary(cx@, old(self)@, op, *operand, v@),
    {
        let ty = self.expr_ir_type(cx, operand);
        match op {
            UnaryOp::Neg => {
                let dst = self.fresh_value();
                if is_integer_ir_type(ty.as_str()) {
                    self.put_op(dst.as_str(), "sub", ty.as_str(), "0", v);
                } else if is_float_ir_type(ty.as_str()) {
                    self.put("  ");
                    self.put(dst.as_str());
                    self.put(" = fneg ");
                    self.put(ty.as_str());
                    self.put(" ");
                    self.put(v);
                    self.put("\n");
                } else {
                    return Err(
                        CodegenError::NotYetImplemented { what: "unary `-` on non-scalar type" },
                    );
                }
                Ok(dst)
            },
            UnaryOp::Not => {
                let dst = self.fresh_value();
                self.put_op(dst.as_str(), "xor", "i1", v, "true");
                Ok(dst)
            },
            UnaryOp::BitNot => {
                if !is_integer_ir_type(ty.as_str()) {
                    return Err(
                        CodegenError::NotYetImplemented {
                            what: "bitwise `~` on non-integer type",
                        },
                    );
                }
                let dst = self.fresh_value();
                self.put_op(dst.as_str(), "xor", ty.as_str(), v, "-1");
                Ok(dst)
            },
            UnaryOp::Deref => {
                let pointee = expr_pointee_ir_type(cx, operand)?;
                let dst = self.fresh_value();
                self.put_load(dst.as_str(), "load", pointee.as_str(), v);
                Ok(dst)
            },
        }
    }

    /// A binary operator on lowered operands.
    fn emit_binary(&mut self, cx: &Context<'_>, op: BinaryOp, lhs: &Expr, l: &str, r: &str) -> (v:
        String)
        ensures
            (final(self)@, v@) == binary(cx@, old(self)@, op, *lhs, l@, r@),
    {
        let ty = self.expr_ir_type(cx, lhs);
        let opcode = binary_opcode_text(op, expr_is_signed_int(cx, lhs));
        let dst = self.fresh_value();
        self.put_op(dst.as_str(), opcode, ty.as_str(), l, r);
        dst
    }

    /// `value as ty` on a lowered value.
    fn emit_cast(&mut self, from: &str, to: &str, signed: bool, v: String) -> (r: Result<
        String,
        CodegenError,
    >)
        ensures
            (final(self)@, result_view(r)) == cast(old(self)@, from@, to@, signed, v@),
    {
        if same(from, to) {
            return Ok(v);
        }
        match (int_bits(from), int_bits(to)) {
            (Some(s), Some(d)) => {
                let op = resize_opcode_text(s, d, signed);
                let dst = self.fresh_value();
                self.put_conversion(dst.as_str(), op, from, v.as_str(), to);
                Ok(dst)
            },
            _ => Err(
                CodegenError::NotYetImplemented {
                    what: "non-integer cast (float / pointer / aggregate)",
                },
            ),
        }
    }

    /// In an audited transition, marks an unsafe primitive.
    pub fn emit_audit_marker_if_needed(&mut self, primitive: &str)
        ensures
            final(self)@ == audit_marker(old(self)@, primitive@),
    {
        if let Some(owner) = self.audited() {
            self.put("  ; audit-wrap site for ");
            self.put(owner.as_str());
            self.put(" (");
            self.put(primitive);
            self.put(") ; Decision #18\n");
        }
    }

    /// `#unchecked_cast` on a lowered value.
    fn emit_unchecked_cast(&mut self, from: &str, to: &str, signed: bool, v: String) -> (r: String)
        ensures
            (final(self)@, r@) == unchecked_cast(old(self)@, from@, to@, signed, v@),
    {
        if same(from, to) {
            return v;
        }
        let from_bits = int_bits(from);
        let to_bits = int_bits(to);
        let from_ptr = is_pointer_ir_type(from);
        let to_ptr = is_pointer_ir_type(to);
        let op = match (from_bits, to_bits) {
            (Some(s), Some(d)) => resize_opcode_text(s, d, signed),
            _ => if from_ptr && !to_ptr && to_bits.is_some() {
                "ptrtoint"
            } else if !from_ptr && to_ptr && from_bits.is_some() {
                "inttoptr"
            } else {
                "bitcast"
            },
        };
        self.emit_audit_marker_if_needed("unchecked_cast");
        let dst = self.fresh_value();
        self.put_conversion(dst.as_str(), op, from, v.as_str(), to);
        dst
    }

    /// `#unchecked_load` or `#volatile_load` of a lowered pointer.
    fn emit_unchecked_load(&mut self, ty: &str, ptr: &str, is_volatile: bool) -> (r: String)
        ensures
            (final(self)@, r@) == unchecked_load(old(self)@, ty@, ptr@, is_volatile),
    {
        let val = self.fresh_value();
        self.emit_audit_marker_if_needed(
            if is_volatile {
                "volatile_load"
            } else {
                "unchecked_load"
            },
        );
        let keyword = if is_volatile {
            "load volatile"
        } else {
            "load"
        };
        self.put_load(val.as_str(), keyword, ty, ptr);
        val
    }

    /// `#unchecked_offset` of a lowered pointer by a lowered count.
    fn emit_unchecked_offset(&mut self, ty: &str, ptr: &str, n_ty: &str, n: &str) -> (r: String)
        ensures
            (final(self)@, r@) == unchecked_offset(old(self)@, ty@, ptr@, (n_ty@, n@)),
    {
        let dst = self.fresh_value();
        self.emit_audit_marker_if_needed("unchecked_offset");
        self.put("  ");
        self.put(dst.as_str());
        self.put(" = getelementptr ");
        self.put(ty);
        self.put(", ");
        self.put(ty);
        self.put("* ");
        self.put(ptr);
        self.put(", ");
        self.put(n_ty);
        self.put(" ");
        self.put(n);
        self.put("\n");
        dst
    }

    /// One more value into an aggregate.
    fn emit_insert(
        &mut self,
        agg_ty: &str,
        current: &str,
        ty: &str,
        value: &str,
        at: usize,
        Ghost(start): Ghost<EmitState>,
        Ghost(before): Ghost<Seq<Typed>>,
    ) -> (r: String)
        requires
            (old(self)@, current@) == insert_chain(start, agg_ty@, before),
            before.len() == at,
        ensures
            (final(self)@, r@) == insert_chain(start, agg_ty@, before.push((ty@, value@))),
    {
        proof {
            assert(before.push((ty@, value@)).drop_last() =~= before);
        }
        let next = self.fresh_value();
        self.put("  ");
        self.put(next.as_str());
        self.put(" = insertvalue ");
        self.put(agg_ty);
        self.put(" ");
        self.put(current);
        self.put(", ");
        self.put(ty);
        self.put(" ");
        self.put(value);
        self.put(", ");
        let n = decimal(at as u128);
        self.put(n.as_str());
        self.put("\n");
        next
    }

    /// Puts lowered values one after another into an aggregate.
    fn emit_aggregate_insertvalue_chain(&mut self, agg_ty: &str, values: &Vec<(String, String)>) -> (
    r: String)
        ensures
            (final(self)@, r@) == insert_chain(old(self)@, agg_ty@, typed_views(values@)),
    {
        let ghost start = self@;
        let ghost all = typed_views(values@);
        let mut current = "undef".to_owned();
        let mut i: usize = 0;
        assert(all.take(0) =~= Seq::<Typed>::empty());
        while i < values.len()
            invariant
                i <= values@.len() == all.len(),
                all == typed_views(values@),
                (self@, current@) == insert_chain(start, agg_ty@, all.take(i as int)),
            decreases values@.len() - i,
        {
            let ty = values[i].0.as_str();
            let v = values[i].1.as_str();
            assert(all.take(i as int).push((ty@, v@)) =~= all.take(i as int + 1));
            current = self.emit_insert(
                agg_ty,
                current.as_str(),
                ty,
                v,
                i,
                Ghost(start),
                Ghost(all.take(i as int)),
            );
            i = i + 1;
        }
        assert(all.take(i as int) =~= all);
        current
    }

    /// Puts the same lowered value `n` times into an aggregate.
    fn emit_repeat_chain(&mut self, agg_ty: &str, ty: &str, value: &str, n: usize) -> (r: String)
        ensures
            (final(self)@, r@) == insert_chain(
                old(self)@,
                agg_ty@,
                Seq::new(n as nat, |i: int| (ty@, value@)),
            ),
    {
        let ghost start = self@;
        let ghost all = Seq::new(n as nat, |i: int| (ty@, value@));
        let mut current = "undef".to_owned();
        let mut i: usize = 0;
        assert(all.take(0) =~= Seq::<Typed>::empty());
        while i < n
            invariant
                i <= n == all.len(),
                all == Seq::new(n as nat, |i: int| (ty@, value@)),
                (self@, current@) == insert_chain(start, agg_ty@, all.take(i as int)),
            decreases n - i,
        {
            assert(all.take(i as int).push((ty@, value@)) =~= all.take(i as int + 1));
            current = self.emit_insert(
                agg_ty,
                current.as_str(),
                ty,
                value,
                i,
                Ghost(start),
                Ghost(all.take(i as int)),
            );
            i = i + 1;
        }
        assert(all.take(i as int) =~= all);
        current
    }

    /// A call of an `@fn` with lowered arguments.
    fn emit_call(&mut self, cx: &Context<'_>, e: &Expr, name: &str, args: &Vec<(String, String)>) -> (
    r: String)
        ensures
            (final(self)@, r@) == call(cx@, old(self)@, *e, name@, typed_views(args@)),
    {
        let ret_ty = self.expr_ir_type(cx, e);
        let dst = self.fresh_value();
        self.put("  ");
        self.put(dst.as_str());
        self.put(" = call ");
        self.put(ret_ty.as_str());
        self.put(" @");
        self.put(name);
        self.put("(");
        let list = arguments_text(args);
        self.put(list.as_str());
        self.put(")\n");
        dst
    }

    /// Reads a local.
    fn emit_local_read(&mut self, name: &str) -> (r: Result<String, CodegenError>)
        ensures
            (final(self)@, result_view(r)) == local_read(old(self)@, name@),
    {
        let (value, ir_type, storage) = match self.local(name) {
            None => {
                return Err(CodegenError::UnresolvedName { name: name.to_owned() });
            },
            Some(b) => (b.value.clone(), b.ir_type.clone(), b.storage),
        };
        match storage {
            LocalStorage::Ssa => Ok(value),
            LocalStorage::Stack => {
                let val = self.fresh_value();
                self.put_load(val.as_str(), "load", ir_type.as_str(), value.as_str());
                Ok(val)
            },
        }
    }

    // ─── Expressions ───────────────────────────────────────────────────────

    /// Lowers an expression; gives the value that holds its result.
    #[verifier::rlimit(60)]
    #[verifier::spinoff_prover]
    pub fn emit_expr(&mut self, cx: &Context<'_>, e: &Expr) -> (r: Result<String, CodegenError>)
        ensures
            (final(self)@, result_view(r)) == expr(cx@, old(self)@, *e),
        decreases e, 1nat,
    {
        proof {
            expr_unfold(cx@, self@, *e);
        }
        match &e.kind {
            ExprKind::IntLit(s) => match parse_int_literal(s.as_str()) {
                Ok((v, _)) => Ok(v),
                Err(x) => Err(x),
            },
            ExprKind::HexLit(s) => match parse_hex_literal(s.as_str()) {
                Ok((v, _)) => Ok(v),
                Err(x) => Err(x),
            },
            ExprKind::BinLit(s) => match parse_bin_literal(s.as_str()) {
                Ok((v, _)) => Ok(v),
                Err(x) => Err(x),
            },
            ExprKind::BoolLit(b) => Ok(
                if *b {
                    "1".to_owned()
                } else {
                    "0".to_owned()
                },
            ),
            ExprKind::Path(segs) => if segs.len() == 1 {
                self.emit_local_read(segs[0].as_str())
            } else {
                Err(CodegenError::NotYetImplemented { what: "multi-segment path expression" })
            },
            ExprKind::Paren(inner) => self.emit_expr(cx, inner),
            ExprKind::Unary { op, operand } => {
                let v = self.emit_expr(cx, operand)?;
                self.emit_unary(cx, *op, operand, v.as_str())
            },
            ExprKind::Binary { op, lhs, rhs } => {
                let l = self.emit_expr(cx, lhs)?;
                let r = self.emit_expr(cx, rhs)?;
                Ok(self.emit_binary(cx, *op, lhs, l.as_str(), r.as_str()))
            },
            ExprKind::Call { callee, args } => match path_name(callee) {
                None => Err(CodegenError::NotYetImplemented { what: "non-path call callee" }),
                Some(name) => {
                    let vs = self.emit_exprs(cx, args)?;
                    Ok(self.emit_call(cx, e, name.as_str(), &vs))
                },
            },
            ExprKind::FieldAccess { obj, field } => self.emit_field_access(
                cx,
                obj,
                field.as_str(),
            ),
            ExprKind::Snapshot { automaton, field } => self.emit_snapshot(
                cx,
                automaton.as_str(),
                field.as_str(),
            ),
            ExprKind::Index { obj, index } => self.emit_index_expr(cx, e, obj, index),
            ExprKind::Tuple(elems) => {
                let agg_ty = self.expr_ir_type(cx, e);
                let vs = self.emit_exprs(cx, elems)?;
                Ok(self.emit_aggregate_insertvalue_chain(agg_ty.as_str(), &vs))
            },
            ExprKind::Array(elems) => if elems.len() == 0 {
                Err(CodegenError::NotYetImplemented { what: "empty array literal `[]`" })
            } else {
                let agg_ty = self.expr_ir_type(cx, e);
                let vs = self.emit_exprs(cx, elems)?;
                Ok(self.emit_aggregate_insertvalue_chain(agg_ty.as_str(), &vs))
            },
            ExprKind::ArrayRepeat { value, count } => match const_int_count(count) {
                None => Err(
                    CodegenError::NotYetImplemented {
                        what: "array-repeat count that isn't a const integer literal",
                    },
                ),
                Some(n) => {
                    let agg_ty = self.expr_ir_type(cx, e);
                    let v = self.emit_expr(cx, value)?;
                    let ty = self.expr_ir_type(cx, value);
                    let r = self.emit_repeat_chain(agg_ty.as_str(), ty.as_str(), v.as_str(), n);
                    assert(Seq::new(n as nat, |i: int| (ty@, v@)) =~= Seq::new(
                        n as nat,
                        |i: int| (ty@, v@),
                    ));
                    Ok(r)
                },
            },
            ExprKind::Cast { value, ty } => {
                let from = self.expr_ir_type(cx, value);
                let to = lower_type(ty)?;
                let v = self.emit_expr(cx, value)?;
                let signed = expr_is_signed_int(cx, value);
                self.emit_cast(from.as_str(), to.as_str(), signed, v)
            },
            ExprKind::StateRead(name) => self.emit_state_read(cx, name.as_str()),
            ExprKind::UncheckedLoad { ty, ptr } => {
                let t = lower_type(ty)?;
                let p = self.emit_expr(cx, ptr)?;
                Ok(self.emit_unchecked_load(t.as_str(), p.as_str(), false))
            },
            ExprKind::VolatileLoad { ty, ptr } => {
                let t = lower_type(ty)?;
                let p = self.emit_expr(cx, ptr)?;
                Ok(self.emit_unchecked_load(t.as_str(), p.as_str(), true))
            },
            ExprKind::UncheckedCast { from_ty, to_ty, value, .. } => {
                let from = lower_type(from_ty)?;
                let to = lower_type(to_ty)?;
                let v = self.emit_expr(cx, value)?;
                let signed = type_expr_is_signed_int(from_ty);
                Ok(self.emit_unchecked_cast(from.as_str(), to.as_str(), signed, v))
            },
            ExprKind::UncheckedOffset { ty, ptr, n } => {
                let t = lower_type(ty)?;
                let p = self.emit_expr(cx, ptr)?;
                let n_ty = self.expr_ir_type(cx, n);
                let k = self.emit_expr(cx, n)?;
                Ok(self.emit_unchecked_offset(t.as_str(), p.as_str(), n_ty.as_str(), k.as_str()))
            },
            _ => Err(CodegenError::NotYetImplemented { what: expr_kind_name(&e.kind) }),
        }
    }

    /// Reads `obj[index]`, where `obj` is an array field.
    fn emit_index_expr(&mut self, cx: &Context<'_>, e: &Expr, obj: &Expr, index: &Expr) -> (r:
        Result<String, CodegenError>)
        requires
            decreases_to!(e => index),
        ensures
            (final(self)@, result_view(r)) == match indexed_field(cx@, old(self)@, *obj) {
                Err(x) => (old(self)@, Err(x)),
                Ok((automaton, loc, ty, elem_ty)) => match expr(cx@, old(self)@, *index) {
                    (st1, Err(x)) => (st1, Err(x)),
                    (st1, Ok(i)) => {
                        let (st2, v) = index_load(
                            st1,
                            automaton,
                            loc,
                            ty,
                            elem_ty,
                            (expr_ir(cx@, st1.locals, *index), i),
                        );
                        (st2, Ok(v))
                    },
                },
            },
        decreases e, 0nat,
    {
        let (automaton, loc, ty, elem_ty) = self.locate_indexed(cx, obj)?;
        let i = self.emit_expr(cx, index)?;
        let i_ty = self.expr_ir_type(cx, index);
        Ok(
            self.emit_index_load(
                automaton.as_str(),
                loc,
                ty.as_str(),
                elem_ty.as_str(),
                i_ty.as_str(),
                i.as_str(),
            ),
        )
    }

    /// Lowers expressions in order; gives each value with its IR type.
    pub fn emit_exprs(&mut self, cx: &Context<'_>, es: &Vec<Expr>) -> (r: Result<
        Vec<(String, String)>,
        CodegenError,
    >)
        ensures
            (final(self)@, typed_result(r)) == exprs(cx@, old(self)@, es@),
        decreases es@, 2nat,
    {
        let ghost start = self@;
        let mut out: Vec<(String, String)> = Vec::new();
        let mut i: usize = 0;
        assert(es@.take(0) =~= Seq::<Expr>::empty());
        assert(typed_views(out@) =~= Seq::<Typed>::empty());
        while i < es.len()
            invariant
                i <= es@.len(),
                start == old(self)@,
                exprs(cx@, start, es@.take(i as int)) == (
                    self@,
                    Ok::<Seq<Typed>, CodegenErrorView>(typed_views(out@)),
                ),
            decreases es@.len() - i,
        {
            proof {
                assert(es@.take(i as int + 1).drop_last() =~= es@.take(i as int));
                assert(es@.take(i as int + 1).last() == es@[i as int]);
            }
            let v = match self.emit_expr(cx, &es[i]) {
                Ok(v) => v,
                Err(x) => {
                    proof {
                        exprs_prefix(cx@, start, es@, i + 1);
                    }
                    return Err(x);
                },
            };
            let ty = self.expr_ir_type(cx, &es[i]);
            let ghost before = out@;
            out.push((ty, v));
            assert(typed_views(out@) =~= typed_views(before).push((ty@, v@)));
            i = i + 1;
        }
        assert(es@.take(i as int) =~= es@);
        Ok(out)
    }
}

} // verus!
