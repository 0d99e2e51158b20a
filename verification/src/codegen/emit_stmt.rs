//! The emitter for statements.
use vstd::prelude::*;

use crate::ast::{AssignOp, Block, Expr, ExprKind, FieldAssign, Stmt, StmtKind, TypeExpr};
use crate::codegen::emit::{arguments_text, expr_is_signed_int};
use crate::codegen::error::{CodegenError, CodegenErrorView};
use crate::codegen::irtype::{
    array_element_ir_type, is_float_ir_type, is_integer_ir_type, lower_type,
};
use crate::codegen::lowering::{
    any_has_return, assign_field, assign_fields, assign_opcode, bind_identity, body, callee_owner,
    callee_symbol, exit_sequence, fall_through, flush, has_return, let_slot, let_value,
    local_assign, locate_all, mutate, mutate_short, noted, proc_call, put_jump, raw_store,
    return_value, return_void, sigma_foot, sigma_head, stmt, stmt_step, stmt_unfold, stmts,
    unchecked_store,
};
use crate::codegen::registry::{Context, Env, FieldLocation, LocationView};
use crate::codegen::state::{EmitState, Emitter, LocalStorage};
use crate::resolve::{BindingRef, CallContext};
use crate::text::{decimal, same};

verus! {

/// A step without a value as a mathematical value.
pub open spec fn unit_view(r: Result<(), CodegenError>) -> Result<(), CodegenErrorView> {
    match r {
        Ok(_) => Ok(()),
        Err(e) => Err(e@),
    }
}

/// Locations with their types as mathematical values.
spec fn located_views(at: Seq<(FieldLocation, String)>) -> Seq<(LocationView, Seq<char>)> {
    Seq::new(at.len(), |i: int| (at[i].0@, at[i].1@))
}

/// Whether a statement is a `return` or holds one.
fn is_or_holds_return(s: &Stmt) -> (r: bool)
    ensures
        r == has_return(*s),
    decreases s, 0nat,
{
    match &s.kind {
        StmtKind::Return(_) => true,
        StmtKind::If { then_block, else_block, .. } => holds_return(&then_block.stmts) || (
        match else_block {
            Some(b) => holds_return(&b.stmts),
            None => false,
        }),
        StmtKind::Sigma { body, .. } => holds_return(&body.stmts),
        _ => false,
    }
}

proof fn return_in_prefix(ss: Seq<Stmt>, i: int)
    requires
        0 <= i <= ss.len(),
        any_has_return(ss.take(i)),
    ensures
        any_has_return(ss),
    decreases ss.len(),
{
    if i == ss.len() {
        assert(ss.take(i) =~= ss);
    } else {
        assert(ss.drop_last().take(i) =~= ss.take(i));
        return_in_prefix(ss.drop_last(), i);
    }
}

/// Whether one of the statements is a `return` or holds one.
fn holds_return(ss: &Vec<Stmt>) -> (r: bool)
    ensures
        r == any_has_return(ss@),
    decreases ss@, 1nat,
{
    let mut i: usize = 0;
    assert(ss@.take(0) =~= Seq::<Stmt>::empty());
    while i < ss.len()
        invariant
            i <= ss@.len(),
            !any_has_return(ss@.take(i as int)),
        decreases ss@.len() - i,
    {
        proof {
            assert(ss@.take(i as int + 1).drop_last() =~= ss@.take(i as int));
            assert(ss@.take(i as int + 1).last() == ss@[i as int]);
        }
        if is_or_holds_return(&ss[i]) {
            proof {
                return_in_prefix(ss@, i + 1);
            }
            return true;
        }
        i = i + 1;
    }
    assert(ss@.take(i as int) =~= ss@);
    false
}

/// The instruction of a compound assignment.
pub fn compound_assign_opcode(op: AssignOp) -> (r: &'static str)
    ensures
        r@ == assign_opcode(op),
{
    match op {
        AssignOp::PlusEq => "add",
        AssignOp::MinusEq => "sub",
        AssignOp::StarEq => "mul",
        AssignOp::SlashEq => "udiv",
        AssignOp::PercentEq => "urem",
        AssignOp::AmpEq => "and",
        AssignOp::PipeEq => "or",
        AssignOp::CaretEq => "xor",
        AssignOp::ShlEq => "shl",
        AssignOp::ShrEq => "lshr",
        AssignOp::Eq => "store",
    }
}

/// `prefix` and then `rest`.
fn label(prefix: &str, rest: &str) -> (r: String)
    ensures
        r@ == prefix@ + rest@,
{
    let mut out = prefix.to_owned();
    out.append(rest);
    out
}

proof fn locate_all_prefix(env: Env, automaton: Seq<char>, assigns: Seq<FieldAssign>, i: int)
    requires
        0 <= i <= assigns.len(),
        locate_all(env, automaton, assigns.take(i)) is Err,
    ensures
        locate_all(env, automaton, assigns) == locate_all(env, automaton, assigns.take(i)),
    decreases assigns.len(),
{
    if i == assigns.len() {
        assert(assigns.take(i) =~= assigns);
    } else {
        assert(assigns.drop_last().take(i) =~= assigns.take(i));
        locate_all_prefix(env, automaton, assigns.drop_last(), i);
    }
}

proof fn assign_fields_prefix(
    env: Env,
    st: EmitState,
    automaton: Seq<char>,
    assigns: Seq<FieldAssign>,
    at: Seq<(LocationView, Seq<char>)>,
    i: int,
)
    requires
        0 <= i <= assigns.len(),
        assign_fields(env, st, automaton, assigns.take(i), at).1 is Err,
    ensures
        assign_fields(env, st, automaton, assigns, at) == assign_fields(
            env,
            st,
            automaton,
            assigns.take(i),
            at,
        ),
    decreases assigns.len(),
{
    if i == assigns.len() {
        assert(assigns.take(i) =~= assigns);
    } else {
        assert(assigns.drop_last().take(i) =~= assigns.take(i));
        assign_fields_prefix(env, st, automaton, assigns.drop_last(), at, i);
    }
}

proof fn stmts_prefix(env: Env, st: EmitState, ss: Seq<Stmt>, i: int)
    requires
        0 <= i <= ss.len(),
        stmts(env, st, ss.take(i)).terminated,
    ensures
        stmts(env, st, ss) == stmts(env, st, ss.take(i)),
    decreases ss.len(),
{
    if i == ss.len() {
        assert(ss.take(i) =~= ss);
    } else {
        assert(ss.drop_last().take(i) =~= ss.take(i));
        stmts_prefix(env, st, ss.drop_last(), i);
    }
}

impl Emitter {
    // ─── Returns ───────────────────────────────────────────────────────────

    /// Unmasks interrupts where they are masked.
    fn emit_atomic_exit_unmask_if_pending(&mut self)
        ensures
            final(self)@ == if old(self)@.unmask {
                old(self)@.put(
                    "  call void asm sideeffect \"cpsie i\", \"\"() ; #atomic: interrupt_critical exit (unmask)\n"@,
                )
            } else {
                old(self)@
            },
    {
        if self.unmask() {
            self.put(
                "  call void asm sideeffect \"cpsie i\", \"\"() ; #atomic: interrupt_critical exit (unmask)\n",
            );
        }
    }

    /// Emits what is due before a return.
    fn emit_exit_fence_if_pending(&mut self, cx: &Context<'_>)
        ensures
            final(self)@ == exit_sequence(cx@, old(self)@),
    {
        if let Some((automaton, tag)) = self.tag_write() {
            let global = cx.write_global(automaton.as_str());
            let ptr = self.fresh_value();
            self.put_field_pointer(ptr.as_str(), automaton.as_str(), global.as_str(), 0);
            let value = decimal(tag as u128);
            self.put_store("store", "i32", value.as_str(), ptr.as_str());
        }
        if let Some(ordering) = self.exit_fence() {
            self.put("  fence ");
            self.put(ordering);
            self.put("\n");
        }
        self.emit_atomic_exit_unmask_if_pending();
    }

    /// Returns nothing.
    pub fn emit_return_void(&mut self, cx: &Context<'_>)
        ensures
            final(self)@ == return_void(cx@, old(self)@),
    {
        self.emit_exit_fence_if_pending(cx);
        self.put("  ret void\n");
        self.terminate();
    }

    /// Returns a value.
    fn emit_return_value(&mut self, cx: &Context<'_>, ty: &str, v: &str)
        ensures
            final(self)@ == return_value(cx@, old(self)@, (ty@, v@)),
    {
        self.emit_exit_fence_if_pending(cx);
        self.put("  ret ");
        self.put(ty);
        self.put(" ");
        self.put(v);
        self.put("\n");
        self.terminate();
    }

    // ─── Statements ────────────────────────────────────────────────────────

    /// Gives a scalar value a name of its own.
    fn bind_via_identity(&mut self, ty: &str, v: String) -> (r: String)
        ensures
            (final(self)@, r@) == bind_identity(old(self)@, ty@, v@),
    {
        if is_integer_ir_type(ty) {
            let name = self.fresh_value();
            self.put_op(name.as_str(), "add", ty, "0", v.as_str());
            name
        } else if is_float_ir_type(ty) {
            let name = self.fresh_value();
            self.put_op(name.as_str(), "fadd", ty, "0.0", v.as_str());
            name
        } else {
            v
        }
    }

    /// `let name = v`.
    fn emit_let_value(&mut self, name: &str, ty: String, v: String)
        ensures
            final(self)@ == let_value(old(self)@, name@, ty@, v@),
    {
        let value = self.bind_via_identity(ty.as_str(), v);
        self.bind(name, value, ty, LocalStorage::Ssa);
    }

    /// `let mut name = v`.
    fn emit_let_slot(&mut self, name: &str, ty: String, v: String)
        ensures
            final(self)@ == let_slot(old(self)@, name@, ty@, v@),
    {
        let ptr = self.fresh_value();
        self.put("  ");
        self.put(ptr.as_str());
        self.put(" = alloca ");
        self.put(ty.as_str());
        self.put("\n");
        self.put_store("store", ty.as_str(), v.as_str(), ptr.as_str());
        self.bind(name, ptr, ty, LocalStorage::Stack);
    }

    /// Where each assigned field lives.
    fn locate_fields(cx: &Context<'_>, automaton: &str, assigns: &Vec<FieldAssign>) -> (r: Result<
        Vec<(FieldLocation, String)>,
        CodegenError,
    >)
        ensures
            match r {
                Ok(at) => locate_all(cx@, automaton@, assigns@) == Ok::<
                    Seq<(LocationView, Seq<char>)>,
                    CodegenErrorView,
                >(located_views(at@)) && at@.len() == assigns@.len(),
                Err(e) => locate_all(cx@, automaton@, assigns@) == Err::<
                    Seq<(LocationView, Seq<char>)>,
                    CodegenErrorView,
                >(e@),
            },
    {
        let mut out: Vec<(FieldLocation, String)> = Vec::new();
        assert(assigns@.take(0) =~= Seq::<FieldAssign>::empty());
        if cx.automaton(automaton).is_none() {
            proof {
                locate_all_prefix(cx@, automaton@, assigns@, 0);
            }
            return Err(CodegenError::UnresolvedName { name: automaton.to_owned() });
        }
        assert(located_views(out@) =~= Seq::<(LocationView, Seq<char>)>::empty());
        let mut i: usize = 0;
        while i < assigns.len()
            invariant
                i <= assigns@.len(),
                out@.len() == i,
                locate_all(cx@, automaton@, assigns@.take(i as int)) == Ok::<
                    Seq<(LocationView, Seq<char>)>,
                    CodegenErrorView,
                >(located_views(out@)),
            decreases assigns@.len() - i,
        {
            proof {
                assert(assigns@.take(i as int + 1).drop_last() =~= assigns@.take(i as int));
                assert(assigns@.take(i as int + 1).last() == assigns@[i as int]);
            }
            match cx.locate(automaton, assigns[i].field.as_str()) {
                Err(e) => {
                    proof {
                        locate_all_prefix(cx@, automaton@, assigns@, i + 1);
                    }
                    return Err(e);
                },
                Ok(at) => {
                    let ghost before = out@;
                    out.push(at);
                    assert(located_views(out@) =~= located_views(before).push((at.0@, at.1@)));
                },
            }
            i = i + 1;
        }
        assert(assigns@.take(i as int) =~= assigns@);
        Ok(out)
    }

    /// One assignment of a `#mutate`.
    fn emit_assign_field(
        &mut self,
        cx: &Context<'_>,
        automaton: &str,
        fa: &FieldAssign,
        loc: FieldLocation,
        ty: &str,
    ) -> (r: Result<(), CodegenError>)
        ensures
            (final(self)@, unit_view(r)) == assign_field(
                cx@,
                old(self)@,
                automaton@,
                *fa,
                (loc@, ty@),
            ),
    {
        let v = self.emit_expr(cx, &fa.value)?;
        match &fa.index {
            None => {
                self.emit_field_store(cx, automaton, loc, ty, v.as_str());
                Ok(())
            },
            Some(index) => match array_element_ir_type(ty) {
                None => Err(
                    CodegenError::NotYetImplemented {
                        what: "indexed field assignment on non-array field",
                    },
                ),
                Some(elem_ty) => {
                    let i = self.emit_expr(cx, index)?;
                    let i_ty = self.expr_ir_type(cx, index);
                    self.emit_indexed_field_store(
                        cx,
                        automaton,
                        loc,
                        ty,
                        elem_ty.as_str(),
                        i_ty.as_str(),
                        i.as_str(),
                        v.as_str(),
                    );
                    Ok(())
                },
            },
        }
    }

    /// `#mutate automaton { … }`.
    fn emit_mutate(&mut self, cx: &Context<'_>, automaton: &str, assigns: &Vec<FieldAssign>) -> (r:
        Result<(), CodegenError>)
        ensures
            (final(self)@, unit_view(r)) == mutate(cx@, old(self)@, automaton@, assigns@),
    {
        let at = Emitter::locate_fields(cx, automaton, assigns)?;
        let ghost start = self@;
        let ghost places = located_views(at@);
        let mut i: usize = 0;
        assert(assigns@.take(0) =~= Seq::<FieldAssign>::empty());
        while i < assigns.len()
            invariant
                i <= assigns@.len() == at@.len(),
                places == located_views(at@),
                start == old(self)@,
                locate_all(cx@, automaton@, assigns@) == Ok::<
                    Seq<(LocationView, Seq<char>)>,
                    CodegenErrorView,
                >(places),
                assign_fields(cx@, start, automaton@, assigns@.take(i as int), places) == (
                    self@,
                    Ok::<(), CodegenErrorView>(()),
                ),
            decreases assigns@.len() - i,
        {
            proof {
                assert(assigns@.take(i as int + 1).drop_last() =~= assigns@.take(i as int));
                assert(assigns@.take(i as int + 1).last() == assigns@[i as int]);
                assert(places[i as int] == (at@[i as int].0@, at@[i as int].1@));
            }
            match self.emit_assign_field(cx, automaton, &assigns[i], at[i].0, at[i].1.as_str()) {
                Ok(_) => {},
                Err(e) => {
                    proof {
                        assign_fields_prefix(
                            cx@,
                            start,
                            automaton@,
                            assigns@,
                            places,
                            i + 1,
                        );
                    }
                    return Err(e);
                },
            }
            i = i + 1;
        }
        assert(assigns@.take(i as int) =~= assigns@);
        Ok(())
    }

    /// `automaton.field <op>= value`.
    fn emit_mutate_short(
        &mut self,
        cx: &Context<'_>,
        automaton: &str,
        field: &str,
        op: AssignOp,
        value: &Expr,
    ) -> (r: Result<(), CodegenError>)
        ensures
            (final(self)@, unit_view(r)) == mutate_short(
                cx@,
                old(self)@,
                automaton@,
                field@,
                op,
                *value,
            ),
    {
        let (loc, ty) = cx.locate(automaton, field)?;
        if op != AssignOp::Eq && is_float_ir_type(ty.as_str()) {
            return Err(
                CodegenError::NotYetImplemented { what: "compound assignment on a float field" },
            );
        }
        let v = self.emit_expr(cx, value)?;
        if op == AssignOp::Eq {
            self.emit_field_store(cx, automaton, loc, ty.as_str(), v.as_str());
        } else {
            let cur = self.emit_field_load(automaton, loc, ty.as_str());
            let new = self.fresh_value();
            let opcode = compound_assign_opcode(op);
            self.put_op(new.as_str(), opcode, ty.as_str(), cur.as_str(), v.as_str());
            self.emit_field_store(cx, automaton, loc, ty.as_str(), new.as_str());
        }
        Ok(())
    }

    /// The automaton whose transition a `#>` call means.
    fn callee_owner(&self, cx: &Context<'_>, name: &str) -> (r: String)
        ensures
            r@ == callee_owner(cx@, self@, name@),
    {
        let enclosing = self.owner();
        if let Some(o) = &enclosing {
            if cx.declares_transition(o.as_str(), name) {
                return o.clone();
            }
        }
        match cx.owner(name) {
            Some(o) => o.clone(),
            None => match enclosing {
                Some(o) => o,
                None => String::new(),
            },
        }
    }

    /// The symbol that a `#>` call names.
    fn callee_symbol(&self, cx: &Context<'_>, s: &Stmt, name: &str) -> (r: String)
        ensures
            r@ == callee_symbol(cx@, self@, *s, name@),
    {
        let to_transition = match cx.resolution().lookup(s.span) {
            Some(BindingRef::Proc { ctx, .. }) => *ctx == CallContext::Transition,
            _ => false,
        };
        let owner = self.callee_owner(cx, name);
        if to_transition && !owner.as_str().is_empty() {
            let mut out = owner;
            out.append("_");
            out.append(name);
            out
        } else {
            name.to_owned()
        }
    }

    /// `#> name(args);`.
    fn emit_proc_call(&mut self, cx: &Context<'_>, s: &Stmt, name: &str, args: &Vec<Expr>) -> (r:
        Result<(), CodegenError>)
        ensures
            (final(self)@, unit_view(r)) == proc_call(cx@, old(self)@, *s, name@, args@),
    {
        let vs = self.emit_exprs(cx, args)?;
        let symbol = self.callee_symbol(cx, s, name);
        self.put("  call void @");
        self.put(symbol.as_str());
        self.put("(");
        let list = arguments_text(&vs);
        self.put(list.as_str());
        self.put(")\n");
        Ok(())
    }

    /// `#unchecked_store` or `#volatile_store`.
    fn emit_unchecked_store(
        &mut self,
        cx: &Context<'_>,
        ty: &TypeExpr,
        ptr: &Expr,
        value: &Expr,
        is_volatile: bool,
    ) -> (r: Result<(), CodegenError>)
        ensures
            (final(self)@, unit_view(r)) == raw_store(
                cx@,
                old(self)@,
                *ty,
                *ptr,
                *value,
                is_volatile,
            ),
    {
        let t = lower_type(ty)?;
        let p = self.emit_expr(cx, ptr)?;
        let v = self.emit_expr(cx, value)?;
        self.emit_audit_marker_if_needed(
            if is_volatile {
                "volatile_store"
            } else {
                "unchecked_store"
            },
        );
        let keyword = if is_volatile {
            "store volatile"
        } else {
            "store"
        };
        self.put_store(keyword, t.as_str(), v.as_str(), p.as_str());
        Ok(())
    }

    /// `name = value;`.
    fn emit_local_assign(&mut self, cx: &Context<'_>, name: &str, value: &Expr) -> (r: Result<
        (),
        CodegenError,
    >)
        ensures
            (final(self)@, unit_view(r)) == local_assign(cx@, old(self)@, name@, *value),
    {
        let (ptr, ty) = match self.local(name) {
            None => {
                return Err(CodegenError::UnresolvedName { name: name.to_owned() });
            },
            Some(b) => match b.storage {
                LocalStorage::Ssa => {
                    return Err(
                        CodegenError::NotYetImplemented {
                            what:
                                "Assign on an immutable local (resolver should have caught this; please file a bug)",
                        },
                    );
                },
                LocalStorage::Stack => (b.value.clone(), b.ir_type.clone()),
            },
        };
        let v = self.emit_expr(cx, value)?;
        self.put_store("store", ty.as_str(), v.as_str(), ptr.as_str());
        Ok(())
    }

    /// `#flush automaton;`.
    fn emit_flush(&mut self, cx: &Context<'_>, automaton: &str) -> (r: Result<(), CodegenError>)
        ensures
            (final(self)@, unit_view(r)) == flush(cx@, old(self)@, automaton@),
    {
        match cx.automaton(automaton) {
            None => {
                return Err(CodegenError::UnresolvedName { name: automaton.to_owned() });
            },
            Some(a) => {
                if !a.is_staged {
                    return Err(
                        CodegenError::NotYetImplemented {
                            what:
                                "`#flush` on a non-staged automaton (resolver should have caught this; please file a bug)",
                        },
                    );
                }
                if a.is_register_block {
                    return Err(
                        CodegenError::NotYetImplemented {
                            what:
                                "`#flush` on a register-block automaton (no shadow exists; the combination is undefined for v0.2)",
                        },
                    );
                }
            },
        }
        let size_ptr = self.fresh_value();
        self.put("  ");
        self.put(size_ptr.as_str());
        self.put(" = getelementptr %struct.");
        self.put(automaton);
        self.put(", %struct.");
        self.put(automaton);
        self.put("* null, i32 1\n");
        let size = self.fresh_value();
        self.put("  ");
        self.put(size.as_str());
        self.put(" = ptrtoint %struct.");
        self.put(automaton);
        self.put("* ");
        self.put(size_ptr.as_str());
        self.put(" to i64\n");
        let dst = self.fresh_value();
        self.put("  ");
        self.put(dst.as_str());
        self.put(" = bitcast %struct.");
        self.put(automaton);
        self.put("* @");
        self.put(automaton);
        self.put(".state to i8*\n");
        let src = self.fresh_value();
        self.put("  ");
        self.put(src.as_str());
        self.put(" = bitcast %struct.");
        self.put(automaton);
        self.put("* @");
        self.put(automaton);
        self.put(".shadow to i8*\n");
        self.put("  call void @llvm.memcpy.p0.p0.i64(i8* ");
        self.put(dst.as_str());
        self.put(", i8* ");
        self.put(src.as_str());
        self.put(", i64 ");
        self.put(size.as_str());
        self.put(", i1 false) ; #flush ");
        self.put(automaton);
        self.put(" (Decision #12)\n");
        Ok(())
    }

    fn put_jump(&mut self, target: &str)
        ensures
            final(self)@ == put_jump(old(self)@, target@),
    {
        self.put("  br label %");
        self.put(target);
        self.put("\n");
    }

    fn emit_fall_through(&mut self, target: &str)
        ensures
            final(self)@ == fall_through(old(self)@, target@),
    {
        if !self.terminated() {
            self.put_jump(target);
        }
    }

    /// The head of a counted loop.
    fn emit_sigma_head(
        &mut self,
        id: &str,
        ty: &str,
        signed: bool,
        inclusive: bool,
        lo: &str,
        hi: &str,
    )
        ensures
            final(self)@ == sigma_head(old(self)@, id@, ty@, signed, inclusive, lo@, hi@),
    {
        let pred = self.block();
        let header = label("sigma.header.", id);
        let body_label = label("sigma.body.", id);
        self.put_jump(header.as_str());
        self.start_block(header.as_str());
        self.put("  %sigma.i.");
        self.put(id);
        self.put(" = phi ");
        self.put(ty);
        self.put(" [ ");
        self.put(lo);
        self.put(", %");
        self.put(pred.as_str());
        self.put(" ], [ %sigma.i_next.");
        self.put(id);
        self.put(", %sigma.continue.");
        self.put(id);
        self.put(" ]\n");
        self.put("  %sigma.cond.");
        self.put(id);
        self.put(" = icmp ");
        let compare = if signed {
            if inclusive {
                "sle"
            } else {
                "slt"
            }
        } else if inclusive {
            "ule"
        } else {
            "ult"
        };
        self.put(compare);
        self.put(" ");
        self.put(ty);
        self.put(" %sigma.i.");
        self.put(id);
        self.put(", ");
        self.put(hi);
        self.put("\n");
        self.put("  br i1 %sigma.cond.");
        self.put(id);
        self.put(", label %sigma.body.");
        self.put(id);
        self.put(", label %sigma.exit.");
        self.put(id);
        self.put("\n");
        self.start_block(body_label.as_str());
    }

    /// The foot of a counted loop.
    fn emit_sigma_foot(&mut self, id: &str, ty: &str, signed: bool)
        ensures
            final(self)@ == sigma_foot(old(self)@, id@, ty@, signed),
    {
        let header = label("sigma.header.", id);
        let next = label("sigma.continue.", id);
        let exit = label("sigma.exit.", id);
        self.emit_fall_through(next.as_str());
        self.start_block(next.as_str());
        self.put("  %sigma.i_next.");
        self.put(id);
        self.put(
            if signed {
                " = add nsw "
            } else {
                " = add nuw "
            },
        );
        self.put(ty);
        self.put(" %sigma.i.");
        self.put(id);
        self.put(", 1\n");
        self.put_jump(header.as_str());
        self.start_block(exit.as_str());
    }

    /// Records the error of a step that failed.
    fn note(&mut self, r: Result<(), CodegenError>)
        ensures
            final(self)@ == noted((old(self)@, unit_view(r))),
    {
        match r {
            Ok(_) => {},
            Err(e) => self.fail(e),
        }
    }

    /// `sigma var in lo..hi { … }`.
    fn emit_sigma(&mut self, cx: &Context<'_>, s: &Stmt, var: &str, source: &Expr, b: &Block)
        requires
            s.kind is Sigma,
            s.kind->var@ == var@,
            s.kind->source == *source,
            s.kind->Sigma_body == *b,
        ensures
            final(self)@ == stmt_step(cx@, old(self)@, *s),
        decreases s, 0nat,
    {
        let (lo, hi, inclusive) = match &source.kind {
            ExprKind::Range { lo, hi, inclusive } => (lo, hi, *inclusive),
            _ => {
                self.fail(
                    CodegenError::NotYetImplemented {
                        what:
                            "sigma over a non-range source (array source needs the slice-indexing slice)",
                    },
                );
                return;
            },
        };
        let ty = self.expr_ir_type(cx, lo);
        let signed = expr_is_signed_int(cx, lo);
        let l = match self.emit_expr(cx, lo) {
            Ok(v) => v,
            Err(e) => {
                self.fail(e);
                return;
            },
        };
        let h = match self.emit_expr(cx, hi) {
            Ok(v) => v,
            Err(e) => {
                self.fail(e);
                return;
            },
        };
        let id = self.fresh_label();
        self.emit_sigma_head(id.as_str(), ty.as_str(), signed, inclusive, l.as_str(), h.as_str());
        let scope: usize = self.scope();
        let counter = label("%sigma.i.", id.as_str());
        let next = label("sigma.continue.", id.as_str());
        let exit = label("sigma.exit.", id.as_str());
        self.bind(var, counter, ty.clone(), LocalStorage::Ssa);
        self.open_loop(next.as_str(), exit.as_str());
        self.emit_stmts(cx, &b.stmts);
        self.unbind(scope);
        self.close_loop();
        self.emit_sigma_foot(id.as_str(), ty.as_str(), signed);
    }

    /// `if cond { … } else { … }`.
    fn emit_if(
        &mut self,
        cx: &Context<'_>,
        s: &Stmt,
        cond: &Expr,
        then_block: &Block,
        else_block: &Option<Block>,
    )
        requires
            s.kind is If,
            s.kind->cond == *cond,
            s.kind->then_block == *then_block,
            s.kind->else_block == *else_block,
        ensures
            final(self)@ == stmt_step(cx@, old(self)@, *s),
        decreases s, 0nat,
    {
        let c = match self.emit_expr(cx, cond) {
            Ok(v) => v,
            Err(e) => {
                self.fail(e);
                return;
            },
        };
        let id = self.fresh_label();
        let then_label = label("if.then.", id.as_str());
        let else_label = label("if.else.", id.as_str());
        let exit_label = label("if.exit.", id.as_str());
        self.put("  br i1 ");
        self.put(c.as_str());
        self.put(", label %");
        self.put(then_label.as_str());
        self.put(", label %");
        if else_block.is_some() {
            self.put(else_label.as_str());
        } else {
            self.put(exit_label.as_str());
        }
        self.put("\n");
        self.start_block(then_label.as_str());
        let scope: usize = self.scope();
        self.emit_stmts(cx, &then_block.stmts);
        self.unbind(scope);
        self.emit_fall_through(exit_label.as_str());
        if let Some(b) = else_block {
            self.start_block(else_label.as_str());
            let scope: usize = self.scope();
            self.emit_stmts(cx, &b.stmts);
            self.unbind(scope);
            self.emit_fall_through(exit_label.as_str());
        }
        self.start_block(exit_label.as_str());
    }

    /// Lowers a statement.
    pub fn emit_stmt(&mut self, cx: &Context<'_>, s: &Stmt)
        ensures
            final(self)@ == stmt(cx@, old(self)@, *s),
        decreases s, 1nat,
    {
        proof {
            stmt_unfold(cx@, self@, *s);
        }
        match &s.kind {
            StmtKind::Return(Some(e)) => {
                let ty = self.expr_ir_type(cx, e);
                match self.emit_expr(cx, e) {
                    Ok(v) => self.emit_return_value(cx, ty.as_str(), v.as_str()),
                    Err(x) => self.fail(x),
                }
            },
            StmtKind::Return(None) => self.emit_return_void(cx),
            StmtKind::Let { mutable, name, ty, value } => {
                let ir = match ty {
                    Some(t) => match lower_type(t) {
                        Ok(i) => i,
                        Err(x) => {
                            self.fail(x);
                            "i32".to_owned()
                        },
                    },
                    None => self.expr_ir_type(cx, value),
                };
                match self.emit_expr(cx, value) {
                    Ok(v) => if *mutable {
                        self.emit_let_slot(name.as_str(), ir, v);
                    } else {
                        self.emit_let_value(name.as_str(), ir, v);
                    },
                    Err(x) => self.fail(x),
                }
            },
            StmtKind::LetShort { name, value } => {
                let ir = self.expr_ir_type(cx, value);
                match self.emit_expr(cx, value) {
                    Ok(v) => self.emit_let_value(name.as_str(), ir, v),
                    Err(x) => self.fail(x),
                }
            },
            StmtKind::Expr(e) => match self.emit_expr(cx, e) {
                Ok(_) => {},
                Err(x) => self.fail(x),
            },
            StmtKind::Mutate { automaton, assigns } => {
                let r = self.emit_mutate(cx, automaton.as_str(), assigns);
                self.note(r);
            },
            StmtKind::MutateShort { automaton, field, op, value } => {
                let r = self.emit_mutate_short(
                    cx,
                    automaton.as_str(),
                    field.as_str(),
                    *op,
                    value,
                );
                self.note(r);
            },
            StmtKind::ProcCall { name, args } => {
                let r = self.emit_proc_call(cx, s, name.as_str(), args);
                self.note(r);
            },
            StmtKind::UncheckedStore { ty, ptr, value } => {
                let r = self.emit_unchecked_store(cx, ty, ptr, value, false);
                self.note(r);
            },
            StmtKind::VolatileStore { ty, ptr, value } => {
                let r = self.emit_unchecked_store(cx, ty, ptr, value, true);
                self.note(r);
            },
            StmtKind::Sigma { var, source, body } => self.emit_sigma(
                cx,
                s,
                var.as_str(),
                source,
                body,
            ),
            StmtKind::If { cond, then_block, else_block } => self.emit_if(
                cx,
                s,
                cond,
                then_block,
                else_block,
            ),
            StmtKind::Break => match self.innermost_loop() {
                Some((_, exit_label)) => {
                    self.put_jump(exit_label.as_str());
                    self.terminate();
                },
                None => self.fail(
                    CodegenError::NotYetImplemented {
                        what:
                            "`break` outside a sigma loop (resolver should have caught this; please file a bug)",
                    },
                ),
            },
            StmtKind::Continue => match self.innermost_loop() {
                Some((continue_label, _)) => {
                    self.put_jump(continue_label.as_str());
                    self.terminate();
                },
                None => self.fail(
                    CodegenError::NotYetImplemented {
                        what:
                            "`continue` outside a sigma loop (resolver should have caught this; please file a bug)",
                    },
                ),
            },
            StmtKind::Flush { automaton } => {
                let r = self.emit_flush(cx, automaton.as_str());
                self.note(r);
            },
            StmtKind::Assign { name, value } => {
                let r = self.emit_local_assign(cx, name.as_str(), value);
                self.note(r);
            },
        }
    }

    /// Lowers statements in order, up to the first that ends the block.
    pub fn emit_stmts(&mut self, cx: &Context<'_>, ss: &Vec<Stmt>)
        ensures
            final(self)@ == stmts(cx@, old(self)@, ss@),
        decreases ss@, 2nat,
    {
        let ghost start = self@;
        let mut i: usize = 0;
        assert(ss@.take(0) =~= Seq::<Stmt>::empty());
        while i < ss.len()
            invariant
                i <= ss@.len(),
                start == old(self)@,
                self@ == stmts(cx@, start, ss@.take(i as int)),
            decreases ss@.len() - i,
        {
            if self.terminated() {
                proof {
                    stmts_prefix(cx@, start, ss@, i as int);
                }
                return;
            }
            proof {
                assert(ss@.take(i as int + 1).drop_last() =~= ss@.take(i as int));
                assert(ss@.take(i as int + 1).last() == ss@[i as int]);
            }
            self.emit_stmt(cx, &ss[i]);
            i = i + 1;
        }
        assert(ss@.take(i as int) =~= ss@);
    }

    /// Lowers the body of a function.
    pub fn emit_block(&mut self, cx: &Context<'_>, b: &Block, ret_ty: &str)
        ensures
            final(self)@ == body(cx@, old(self)@, *b, ret_ty@),
    {
        self.emit_stmts(cx, &b.stmts);
        if !self.terminated() {
            if same(ret_ty, "void") {
                self.emit_return_void(cx);
            } else {
                self.put("  unreachable\n");
                self.terminate();
                if !holds_return(&b.stmts) {
                    self.fail(
                        CodegenError::NotYetImplemented {
                            what: "non-unit function without a `return`",
                        },
                    );
                }
            }
        }
    }
}

} // verus!
