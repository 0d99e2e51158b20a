//! The blocks that statements become, and how control goes through them.
use vstd::prelude::*;

use crate::ast::{BinaryOp, Block, Expr, ExprKind, Stmt, StmtKind};
use crate::codegen::error::CodegenErrorView;
use crate::codegen::instructions::{behind, Instr};
use crate::codegen::irtype::{float_ir, integer_ir, written_ir, written_signed};
use crate::codegen::laws::{grows, runs, rows_only_run};
use crate::codegen::lowering::{
    cast, expr, expr_ir, expr_signed, expr_unfold, exprs, fall_through, field_access, flush,
    index_load, insert_chain, let_slot, let_value, local_read, loop_compare, sigma_foot, sigma_head,
    snapshot, state_read, stmt, stmt_unfold, stmts, unary, unchecked_cast, unchecked_load,
    unchecked_offset, unchecked_store, Typed,
};
use crate::codegen::meaning::{
    ir_compare, ir_result, is_pattern, loops_run_up_to_the_bound, number, operators_are_computed,
};
use crate::codegen::registry::Env;
use crate::codegen::state::{find_local, EmitState, LocalStorage, LocalView};
use crate::text::{dec, decimal_reads_back};

verus! {

// ─── Blocks ────────────────────────────────────────────────────────────────

/// The state at the beginning of a block.
pub open spec fn entering(st: EmitState, label: Seq<char>) -> EmitState {
    EmitState {
        out: behind(st.out, Instr::Label { name: label }),
        block: label,
        terminated: false,
        ..st
    }
}

/// The state behind a nested block whose end leads to `to`: unless the block has
/// ended otherwise, control goes there. The locals of the block are gone.
pub open spec fn leaving(done: EmitState, outer: Seq<LocalView>, to: Seq<char>) -> EmitState {
    EmitState {
        out: if done.terminated {
            done.out
        } else {
            behind(done.out, Instr::Jump { to })
        },
        locals: outer,
        ..done
    }
}

proof fn locals_go(env: Env, st: EmitState, ss: Seq<Stmt>, outer: Seq<LocalView>)
    requires
        grows(outer, st.locals),
    ensures
        stmts(env, st, ss).unbind(outer.len()) == (EmitState {
            locals: outer,
            ..stmts(env, st, ss)
        }),
{
    rows_only_run(env, st, ss);
    reveal(runs);
    let done = stmts(env, st, ss);
    assert(done.locals.take(outer.len() as int) =~= outer);
    if done.locals.len() == outer.len() {
        assert(done.locals =~= outer);
    }
}

/// The state behind a branch on `c`.
pub open spec fn split(st: EmitState, c: Seq<char>, yes: Seq<char>, no: Seq<char>) -> EmitState {
    EmitState {
        out: behind(st.out, Instr::Branch { cond: c, yes, no }),
        labels: st.labels + 1,
        ..st
    }
}

/// The state behind the block of one side of a branch, which leads to `exit`.
pub open spec fn side(
    env: Env,
    st: EmitState,
    label: Seq<char>,
    ss: Seq<Stmt>,
    outer: Seq<LocalView>,
    exit: Seq<char>,
) -> EmitState {
    leaving(stmts(env, entering(st, label), ss), outer, exit)
}

proof fn side_ends(
    env: Env,
    st: EmitState,
    label: Seq<char>,
    ss: Seq<Stmt>,
    outer: Seq<LocalView>,
    exit: Seq<char>,
)
    requires
        st.locals == outer,
    ensures
        fall_through(
            stmts(env, st.start_block(label), ss).unbind(st.start_block(label).locals.len()),
            exit,
        ) == side(env, st, label, ss, outer, exit),
        side(env, st, label, ss, outer, exit).locals == outer,
{
    let inside = entering(st, label);
    assert(st.start_block(label) == inside);
    assert(inside.locals.take(outer.len() as int) =~= outer);
    locals_go(env, inside, ss, outer);
}

/// A branch goes to the block of its `if` side where the condition holds, and
/// otherwise to that of its `else` side, or behind the whole where there is
/// none. Each side holds its own statements, and both lead behind the whole.
pub proof fn branches_run_one_side(
    env: Env,
    st: EmitState,
    s: Stmt,
    cond: Expr,
    then_block: Block,
    else_block: Option<Block>,
    c: Seq<char>,
)
    requires
        s.kind == (StmtKind::If { cond, then_block, else_block }),
        expr(env, st, cond).1 == Ok::<Seq<char>, CodegenErrorView>(c),
    ensures
        ({
            let st1 = expr(env, st, cond).0;
            let outer = st1.locals;
            let id = dec(st1.labels);
            let yes = "if.then."@ + id;
            let no = "if.else."@ + id;
            let exit = "if.exit."@ + id;
            match else_block {
                None => stmt(env, st, s) == entering(
                    side(env, split(st1, c, yes, exit), yes, then_block.stmts@, outer, exit),
                    exit,
                ),
                Some(b) => stmt(env, st, s) == entering(
                    side(
                        env,
                        side(env, split(st1, c, yes, no), yes, then_block.stmts@, outer, exit),
                        no,
                        b.stmts@,
                        outer,
                        exit,
                    ),
                    exit,
                ),
            }
        }),
{
    stmt_unfold(env, st, s);
    let st1 = expr(env, st, cond).0;
    let outer = st1.locals;
    let id = dec(st1.labels);
    let yes = "if.then."@ + id;
    let no = "if.else."@ + id;
    let exit = "if.exit."@ + id;
    match else_block {
        None => side_ends(env, split(st1, c, yes, exit), yes, then_block.stmts@, outer, exit),
        Some(b) => {
            side_ends(env, split(st1, c, yes, no), yes, then_block.stmts@, outer, exit);
            let st3 = side(env, split(st1, c, yes, no), yes, then_block.stmts@, outer, exit);
            side_ends(env, st3, no, b.stmts@, outer, exit);
        },
    }
}

/// Labels of different groups differ, whatever they are for.
pub proof fn labels_of_groups_differ(kind: Seq<char>, i: nat, j: nat)
    requires
        i != j,
    ensures
        kind + dec(i) != kind + dec(j),
{
    if kind + dec(i) == kind + dec(j) {
        assert((kind + dec(i)).skip(kind.len() as int) =~= dec(i));
        assert((kind + dec(j)).skip(kind.len() as int) =~= dec(j));
        let max = i + j;
        decimal_reads_back(i, max);
        decimal_reads_back(j, max);
    }
}

proof fn sigma_texts(id: Seq<char>)
    ensures
        "  %sigma.i."@ + id =~= "  "@ + ("%sigma.i."@ + id),
        " %sigma.i."@ + id =~= " "@ + ("%sigma.i."@ + id),
        "  %sigma.cond."@ + id =~= "  "@ + ("%sigma.cond."@ + id),
        "  %sigma.i_next."@ + id =~= "  "@ + ("%sigma.i_next."@ + id),
        "  br i1 %sigma.cond."@ + id =~= "  br i1 "@ + ("%sigma.cond."@ + id),
        ", label %sigma.body."@ + id =~= ", label %"@ + ("sigma.body."@ + id),
        ", label %sigma.exit."@ + id =~= ", label %"@ + ("sigma.exit."@ + id),
        " ], [ %sigma.i_next."@ + id =~= " ], [ "@ + ("%sigma.i_next."@ + id),
        ", %sigma.continue."@ + id =~= ", %"@ + ("sigma.continue."@ + id),
{
    reveal_strlit("  %sigma.i.");
    reveal_strlit(" %sigma.i.");
    reveal_strlit("%sigma.i.");
    reveal_strlit("  %sigma.cond.");
    reveal_strlit("%sigma.cond.");
    reveal_strlit("  %sigma.i_next.");
    reveal_strlit("%sigma.i_next.");
    reveal_strlit("  br i1 %sigma.cond.");
    reveal_strlit("  br i1 ");
    reveal_strlit(", label %sigma.body.");
    reveal_strlit(", label %");
    reveal_strlit("sigma.body.");
    reveal_strlit(", label %sigma.exit.");
    reveal_strlit("sigma.exit.");
    reveal_strlit(" ], [ %sigma.i_next.");
    reveal_strlit(" ], [ ");
    reveal_strlit(", %sigma.continue.");
    reveal_strlit(", %");
    reveal_strlit("sigma.continue.");
    reveal_strlit("  ");
    reveal_strlit(" ");
}

/// Text, a literal and a name written apart are the literal's parts and the name
/// written together.
proof fn regroup(out: Seq<char>, whole: Seq<char>, head: Seq<char>, name: Seq<char>, id: Seq<char>)
    requires
        whole + id == head + name,
    ensures
        out + whole + id == out + head + name,
{
    assert(out + whole + id =~= out + (whole + id));
    assert(out + head + name =~= out + (head + name));
}

/// The instruction compares as the operator does.
pub open spec fn compares(condition: Seq<char>, signed: bool, inclusive: bool) -> bool {
    forall|n: nat, i: int, hi: int| #[trigger]
        ir_compare(condition, n, i, hi) == Some(
            if inclusive {
                number(signed, n, i) <= number(signed, n, hi)
            } else {
                number(signed, n, i) < number(signed, n, hi)
            },
        )
}

/// The state behind the head of a counted loop: the counter is the lower bound
/// when control comes from before the loop, and the counted-up counter when it
/// comes from the loop; where the counter has not passed the upper bound control
/// goes into the body, else behind the loop.
pub open spec fn loop_entered(
    st: EmitState,
    ty: Seq<char>,
    condition: Seq<char>,
    lo: Seq<char>,
    hi: Seq<char>,
) -> EmitState {
    let id = dec(st.labels);
    let counter = "%sigma.i."@ + id;
    let next = "%sigma.i_next."@ + id;
    let go_on = "%sigma.cond."@ + id;
    let header = "sigma.header."@ + id;
    let body = "sigma.body."@ + id;
    let again = "sigma.continue."@ + id;
    let exit = "sigma.exit."@ + id;
    EmitState {
        out: behind(
            behind(
                behind_compare(
                    behind(
                        behind(
                            behind(st.out, Instr::Jump { to: header }),
                            Instr::Label { name: header },
                        ),
                        Instr::Merge {
                            dst: counter,
                            ty,
                            first: (lo, st.block),
                            again: (next, again),
                        },
                    ),
                    go_on,
                    condition,
                    ty,
                    counter,
                    hi,
                ),
                Instr::Branch { cond: go_on, yes: body, no: exit },
            ),
            Instr::Label { name: body },
        ),
        labels: st.labels + 1,
        block: body,
        terminated: false,
        ..st
    }
}

/// The text with a comparison behind it.
pub open spec fn behind_compare(
    out: Seq<char>,
    dst: Seq<char>,
    condition: Seq<char>,
    ty: Seq<char>,
    l: Seq<char>,
    r: Seq<char>,
) -> Seq<char> {
    out + "  "@ + dst + " = icmp "@ + condition + " "@ + ty + " "@ + l + ", "@ + r + "\n"@
}

/// The state behind the foot of a counted loop: the end of the body and every
/// `continue` lead to the block that adds 1 to the counter and goes back to the
/// head.
pub open spec fn loop_left(done: EmitState, id: Seq<char>, ty: Seq<char>, signed: bool) -> EmitState {
    let again = "sigma.continue."@ + id;
    let header = "sigma.header."@ + id;
    let counter = "%sigma.i."@ + id;
    let next = "%sigma.i_next."@ + id;
    let counting = entering(done, again);
    entering(
        EmitState {
            out: behind(
                counting.out + "  "@ + next + (if signed {
                    " = add nsw "@
                } else {
                    " = add nuw "@
                }) + ty + " "@ + counter + ", 1\n"@,
                Instr::Jump { to: header },
            ),
            ..counting
        },
        "sigma.exit."@ + id,
    )
}

#[verifier::rlimit(60)]
#[verifier::spinoff_prover]
proof fn head_enters(
    st: EmitState,
    ty: Seq<char>,
    signed: bool,
    inclusive: bool,
    lo: Seq<char>,
    hi: Seq<char>,
)
    ensures
        sigma_head(st.take_label(), dec(st.labels), ty, signed, inclusive, lo, hi) == loop_entered(
            st,
            ty,
            loop_compare(signed, inclusive),
            lo,
            hi,
        ),
{
    let id = dec(st.labels);
    sigma_texts(id);
    let header = "sigma.header."@ + id;
    let counter = "%sigma.i."@ + id;
    let next = "%sigma.i_next."@ + id;
    let go_on = "%sigma.cond."@ + id;
    let o1 = behind(behind(st.out, Instr::Jump { to: header }), Instr::Label { name: header });
    regroup(o1, "  %sigma.i."@, "  "@, counter, id);
    let o2 = o1 + "  "@ + counter + " = phi "@ + ty + " [ "@ + lo + ", %"@ + st.block;
    regroup(o2, " ], [ %sigma.i_next."@, " ], [ "@, next, id);
    let o3 = o2 + " ], [ "@ + next;
    regroup(o3, ", %sigma.continue."@, ", %"@, "sigma.continue."@ + id, id);
    let o4 = o3 + ", %"@ + ("sigma.continue."@ + id) + " ]\n"@;
    regroup(o4, "  %sigma.cond."@, "  "@, go_on, id);
    let o5 = o4 + "  "@ + go_on + " = icmp "@ + loop_compare(signed, inclusive) + " "@ + ty;
    regroup(o5, " %sigma.i."@, " "@, counter, id);
    let o6 = o5 + " "@ + counter + ", "@ + hi + "\n"@;
    regroup(o6, "  br i1 %sigma.cond."@, "  br i1 "@, go_on, id);
    let o7 = o6 + "  br i1 "@ + go_on;
    regroup(o7, ", label %sigma.body."@, ", label %"@, "sigma.body."@ + id, id);
    let o8 = o7 + ", label %"@ + ("sigma.body."@ + id);
    regroup(o8, ", label %sigma.exit."@, ", label %"@, "sigma.exit."@ + id, id);
}

#[verifier::rlimit(60)]
#[verifier::spinoff_prover]
proof fn foot_leaves(st: EmitState, id: Seq<char>, ty: Seq<char>, signed: bool)
    ensures
        sigma_foot(st, id, ty, signed) == loop_left(
            leaving(st, st.locals, "sigma.continue."@ + id),
            id,
            ty,
            signed,
        ),
{
    sigma_texts(id);
    let again = "sigma.continue."@ + id;
    let o = entering(leaving(st, st.locals, again), again).out;
    regroup(o, "  %sigma.i_next."@, "  "@, "%sigma.i_next."@ + id, id);
    let add = if signed {
        " = add nsw "@
    } else {
        " = add nuw "@
    };
    let o2 = o + "  "@ + ("%sigma.i_next."@ + id) + add + ty;
    regroup(o2, " %sigma.i."@, " "@, "%sigma.i."@ + id, id);
}

/// A counted loop runs its statements for the counter from the lower bound up
/// to the upper bound, which is included exactly where the range includes it.
/// The counter goes by the name of the variable inside the loop and nowhere
/// else. `continue` leads to where the counter is counted up by 1, and `break`
/// behind the loop.
pub proof fn loops_count_through_their_range(
    env: Env,
    st: EmitState,
    s: Stmt,
    var: String,
    source: Expr,
    body: Block,
    lo: Box<Expr>,
    hi: Box<Expr>,
    inclusive: bool,
    l: Seq<char>,
    h: Seq<char>,
)
    requires
        s.kind == (StmtKind::Sigma { var, source, body }),
        source.kind == (ExprKind::Range { lo, hi, inclusive }),
        expr(env, st, *lo).1 == Ok::<Seq<char>, CodegenErrorView>(l),
        expr(env, expr(env, st, *lo).0, *hi).1 == Ok::<Seq<char>, CodegenErrorView>(h),
    ensures
        ({
            let st2 = expr(env, expr(env, st, *lo).0, *hi).0;
            let id = dec(st2.labels);
            let ty = expr_ir(env, st.locals, *lo);
            let signed = expr_signed(env, *lo);
            let again = "sigma.continue."@ + id;
            exists|condition: Seq<char>|
                {
                    let head = #[trigger] loop_entered(st2, ty, condition, l, h);
                    let counter = LocalView {
                        name: var@,
                        value: "%sigma.i."@ + id,
                        ir_type: ty,
                        storage: LocalStorage::Ssa,
                    };
                    let inside = EmitState {
                        locals: head.locals.push(counter),
                        loops: head.loops.push((again, "sigma.exit."@ + id)),
                        ..head
                    };
                    let done = EmitState {
                        loops: st2.loops,
                        ..leaving(stmts(env, inside, body.stmts@), st2.locals, again)
                    };
                    &&& compares(condition, signed, inclusive)
                    &&& stmt(env, st, s) == loop_left(done, id, ty, signed)
                }
        }),
{
    stmt_unfold(env, st, s);
    let st2 = expr(env, expr(env, st, *lo).0, *hi).0;
    let id = dec(st2.labels);
    let ty = expr_ir(env, st.locals, *lo);
    let signed = expr_signed(env, *lo);
    let condition = loop_compare(signed, inclusive);
    assert forall|n: nat, i: int, bound: int| #[trigger]
        ir_compare(condition, n, i, bound) == Some(
            if inclusive {
                number(signed, n, i) <= number(signed, n, bound)
            } else {
                number(signed, n, i) < number(signed, n, bound)
            },
        ) by {
        loops_run_up_to_the_bound(signed, inclusive, n, i, bound);
    }
    head_enters(st2, ty, signed, inclusive, l, h);
    let head = loop_entered(st2, ty, condition, l, h);
    let counter = LocalView {
        name: var@,
        value: "%sigma.i."@ + id,
        ir_type: ty,
        storage: LocalStorage::Ssa,
    };
    let inside = EmitState {
        locals: head.locals.push(counter),
        loops: head.loops.push(("sigma.continue."@ + id, "sigma.exit."@ + id)),
        ..head
    };
    let ran = stmts(env, inside, body.stmts@);
    assert(grows(head.locals, inside.locals)) by {
        assert(inside.locals.take(head.locals.len() as int) =~= head.locals);
    }
    locals_go(env, inside, body.stmts@, head.locals);
    rows_only_run(env, inside, body.stmts@);
    assert(ran.loops == inside.loops) by {
        reveal(runs);
    }
    assert(inside.loops.drop_last() =~= head.loops);
    let closed = ran.unbind(head.locals.len()).close_loop();
    foot_leaves(closed, id, ty, signed);
}

/// `break` goes behind the innermost loop and `continue` to where its counter is
/// counted up. Either ends the block.
pub proof fn jumps_leave_or_repeat_the_innermost_loop(env: Env, st: EmitState, s: Stmt)
    requires
        s.kind is Break || s.kind is Continue,
        st.loops.len() > 0,
    ensures
        stmt(env, st, s) == (EmitState {
            out: behind(
                st.out,
                Instr::Jump {
                    to: if s.kind is Break {
                        st.loops.last().1
                    } else {
                        st.loops.last().0
                    },
                },
            ),
            terminated: true,
            ..st
        }),
{
    stmt_unfold(env, st, s);
}

// ─── Returns ───────────────────────────────────────────────────────────────

/// The text before a return: first the state tag is written to the automaton's
/// write global, then the fence follows, and last interrupts are unmasked.
pub open spec fn duties_done(env: Env, st: EmitState) -> Seq<char> {
    let tagged = match st.tag_write {
        Some((automaton, tag)) => {
            let ptr = "%tmp."@ + dec(st.values);
            behind(
                behind(
                    st.out,
                    Instr::FieldPointer {
                        dst: ptr,
                        automaton,
                        global: env.write_global(automaton),
                        idx: 0,
                    },
                ),
                Instr::Store { volatile: false, ty: "i32"@, value: dec(tag), ptr },
            )
        },
        None => st.out,
    };
    let fenced = match st.exit_fence {
        Some(ordering) => behind(tagged, Instr::Fence { ordering }),
        None => tagged,
    };
    if st.unmask {
        fenced
            + "  call void asm sideeffect \"cpsie i\", \"\"() ; #atomic: interrupt_critical exit (unmask)\n"@
    } else {
        fenced
    }
}

/// A `return` does what is due before it, then returns the value of its
/// expression with its type, or nothing. It ends the block.
pub proof fn returns_do_their_duties_first(env: Env, st: EmitState, s: Stmt, value: Option<Expr>)
    requires
        s.kind == StmtKind::Return(value),
        value is Some ==> expr(env, st, value->0).1 is Ok,
    ensures
        stmt(env, st, s).terminated,
        stmt(env, st, s).out == match value {
            None => behind(duties_done(env, st), Instr::ReturnNothing),
            Some(e) => behind(
                duties_done(env, expr(env, st, e).0),
                Instr::Return {
                    value: (expr_ir(env, st.locals, e), expr(env, st, e).1->Ok_0),
                },
            ),
        },
{
    stmt_unfold(env, st, s);
}

// ─── Locals ────────────────────────────────────────────────────────────────

/// `let` puts the value of its expression under a new innermost name: `let mut`
/// into a stack slot, any other as a value. The type is the written one, else
/// that of the expression.
pub proof fn lets_bind_their_value(
    env: Env,
    st: EmitState,
    name: Seq<char>,
    ty: Seq<char>,
    v: Seq<char>,
)
    ensures
        ({
            let after = let_slot(st, name, ty, v);
            let ptr = "%tmp."@ + dec(st.values);
            &&& after.locals == st.locals.push(
                LocalView { name, value: ptr, ir_type: ty, storage: LocalStorage::Stack },
            )
            &&& after.out == behind(
                behind(st.out, Instr::Slot { dst: ptr, ty }),
                Instr::Store { volatile: false, ty, value: v, ptr },
            )
        }),
        ({
            let after = let_value(st, name, ty, v);
            let own = "%tmp."@ + dec(st.values);
            let bound = |value: Seq<char>|
                after.locals == st.locals.push(
                    LocalView { name, value, ir_type: ty, storage: LocalStorage::Ssa },
                );
            if integer_ir(ty) {
                bound(own) && exists|op_text: Seq<char>| #[trigger]
                    op_keeps(op_text) && after.out == behind(
                        st.out,
                        Instr::Op { dst: own, op: op_text, ty, l: "0"@, r: v },
                    )
            } else if float_ir(ty) {
                bound(own) && after.out == behind(
                    st.out,
                    Instr::Op { dst: own, op: "fadd"@, ty, l: "0.0"@, r: v },
                )
            } else {
                bound(v) && after.out == st.out
            }
        }),
{
    assert forall|n: nat, a: int| is_pattern(n, a) implies #[trigger] ir_result("add"@, n, 0, a)
        == Some(a) by {
        vstd::arithmetic::power2::lemma_pow2_pos(n);
        operators_are_computed(BinaryOp::Add, false, n, 0, a);
        vstd::arithmetic::div_mod::lemma_small_mod(
            a as nat,
            vstd::arithmetic::power2::pow2(n),
        );
    }
    assert(op_keeps("add"@));
}

/// With 0 on its left, the instruction gives its right operand.
pub open spec fn op_keeps(op_text: Seq<char>) -> bool {
    forall|n: nat, a: int|
        is_pattern(n, a) ==> #[trigger] ir_result(op_text, n, 0, a) == Some(a)
}

/// `let` lowers its expression first and binds its value under its own name.
pub proof fn lets_lower_their_expression(env: Env, st: EmitState, s: Stmt)
    ensures
        match s.kind {
            StmtKind::LetShort { name, value } => expr(env, st, value).1 matches Ok(v) ==> stmt(
                env,
                st,
                s,
            ) == let_value(expr(env, st, value).0, name@, expr_ir(env, st.locals, value), v),
            StmtKind::Let { mutable, name, ty: None, value } => expr(env, st, value).1 matches Ok(
                v,
            ) ==> stmt(env, st, s) == if mutable {
                let_slot(expr(env, st, value).0, name@, expr_ir(env, st.locals, value), v)
            } else {
                let_value(expr(env, st, value).0, name@, expr_ir(env, st.locals, value), v)
            },
            StmtKind::Let { mutable, name, ty: Some(t), value } => {
                let v = expr(env, st, value).1->Ok_0;
                let ty = written_ir(t)->Ok_0;
                written_ir(t) is Ok && expr(env, st, value).1 is Ok ==> stmt(env, st, s)
                    == if mutable {
                    let_slot(expr(env, st, value).0, name@, ty, v)
                } else {
                    let_value(expr(env, st, value).0, name@, ty, v)
                }
            },
            _ => true,
        },
{
    stmt_unfold(env, st, s);
}

/// An assignment to a local stores the value of its expression in the slot of
/// the innermost local of that name.
pub proof fn assignments_store_in_the_slot(env: Env, st: EmitState, s: Stmt, name: String, value: Expr)
    requires
        s.kind == (StmtKind::Assign { name, value }),
        find_local(st.locals, name@) is Some,
        find_local(st.locals, name@)->0.storage == LocalStorage::Stack,
        expr(env, st, value).1 is Ok,
    ensures
        ({
            let b = find_local(st.locals, name@)->0;
            let st1 = expr(env, st, value).0;
            stmt(env, st, s) == (EmitState {
                out: behind(
                    st1.out,
                    Instr::Store {
                        volatile: false,
                        ty: b.ir_type,
                        value: expr(env, st, value).1->Ok_0,
                        ptr: b.value,
                    },
                ),
                ..st1
            })
        }),
{
    stmt_unfold(env, st, s);
}

// ─── Rows ──────────────────────────────────────────────────────────────────

/// The `k`th statement leads from the `k`th state to the next, unless the block
/// has already ended.
pub open spec fn runs_next(env: Env, ss: Seq<Stmt>, states: Seq<EmitState>, k: int) -> bool {
    states[k + 1] == if states[k].terminated {
        states[k]
    } else {
        stmt(env, states[k], ss[k])
    }
}

/// Statements in a row run one after another, each where the one before it
/// ended, up to the end of the block.
pub proof fn statements_run_in_order(env: Env, st: EmitState, ss: Seq<Stmt>) -> (states: Seq<
    EmitState,
>)
    ensures
        states.len() == ss.len() + 1,
        states[0] == st,
        states.last() == stmts(env, st, ss),
        forall|k: int| 0 <= k < ss.len() ==> #[trigger] runs_next(env, ss, states, k),
    decreases ss.len(),
{
    if ss.len() == 0 {
        seq![st]
    } else {
        let before = statements_run_in_order(env, st, ss.drop_last());
        let states = before.push(stmts(env, st, ss));
        assert forall|k: int| 0 <= k < ss.len() implies #[trigger] runs_next(
            env,
            ss,
            states,
            k,
        ) by {
            if k < ss.len() - 1 {
                assert(runs_next(env, ss.drop_last(), before, k));
            }
        }
        states
    }
}

/// The text with the instructions behind it that copy `size` bytes from the
/// shadow of an automaton over its live state, where `size` is how far the second
/// state in a row would lie from the first.
pub open spec fn copied(
    out: Seq<char>,
    automaton: Seq<char>,
    end: Seq<char>,
    size: Seq<char>,
    live: Seq<char>,
    shadow: Seq<char>,
) -> Seq<char> {
    out + "  "@ + end + " = getelementptr %struct."@ + automaton + ", %struct."@ + automaton
        + "* null, i32 1\n"@ + "  "@ + size + " = ptrtoint %struct."@ + automaton + "* "@ + end
        + " to i64\n"@ + "  "@ + live + " = bitcast %struct."@ + automaton + "* @"@ + automaton
        + ".state to i8*\n"@ + "  "@ + shadow + " = bitcast %struct."@ + automaton + "* @"@
        + automaton + ".shadow to i8*\n"@ + "  call void @llvm.memcpy.p0.p0.i64(i8* "@ + live
        + ", i8* "@ + shadow + ", i64 "@ + size + ", i1 false) ; #flush "@ + automaton
        + " (Decision #12)\n"@
}

/// A flush copies the shadow of a staged automaton over its live state. There is
/// none for automatons without a shadow.
pub proof fn flushes_copy_the_shadow(env: Env, st: EmitState, automaton: Seq<char>)
    ensures
        flush(env, st, automaton).1 is Ok <==> match env.automaton(automaton) {
            Some(a) => a.is_staged && !a.is_register_block,
            None => false,
        },
        flush(env, st, automaton).1 is Ok ==> {
            let after = flush(env, st, automaton).0;
            &&& after.values == st.values + 4
            &&& after.out == copied(
                st.out,
                automaton,
                "%tmp."@ + dec(st.values),
                "%tmp."@ + dec(st.values + 1),
                "%tmp."@ + dec(st.values + 2),
                "%tmp."@ + dec(st.values + 3),
            )
        },
{
}

// ─── Forms of expressions ──────────────────────────────────────────────────

/// The value that an expression becomes, and the state behind its instructions.
pub open spec fn lowered_to(env: Env, st: EmitState, e: Expr, after: EmitState, v: Seq<char>) -> bool {
    expr(env, st, e) == (after, Ok::<Seq<char>, CodegenErrorView>(v))
}

/// Parentheses change nothing.
pub proof fn parentheses_change_nothing(env: Env, st: EmitState, e: Expr, inner: Box<Expr>)
    requires
        e.kind == ExprKind::Paren(inner),
    ensures
        expr(env, st, e) == expr(env, st, *inner),
{
    expr_unfold(env, st, e);
}

/// A truth value is the bit 1 or 0.
pub proof fn truth_values_are_bits(env: Env, st: EmitState, e: Expr, b: bool)
    requires
        e.kind == ExprKind::BoolLit(b),
    ensures
        lowered_to(
            env,
            st,
            e,
            st,
            dec(
                if b {
                    1
                } else {
                    0
                },
            ),
        ),
{
    expr_unfold(env, st, e);
    reveal_strlit("0");
    reveal_strlit("1");
    assert(dec(0) =~= "0"@);
    assert(dec(1) =~= "1"@);
}

/// A unary operator or a cast is applied to the value of its operand, once that
/// is lowered. A cast goes from the type of its operand to the written type.
pub proof fn operands_are_lowered_first(env: Env, st: EmitState, e: Expr, st1: EmitState, v: Seq<char>)
    ensures
        match e.kind {
            ExprKind::Unary { op, operand } => lowered_to(env, st, *operand, st1, v) ==> expr(
                env,
                st,
                e,
            ) == unary(env, st1, op, *operand, v),
            ExprKind::Cast { value, ty } => lowered_to(env, st, *value, st1, v) && written_ir(
                ty,
            ) is Ok ==> expr(env, st, e) == cast(
                st1,
                expr_ir(env, st.locals, *value),
                written_ir(ty)->Ok_0,
                expr_signed(env, *value),
                v,
            ),
            ExprKind::UncheckedLoad { ty, ptr } => lowered_to(env, st, *ptr, st1, v) && written_ir(
                ty,
            ) is Ok ==> {
                let r = unchecked_load(st1, written_ir(ty)->Ok_0, v, false);
                lowered_to(env, st, e, r.0, r.1)
            },
            ExprKind::VolatileLoad { ty, ptr } => lowered_to(env, st, *ptr, st1, v) && written_ir(
                ty,
            ) is Ok ==> {
                let r = unchecked_load(st1, written_ir(ty)->Ok_0, v, true);
                lowered_to(env, st, e, r.0, r.1)
            },
            ExprKind::UncheckedCast { from_ty, to_ty, value, .. } => lowered_to(
                env,
                st,
                *value,
                st1,
                v,
            ) && written_ir(from_ty) is Ok && written_ir(to_ty) is Ok ==> {
                let r = unchecked_cast(
                    st1,
                    written_ir(from_ty)->Ok_0,
                    written_ir(to_ty)->Ok_0,
                    written_signed(from_ty),
                    v,
                );
                lowered_to(env, st, e, r.0, r.1)
            },
            ExprKind::UncheckedOffset { ty, ptr, n } => lowered_to(env, st, *ptr, st1, v)
                && written_ir(ty) is Ok && expr(env, st1, *n).1 is Ok ==> {
                let (st2, k) = (expr(env, st1, *n).0, expr(env, st1, *n).1->Ok_0);
                let r = unchecked_offset(
                    st2,
                    written_ir(ty)->Ok_0,
                    v,
                    (expr_ir(env, st1.locals, *n), k),
                );
                lowered_to(env, st, e, r.0, r.1)
            },
            _ => true,
        },
{
    expr_unfold(env, st, e);
}

/// A local, a field, a snapshot and a state are read by name. `Self` in a
/// transition is its automaton. An array element is read at the value of its
/// index.
pub proof fn names_are_read(env: Env, st: EmitState, e: Expr, automaton: Seq<char>)
    ensures
        match e.kind {
            ExprKind::Path(segs) => segs@.len() == 1 ==> expr(env, st, e) == local_read(
                st,
                segs@[0]@,
            ),
            ExprKind::FieldAccess { obj, field } => refers_to_automaton(st, *obj, automaton)
                ==> expr(env, st, e) == field_access(env, st, automaton, field@),
            ExprKind::StateRead(name) => expr(env, st, e) == state_read(env, st, name@),
            ExprKind::Snapshot { automaton: a, field } => expr(env, st, e) == snapshot(
                env,
                st,
                a@,
                field@,
            ),
            ExprKind::Index { obj, index } => obj.kind is FieldAccess && refers_to_automaton(
                st,
                *obj.kind->FieldAccess_obj,
                automaton,
            ) && env.locate(automaton, obj.kind->FieldAccess_field@) is Ok
                && crate::codegen::irtype::element_ir(
                env.locate(automaton, obj.kind->FieldAccess_field@)->Ok_0.1,
            ) is Some && expr(env, st, *index).1 is Ok ==> {
                let (loc, ty) = env.locate(automaton, obj.kind->FieldAccess_field@)->Ok_0;
                let (st1, i) = (expr(env, st, *index).0, expr(env, st, *index).1->Ok_0);
                let r = index_load(
                    st1,
                    automaton,
                    loc,
                    ty,
                    crate::codegen::irtype::element_ir(ty)->0,
                    (expr_ir(env, st1.locals, *index), i),
                );
                lowered_to(env, st, e, r.0, r.1)
            },
            _ => true,
        },
{
    expr_unfold(env, st, e);
}

/// The expression is the name of the automaton, or `Self` in one of its
/// transitions.
pub open spec fn refers_to_automaton(st: EmitState, e: Expr, automaton: Seq<char>) -> bool {
    match e.kind {
        ExprKind::Path(segs) => segs@.len() == 1 && (if segs@[0]@ == "Self"@ {
            st.owner == Some(automaton)
        } else {
            segs@[0]@ == automaton
        }),
        _ => false,
    }
}

/// The state of a multi-state automaton is the first place of its live state. It
/// can be read of no other automaton.
pub proof fn states_are_read_from_the_first_place(env: Env, st: EmitState, automaton: Seq<char>)
    ensures
        state_read(env, st, automaton).1 is Ok <==> match env.automaton(automaton) {
            Some(a) => !a.is_register_block && a.states.len() > 0,
            None => false,
        },
        state_read(env, st, automaton).1 is Ok ==> {
            let ptr = "%tmp."@ + dec(st.values);
            let value = "%tmp."@ + dec(st.values + 1);
            let (after, v) = state_read(env, st, automaton);
            &&& v == Ok::<Seq<char>, CodegenErrorView>(value)
            &&& after.values == st.values + 2
            &&& after.out == behind(
                behind(
                    st.out,
                    Instr::FieldPointer {
                        dst: ptr,
                        automaton,
                        global: "@"@ + automaton + ".state"@,
                        idx: 0,
                    },
                ),
                Instr::Load { dst: value, volatile: false, ty: "i32"@, ptr },
            )
        },
{
}

/// A snapshot reads the field itself where it is one machine word, and is
/// refused where it is not.
pub proof fn snapshots_read_single_words(
    env: Env,
    st: EmitState,
    written: Seq<char>,
    automaton: Seq<char>,
    field: Seq<char>,
)
    requires
        if written == "Self"@ {
            st.owner == Some(automaton)
        } else {
            written == automaton
        },
    ensures
        snapshot(env, st, written, field).1 is Ok <==> match env.locate(automaton, field) {
            Ok((_, ty)) => ty == "i1"@ || ty == "i8"@ || ty == "i16"@ || ty == "i32"@ || ty
                == "i64"@,
            Err(_) => false,
        },
        snapshot(env, st, written, field).1 is Ok ==> snapshot(env, st, written, field)
            == field_access(env, st, automaton, field),
{
}

/// Tuples and arrays hold the values of their elements in order, and `[v; n]`
/// holds the value of `v` at each of `n` places.
pub proof fn aggregates_hold_their_elements(env: Env, st: EmitState, e: Expr)
    ensures
        match e.kind {
            ExprKind::Tuple(elems) => exprs(env, st, elems@).1 matches Ok(vs) ==> {
                let r = insert_chain(exprs(env, st, elems@).0, expr_ir(env, st.locals, e), vs);
                lowered_to(env, st, e, r.0, r.1)
            },
            ExprKind::Array(elems) => elems@.len() > 0 && exprs(env, st, elems@).1 is Ok ==> {
                let vs = exprs(env, st, elems@).1->Ok_0;
                let r = insert_chain(exprs(env, st, elems@).0, expr_ir(env, st.locals, e), vs);
                lowered_to(env, st, e, r.0, r.1)
            },
            ExprKind::ArrayRepeat { value, count } => {
                crate::codegen::literal::count_value(*count) is Some && expr(
                    env,
                    st,
                    *value,
                ).1 is Ok ==> exists|vs: Seq<Typed>|
                    #![trigger insert_chain(
                        expr(env, st, *value).0,
                        expr_ir(env, st.locals, e),
                        vs,
                    )]
                    {
                        let n = crate::codegen::literal::count_value(*count)->0;
                        let (st1, v) = (expr(env, st, *value).0, expr(env, st, *value).1->Ok_0);
                        let r = insert_chain(
                            expr(env, st, *value).0,
                            expr_ir(env, st.locals, e),
                            vs,
                        );
                        &&& vs.len() == n
                        &&& forall|i: int|
                            0 <= i < n ==> #[trigger] vs[i] == (
                                expr_ir(env, st1.locals, *value),
                                v,
                            )
                        &&& lowered_to(env, st, e, r.0, r.1)
                    }
            },
            _ => true,
        },
{
    expr_unfold(env, st, e);
    if let ExprKind::ArrayRepeat { value, count } = e.kind {
        if let Some(n) = crate::codegen::literal::count_value(*count) {
            if let (st1, Ok(v)) = expr(env, st, *value) {
                let elem = (expr_ir(env, st1.locals, *value), v);
                let vs = Seq::new(n, |i: int| elem);
                let r = insert_chain(st1, expr_ir(env, st.locals, e), vs);
                assert(lowered_to(env, st, e, r.0, r.1));
            }
        }
    }
}

/// A `#> ` call, a mutation, a flush and a raw store are lowered as such. What
/// cannot be lowered is recorded and adds no error but its own.
pub proof fn statements_are_lowered_as_written(env: Env, st: EmitState, s: Stmt)
    ensures
        match s.kind {
            StmtKind::Expr(e) => expr(env, st, e).1 is Ok ==> stmt(env, st, s) == expr(
                env,
                st,
                e,
            ).0,
            StmtKind::Mutate { automaton, assigns } => stmt(env, st, s) == recorded(
                crate::codegen::lowering::mutate(env, st, automaton@, assigns@),
            ),
            StmtKind::MutateShort { automaton, field, op, value } => stmt(env, st, s) == recorded(
                crate::codegen::lowering::mutate_short(env, st, automaton@, field@, op, value),
            ),
            StmtKind::ProcCall { name, args } => stmt(env, st, s) == recorded(
                crate::codegen::lowering::proc_call(env, st, s, name@, args@),
            ),
            StmtKind::Flush { automaton } => stmt(env, st, s) == recorded(
                flush(env, st, automaton@),
            ),
            StmtKind::UncheckedStore { ty, ptr, value } => stores(env, st, s, ty, ptr, value, false),
            StmtKind::VolatileStore { ty, ptr, value } => stores(env, st, s, ty, ptr, value, true),
            _ => true,
        },
{
    stmt_unfold(env, st, s);
}

/// The state, with the error recorded where there is one.
pub open spec fn recorded(r: (EmitState, Result<(), CodegenErrorView>)) -> EmitState {
    match r.1 {
        Ok(_) => r.0,
        Err(x) => EmitState { errors: r.0.errors.push(x), ..r.0 },
    }
}

/// The statement lowers the pointer, then the value, and stores the value there.
pub open spec fn stores(
    env: Env,
    st: EmitState,
    s: Stmt,
    ty: crate::ast::TypeExpr,
    ptr: Expr,
    value: Expr,
    volatile: bool,
) -> bool {
    let (st1, p) = expr(env, st, ptr);
    let (st2, v) = expr(env, st1, value);
    written_ir(ty) is Ok && p is Ok && v is Ok ==> stmt(env, st, s) == unchecked_store(
        st2,
        written_ir(ty)->Ok_0,
        p->Ok_0,
        v->Ok_0,
        volatile,
    )
}

} // verus!
