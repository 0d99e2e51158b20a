//! What code is made of: the parts of an expression and the statements of a
//! body, however deep they stand.
use vstd::prelude::*;

use crate::ast::{Expr, ExprKind, FieldAssign, Stmt, StmtKind};

verus! {

// ─── Expressions ───────────────────────────────────────────────────────────

/// The expressions that an expression is put together from, as written.
pub open spec fn operands(e: Expr) -> Seq<Expr> {
    match e.kind {
        ExprKind::IntLit(_)
        | ExprKind::HexLit(_)
        | ExprKind::BinLit(_)
        | ExprKind::FloatLit(_)
        | ExprKind::CharLit(_)
        | ExprKind::ByteLit(_)
        | ExprKind::StringLit(_)
        | ExprKind::BoolLit(_)
        | ExprKind::Null
        | ExprKind::Path(_)
        | ExprKind::StateRead(_)
        | ExprKind::Snapshot { .. }
        | ExprKind::Shadow { .. } => Seq::empty(),
        ExprKind::Paren(inner) => seq![*inner],
        ExprKind::Tuple(elems) => elems@,
        ExprKind::Array(elems) => elems@,
        ExprKind::ArrayRepeat { value, count } => seq![*value, *count],
        ExprKind::FieldAccess { obj, .. } => seq![*obj],
        ExprKind::Index { obj, index } => seq![*obj, *index],
        ExprKind::Call { callee, args } => seq![*callee] + args@,
        ExprKind::MethodCall { obj, args, .. } => seq![*obj] + args@,
        ExprKind::Unary { operand, .. } => seq![*operand],
        ExprKind::Ref { operand, .. } => seq![*operand],
        ExprKind::Binary { lhs, rhs, .. } => seq![*lhs, *rhs],
        ExprKind::Cast { value, .. } => seq![*value],
        ExprKind::Range { lo, hi, .. } => seq![*lo, *hi],
        ExprKind::UncheckedLoad { ptr, .. } => seq![*ptr],
        ExprKind::VolatileLoad { ptr, .. } => seq![*ptr],
        ExprKind::UncheckedCast { value, .. } => seq![*value],
        ExprKind::UncheckedOffset { ptr, n, .. } => seq![*ptr, *n],
    }
}

/// An operand is smaller than what it is an operand of.
pub proof fn operands_are_smaller(e: Expr, i: int)
    requires
        0 <= i < operands(e).len(),
    ensures
        decreases_to!(e => operands(e)[i]),
{
    match e.kind {
        ExprKind::Tuple(elems) => {
            assert(decreases_to!(e => elems@[i]));
        },
        ExprKind::Array(elems) => {
            assert(decreases_to!(e => elems@[i]));
        },
        ExprKind::Call { callee, args } => {
            if i > 0 {
                assert(operands(e)[i] == args@[i - 1]);
                assert(decreases_to!(e => args@[i - 1]));
            } else {
                assert(operands(e)[i] == *callee);
            }
        },
        ExprKind::MethodCall { obj, args, .. } => {
            if i > 0 {
                assert(operands(e)[i] == args@[i - 1]);
                assert(decreases_to!(e => args@[i - 1]));
            } else {
                assert(operands(e)[i] == *obj);
            }
        },
        _ => {},
    }
}

/// The expression and everything that it is put together from, to any depth,
/// in the order in which it is written; what encloses comes before what it
/// encloses.
pub open spec fn parts(e: Expr) -> Seq<Expr>
    decreases e, operands(e).len() + 1,
{
    seq![e] + operand_parts(e, operands(e).len())
}

/// The parts of the first `n` operands.
pub open spec fn operand_parts(e: Expr, n: nat) -> Seq<Expr>
    decreases e, n,
    when n <= operands(e).len()
{
    if n == 0 {
        Seq::empty()
    } else {
        proof {
            operands_are_smaller(e, n - 1);
        }
        operand_parts(e, (n - 1) as nat) + parts(operands(e)[n - 1])
    }
}

/// The parts of expressions in a row.
pub open spec fn parts_of(es: Seq<Expr>) -> Seq<Expr>
    decreases es.len(),
{
    if es.len() == 0 {
        Seq::empty()
    } else {
        parts_of(es.drop_last()) + parts(es.last())
    }
}

proof fn operand_parts_in_a_row(e: Expr, n: nat)
    requires
        n <= operands(e).len(),
    ensures
        operand_parts(e, n) == parts_of(operands(e).take(n as int)),
    decreases n,
{
    if n > 0 {
        operand_parts_in_a_row(e, (n - 1) as nat);
        let row = operands(e).take(n as int);
        assert(row.drop_last() =~= operands(e).take(n - 1));
        assert(row.last() == operands(e)[n - 1]);
    }
}

/// The parts of an expression are itself and the parts of its operands.
pub proof fn parts_unfold(e: Expr)
    ensures
        parts(e) == seq![e] + parts_of(operands(e)),
{
    operand_parts_in_a_row(e, operands(e).len());
    assert(operands(e).take(operands(e).len() as int) =~= operands(e));
}

/// The parts of two rows are those of the one and then those of the other.
pub proof fn parts_of_both(a: Seq<Expr>, b: Seq<Expr>)
    ensures
        parts_of(a + b) =~= parts_of(a) + parts_of(b),
    decreases b.len(),
{
    if b.len() == 0 {
        assert(a + b =~= a);
    } else {
        parts_of_both(a, b.drop_last());
        assert((a + b).drop_last() =~= a + b.drop_last());
        assert((a + b).last() == b.last());
    }
}

pub proof fn parts_of_one(e: Expr)
    ensures
        parts_of(seq![e]) =~= parts(e),
{
    assert(seq![e].drop_last() =~= Seq::<Expr>::empty());
    assert(parts_of(seq![e].drop_last()) =~= Seq::empty());
}

// ─── Statements ────────────────────────────────────────────────────────────

/// The expressions in the assignments of a `#mutate`, as written.
pub open spec fn assigned(assigns: Seq<FieldAssign>) -> Seq<Expr>
    decreases assigns.len(),
{
    if assigns.len() == 0 {
        Seq::empty()
    } else {
        let last = assigns.last();
        assigned(assigns.drop_last()) + (match last.index {
            Some(index) => seq![index, last.value],
            None => seq![last.value],
        })
    }
}

/// The expressions that stand in a statement itself, outside its blocks, as
/// written.
pub open spec fn own_expressions(s: Stmt) -> Seq<Expr> {
    match s.kind {
        StmtKind::Let { value, .. } => seq![value],
        StmtKind::LetShort { value, .. } => seq![value],
        StmtKind::Expr(e) => seq![e],
        StmtKind::Return(Some(e)) => seq![e],
        StmtKind::Return(None) => Seq::empty(),
        StmtKind::Mutate { assigns, .. } => assigned(assigns@),
        StmtKind::MutateShort { value, .. } => seq![value],
        StmtKind::ProcCall { args, .. } => args@,
        StmtKind::UncheckedStore { ptr, value, .. } => seq![ptr, value],
        StmtKind::VolatileStore { ptr, value, .. } => seq![ptr, value],
        StmtKind::Sigma { source, .. } => seq![source],
        StmtKind::If { cond, .. } => seq![cond],
        StmtKind::Break => Seq::empty(),
        StmtKind::Continue => Seq::empty(),
        StmtKind::Flush { .. } => Seq::empty(),
        StmtKind::Assign { value, .. } => seq![value],
    }
}

/// The statement and every statement in its blocks, to any depth, in the order
/// in which they are written.
pub open spec fn statements(s: Stmt) -> Seq<Stmt>
    decreases s, 0nat,
{
    seq![s] + (match s.kind {
        StmtKind::Sigma { body, .. } => statements_of(body.stmts@),
        StmtKind::If { then_block, else_block: Some(b), .. } => statements_of(then_block.stmts@)
            + statements_of(b.stmts@),
        StmtKind::If { then_block, else_block: None, .. } => statements_of(then_block.stmts@),
        _ => Seq::empty(),
    })
}

/// Every statement of a body, to any depth, in the order in which they are
/// written.
pub open spec fn statements_of(ss: Seq<Stmt>) -> Seq<Stmt>
    decreases ss, 1nat,
{
    if ss.len() == 0 {
        Seq::empty()
    } else {
        statements_of(ss.drop_last()) + statements(ss.last())
    }
}

/// The parts of all expressions in statements in a row, outside their blocks.
pub open spec fn own_parts(all: Seq<Stmt>) -> Seq<Expr>
    decreases all.len(),
{
    if all.len() == 0 {
        Seq::empty()
    } else {
        own_parts(all.drop_last()) + parts_of(own_expressions(all.last()))
    }
}

/// Every expression of a body, to any depth of blocks and operands, in the
/// order in which they are written.
pub open spec fn expressions_of(ss: Seq<Stmt>) -> Seq<Expr> {
    own_parts(statements_of(ss))
}

/// The parts of two rows are those of the one and then those of the other.
pub proof fn own_parts_of_both(a: Seq<Stmt>, b: Seq<Stmt>)
    ensures
        own_parts(a + b) =~= own_parts(a) + own_parts(b),
    decreases b.len(),
{
    if b.len() == 0 {
        assert(a + b =~= a);
    } else {
        own_parts_of_both(a, b.drop_last());
        assert((a + b).drop_last() =~= a + b.drop_last());
        assert((a + b).last() == b.last());
    }
}

pub proof fn own_parts_of_one(s: Stmt)
    ensures
        own_parts(seq![s]) =~= parts_of(own_expressions(s)),
{
    assert(seq![s].drop_last() =~= Seq::<Stmt>::empty());
    assert(own_parts(seq![s].drop_last()) =~= Seq::empty());
}

/// The expressions of a statement are its own and those of its blocks.
pub proof fn expressions_of_a_statement(s: Stmt)
    ensures
        own_parts(statements(s)) =~= parts_of(own_expressions(s)) + (match s.kind {
            StmtKind::Sigma { body, .. } => expressions_of(body.stmts@),
            StmtKind::If { then_block, else_block, .. } => expressions_of(then_block.stmts@) + (
            match else_block {
                Some(b) => expressions_of(b.stmts@),
                None => Seq::empty(),
            }),
            _ => Seq::empty(),
        }),
{
    own_parts_of_one(s);
    match s.kind {
        StmtKind::Sigma { body, .. } => own_parts_of_both(seq![s], statements_of(body.stmts@)),
        StmtKind::If { then_block, else_block: Some(b), .. } => {
            own_parts_of_both(
                seq![s],
                statements_of(then_block.stmts@) + statements_of(b.stmts@),
            );
            own_parts_of_both(statements_of(then_block.stmts@), statements_of(b.stmts@));
        },
        StmtKind::If { then_block, else_block: None, .. } => own_parts_of_both(
            seq![s],
            statements_of(then_block.stmts@),
        ),
        _ => {
            assert(statements(s) =~= seq![s]);
        },
    }
}

/// The expressions of statements in a row are those of each.
pub proof fn expressions_of_a_row(ss: Seq<Stmt>)
    requires
        ss.len() > 0,
    ensures
        expressions_of(ss) =~= expressions_of(ss.drop_last()) + own_parts(statements(ss.last())),
{
    own_parts_of_both(statements_of(ss.drop_last()), statements(ss.last()));
}

} // verus!
