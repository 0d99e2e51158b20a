//! What IR instructions compute, and that they compute what the operators of
//! the language mean.
//!
//! A value of `n` bits is a number below `2^n`, its pattern. What number of the
//! language a pattern stands for depends on the signedness of the type.
use vstd::arithmetic::div_mod::lemma_mod_multiples_vanish;
use vstd::arithmetic::power2::{
    lemma_pow2_adds, lemma_pow2_pos, lemma_pow2_strictly_increases, lemma_pow2_unfold, pow2,
};
use vstd::prelude::*;

use crate::ast::{AssignOp, BinaryOp, PrimitiveType};
use crate::codegen::irtype::{int_width, primitive_ir, primitive_signed};
use crate::codegen::lowering::{assign_opcode, binary_opcode, loop_compare, resize_opcode};
use crate::text::dec;

verus! {

// ─── Patterns ──────────────────────────────────────────────────────────────

/// The number is a pattern of `n` bits.
pub open spec fn is_pattern(n: nat, a: int) -> bool {
    0 <= a < pow2(n)
}

/// The pattern of a number: what is left of it in `n` bits.
pub open spec fn pattern(n: nat, x: int) -> int {
    x % (pow2(n) as int)
}

/// The number that a pattern stands for where its highest bit is a sign.
pub open spec fn signed_number(n: nat, a: int) -> int {
    if 2 * a >= pow2(n) {
        a - pow2(n)
    } else {
        a
    }
}

/// The number that a pattern stands for in a type of the given signedness.
pub open spec fn number(signed: bool, n: nat, a: int) -> int {
    if signed {
        signed_number(n, a)
    } else {
        a
    }
}

/// The `i`th bit, the lowest first.
pub open spec fn bit(a: int, i: nat) -> bool
    decreases i,
{
    if i == 0 {
        a % 2 == 1
    } else {
        bit(a / 2, (i - 1) as nat)
    }
}

/// The pattern of a truth value.
pub open spec fn flag(b: bool) -> int {
    if b {
        1
    } else {
        0
    }
}

/// The quotient, rounded towards zero.
pub open spec fn quotient(x: int, y: int) -> int
    recommends
        y != 0,
{
    if x >= 0 && y > 0 {
        x / y
    } else if x >= 0 {
        -(x / (-y))
    } else if y > 0 {
        -((-x) / y)
    } else {
        (-x) / (-y)
    }
}

// ─── Instructions ──────────────────────────────────────────────────────────

/// Each bit of the result comes from the bits of the operands at its place.
pub open spec fn bit_by_bit(f: spec_fn(bool, bool) -> bool, n: nat, a: int, b: int) -> int
    decreases n,
{
    if n == 0 {
        0
    } else {
        2 * bit_by_bit(f, (n - 1) as nat, a / 2, b / 2) + flag(f(a % 2 == 1, b % 2 == 1))
    }
}

/// What `icmp <condition>` finds out about two patterns of `n` bits.
pub open spec fn ir_compare(condition: Seq<char>, n: nat, a: int, b: int) -> Option<bool> {
    let x = signed_number(n, a);
    let y = signed_number(n, b);
    if condition == "eq"@ {
        Some(a == b)
    } else if condition == "ne"@ {
        Some(a != b)
    } else if condition == "ult"@ {
        Some(a < b)
    } else if condition == "ule"@ {
        Some(a <= b)
    } else if condition == "ugt"@ {
        Some(a > b)
    } else if condition == "uge"@ {
        Some(a >= b)
    } else if condition == "slt"@ {
        Some(x < y)
    } else if condition == "sle"@ {
        Some(x <= y)
    } else if condition == "sgt"@ {
        Some(x > y)
    } else if condition == "sge"@ {
        Some(x >= y)
    } else {
        None
    }
}

/// What the instruction `<op> i<n> a, b` gives, where it gives anything.
/// Division by zero, the one signed quotient that does not fit, and shifts by
/// the whole width or more give nothing.
pub open spec fn ir_result(op: Seq<char>, n: nat, a: int, b: int) -> Option<int> {
    let x = signed_number(n, a);
    let y = signed_number(n, b);
    if op.len() > 5 && op.take(5) == "icmp "@ {
        match ir_compare(op.skip(5), n, a, b) {
            Some(holds) => Some(flag(holds)),
            None => None,
        }
    } else if op == "add"@ {
        Some(pattern(n, a + b))
    } else if op == "sub"@ {
        Some(pattern(n, a - b))
    } else if op == "mul"@ {
        Some(pattern(n, a * b))
    } else if op == "udiv"@ {
        if b == 0 {
            None
        } else {
            Some(a / b)
        }
    } else if op == "sdiv"@ {
        if y == 0 || (2 * a == pow2(n) && y == -1) {
            None
        } else {
            Some(pattern(n, quotient(x, y)))
        }
    } else if op == "urem"@ {
        if b == 0 {
            None
        } else {
            Some(a % b)
        }
    } else if op == "srem"@ {
        if y == 0 || (2 * a == pow2(n) && y == -1) {
            None
        } else {
            Some(pattern(n, x - y * quotient(x, y)))
        }
    } else if op == "and"@ {
        Some(bit_by_bit(|p: bool, q: bool| p && q, n, a, b))
    } else if op == "or"@ {
        Some(bit_by_bit(|p: bool, q: bool| p || q, n, a, b))
    } else if op == "xor"@ {
        Some(bit_by_bit(|p: bool, q: bool| p != q, n, a, b))
    } else if op == "shl"@ {
        if b < n {
            Some(pattern(n, a * pow2(b as nat)))
        } else {
            None
        }
    } else if op == "lshr"@ {
        if b < n {
            Some(a / (pow2(b as nat) as int))
        } else {
            None
        }
    } else if op == "ashr"@ {
        if b < n {
            Some(pattern(n, x / (pow2(b as nat) as int)))
        } else {
            None
        }
    } else {
        None
    }
}

/// What the conversion `<op> i<from> a to i<to>` gives, where it gives anything.
pub open spec fn ir_convert(op: Seq<char>, from: nat, to: nat, a: int) -> Option<int> {
    if op == "trunc"@ && to < from {
        Some(pattern(to, a))
    } else if op == "zext"@ && to > from {
        Some(a)
    } else if op == "sext"@ && to > from {
        Some(pattern(to, signed_number(from, a)))
    } else {
        None
    }
}

// ─── Operators ─────────────────────────────────────────────────────────────

/// The operator is defined on the operands: divisors are not zero, quotients
/// fit, shifts are by less than the width, and logic is on truth values.
pub open spec fn is_defined(op: BinaryOp, signed: bool, n: nat, a: int, b: int) -> bool {
    match op {
        BinaryOp::Div | BinaryOp::Rem => b != 0 && !(signed && 2 * a == pow2(n) && number(
            signed,
            n,
            b,
        ) == -1),
        BinaryOp::Shl | BinaryOp::Shr => b < n,
        BinaryOp::And | BinaryOp::Or => n == 1,
        _ => true,
    }
}

/// `r` is the pattern of what the operator makes of the numbers that the
/// patterns `a` and `b` stand for in a type of the given signedness and width.
pub open spec fn operator_gives(op: BinaryOp, signed: bool, n: nat, a: int, b: int, r: int) -> bool {
    let x = number(signed, n, a);
    let y = number(signed, n, b);
    match op {
        BinaryOp::Eq => r == flag(x == y),
        BinaryOp::Ne => r == flag(x != y),
        BinaryOp::Lt => r == flag(x < y),
        BinaryOp::Le => r == flag(x <= y),
        BinaryOp::Gt => r == flag(y < x),
        BinaryOp::Ge => r == flag(y <= x),
        BinaryOp::Or => r == flag(x != 0 || y != 0),
        BinaryOp::And => r == flag(x != 0 && y != 0),
        BinaryOp::Add => r == pattern(n, x + y),
        BinaryOp::Sub => r == pattern(n, x - y),
        BinaryOp::Mul => r == pattern(n, x * y),
        BinaryOp::Div => r == pattern(n, quotient(x, y)),
        BinaryOp::Rem => r == pattern(n, x - y * quotient(x, y)),
        BinaryOp::Shl => r == pattern(n, x * pow2(b as nat)),
        BinaryOp::Shr => r == pattern(n, x / (pow2(b as nat) as int)),
        BinaryOp::BitAnd => is_pattern(n, r) && forall|i: nat|
            i < n ==> #[trigger] bit(r, i) == (bit(a, i) && bit(b, i)),
        BinaryOp::BitOr => is_pattern(n, r) && forall|i: nat|
            i < n ==> #[trigger] bit(r, i) == (bit(a, i) || bit(b, i)),
        BinaryOp::BitXor => is_pattern(n, r) && forall|i: nat|
            i < n ==> #[trigger] bit(r, i) == (bit(a, i) != bit(b, i)),
    }
}

// ─── Arithmetic ────────────────────────────────────────────────────────────

/// Two numbers that differ by whole turns have one pattern.
proof fn turns_vanish(n: nat, x: int, k: int)
    ensures
        pattern(n, x + k * pow2(n)) == pattern(n, x),
{
    lemma_pow2_pos(n);
    let m = pow2(n) as int;
    lemma_mod_multiples_vanish(k, x, m);
    assert(m * k + x == x + k * m) by (nonlinear_arith);
}

proof fn patterns_stay(n: nat, a: int)
    requires
        is_pattern(n, a),
    ensures
        pattern(n, a) == a,
{
    vstd::arithmetic::div_mod::lemma_small_mod(a as nat, pow2(n));
}

proof fn signs_turn(n: nat, a: int) -> (k: int)
    ensures
        signed_number(n, a) == a + k * pow2(n),
        k == 0 || k == -1,
{
    let m = pow2(n) as int;
    assert(-1 * m == -m) by (nonlinear_arith);
    assert(0 * m == 0) by (nonlinear_arith);
    if 2 * a >= pow2(n) {
        -1
    } else {
        0
    }
}

/// Sums, differences and products have the same pattern whatever sign the
/// operands are read with.
proof fn signs_do_not_matter(n: nat, a: int, b: int)
    ensures
        pattern(n, signed_number(n, a) + signed_number(n, b)) == pattern(n, a + b),
        pattern(n, signed_number(n, a) - signed_number(n, b)) == pattern(n, a - b),
        pattern(n, signed_number(n, a) * signed_number(n, b)) == pattern(n, a * b),
{
    let m = pow2(n) as int;
    let k = signs_turn(n, a);
    let l = signs_turn(n, b);
    let x = signed_number(n, a);
    let y = signed_number(n, b);
    turns_vanish(n, a + b, k + l);
    assert(x + y == a + b + (k + l) * m) by (nonlinear_arith)
        requires
            x == a + k * m,
            y == b + l * m,
    ;
    turns_vanish(n, a - b, k - l);
    assert(x - y == a - b + (k - l) * m) by (nonlinear_arith)
        requires
            x == a + k * m,
            y == b + l * m,
    ;
    turns_vanish(n, a * b, k * b + l * a + k * l * m);
    assert(x * y == a * b + (k * b + l * a + k * l * m) * m) by (nonlinear_arith)
        requires
            x == a + k * m,
            y == b + l * m,
    ;
}

proof fn shifted_signs_do_not_matter(n: nat, a: int, s: nat)
    ensures
        pattern(n, signed_number(n, a) * pow2(s)) == pattern(n, a * pow2(s)),
{
    let m = pow2(n) as int;
    let p = pow2(s) as int;
    let k = signs_turn(n, a);
    let x = signed_number(n, a);
    turns_vanish(n, a * p, k * p);
    assert(x * p == a * p + (k * p) * m) by (nonlinear_arith)
        requires
            x == a + k * m,
    ;
}

proof fn signs_tell_apart(n: nat, a: int, b: int)
    requires
        is_pattern(n, a),
        is_pattern(n, b),
    ensures
        a == b <==> signed_number(n, a) == signed_number(n, b),
        b == 0 <==> signed_number(n, b) == 0,
{
    lemma_pow2_pos(n);
}

proof fn small_quotients(n: nat, a: int, b: int)
    requires
        is_pattern(n, a),
        is_pattern(n, b),
        b != 0,
    ensures
        quotient(a, b) == a / b,
        a - b * quotient(a, b) == a % b,
        is_pattern(n, a / b),
        is_pattern(n, a % b),
{
    vstd::arithmetic::div_mod::lemma_fundamental_div_mod(a, b);
    assert(0 <= a / b <= a) by (nonlinear_arith)
        requires
            0 <= a,
            0 < b,
    ;
    assert(0 <= a % b < b) by (nonlinear_arith)
        requires
            0 < b,
    ;
}

proof fn small_shifts(n: nat, a: int, s: nat)
    requires
        is_pattern(n, a),
    ensures
        is_pattern(n, a / (pow2(s) as int)),
{
    lemma_pow2_pos(s);
    let p = pow2(s) as int;
    assert(0 <= a / p <= a) by (nonlinear_arith)
        requires
            0 <= a,
            0 < p,
    ;
}

proof fn bits_of_the_result(f: spec_fn(bool, bool) -> bool, n: nat, a: int, b: int, i: nat)
    ensures
        is_pattern(n, bit_by_bit(f, n, a, b)),
        i < n ==> bit(bit_by_bit(f, n, a, b), i) == f(bit(a, i), bit(b, i)),
    decreases n,
{
    lemma_pow2_pos(n);
    if n > 0 {
        lemma_pow2_unfold(n);
        let rest = bit_by_bit(f, (n - 1) as nat, a / 2, b / 2);
        let r = bit_by_bit(f, n, a, b);
        let j = if i > 0 {
            (i - 1) as nat
        } else {
            0
        };
        bits_of_the_result(f, (n - 1) as nat, a / 2, b / 2, j);
        assert(r / 2 == rest);
        assert(r % 2 == flag(f(a % 2 == 1, b % 2 == 1)));
    } else {
        assert(pow2(0) == 1) by {
            vstd::arithmetic::power2::lemma2_to64();
        }
    }
}

proof fn all_bits_of_the_result(f: spec_fn(bool, bool) -> bool, n: nat, a: int, b: int)
    ensures
        is_pattern(n, bit_by_bit(f, n, a, b)),
        forall|i: nat|
            i < n ==> #[trigger] bit(bit_by_bit(f, n, a, b), i) == f(bit(a, i), bit(b, i)),
{
    bits_of_the_result(f, n, a, b, 0);
    assert forall|i: nat| i < n implies #[trigger] bit(bit_by_bit(f, n, a, b), i) == f(
        bit(a, i),
        bit(b, i),
    ) by {
        bits_of_the_result(f, n, a, b, i);
    }
}

// ─── Laws ──────────────────────────────────────────────────────────────────

proof fn comparison_texts()
    ensures
        "icmp eq"@.len() > 5 && "icmp eq"@.take(5) == "icmp "@ && "icmp eq"@.skip(5) == "eq"@,
        "icmp ne"@.len() > 5 && "icmp ne"@.take(5) == "icmp "@ && "icmp ne"@.skip(5) == "ne"@,
        "icmp ult"@.len() > 5 && "icmp ult"@.take(5) == "icmp "@ && "icmp ult"@.skip(5) == "ult"@,
        "icmp ule"@.len() > 5 && "icmp ule"@.take(5) == "icmp "@ && "icmp ule"@.skip(5) == "ule"@,
        "icmp ugt"@.len() > 5 && "icmp ugt"@.take(5) == "icmp "@ && "icmp ugt"@.skip(5) == "ugt"@,
        "icmp uge"@.len() > 5 && "icmp uge"@.take(5) == "icmp "@ && "icmp uge"@.skip(5) == "uge"@,
        "icmp slt"@.len() > 5 && "icmp slt"@.take(5) == "icmp "@ && "icmp slt"@.skip(5) == "slt"@,
        "icmp sle"@.len() > 5 && "icmp sle"@.take(5) == "icmp "@ && "icmp sle"@.skip(5) == "sle"@,
        "icmp sgt"@.len() > 5 && "icmp sgt"@.take(5) == "icmp "@ && "icmp sgt"@.skip(5) == "sgt"@,
        "icmp sge"@.len() > 5 && "icmp sge"@.take(5) == "icmp "@ && "icmp sge"@.skip(5) == "sge"@,
{
    reveal_strlit("icmp ");
    reveal_strlit("icmp eq");
    reveal_strlit("icmp ne");
    reveal_strlit("icmp ult");
    reveal_strlit("icmp ule");
    reveal_strlit("icmp ugt");
    reveal_strlit("icmp uge");
    reveal_strlit("icmp slt");
    reveal_strlit("icmp sle");
    reveal_strlit("icmp sgt");
    reveal_strlit("icmp sge");
    reveal_strlit("eq");
    reveal_strlit("ne");
    reveal_strlit("ult");
    reveal_strlit("ule");
    reveal_strlit("ugt");
    reveal_strlit("uge");
    reveal_strlit("slt");
    reveal_strlit("sle");
    reveal_strlit("sgt");
    reveal_strlit("sge");
    assert("icmp eq"@.take(5) =~= "icmp "@ && "icmp eq"@.skip(5) =~= "eq"@);
    assert("icmp ne"@.take(5) =~= "icmp "@ && "icmp ne"@.skip(5) =~= "ne"@);
    assert("icmp ult"@.take(5) =~= "icmp "@ && "icmp ult"@.skip(5) =~= "ult"@);
    assert("icmp ule"@.take(5) =~= "icmp "@ && "icmp ule"@.skip(5) =~= "ule"@);
    assert("icmp ugt"@.take(5) =~= "icmp "@ && "icmp ugt"@.skip(5) =~= "ugt"@);
    assert("icmp uge"@.take(5) =~= "icmp "@ && "icmp uge"@.skip(5) =~= "uge"@);
    assert("icmp slt"@.take(5) =~= "icmp "@ && "icmp slt"@.skip(5) =~= "slt"@);
    assert("icmp sle"@.take(5) =~= "icmp "@ && "icmp sle"@.skip(5) =~= "sle"@);
    assert("icmp sgt"@.take(5) =~= "icmp "@ && "icmp sgt"@.skip(5) =~= "sgt"@);
    assert("icmp sge"@.take(5) =~= "icmp "@ && "icmp sge"@.skip(5) =~= "sge"@);
}

/// What each condition finds out.
proof fn comparisons(n: nat, a: int, b: int)
    ensures
        ir_compare("eq"@, n, a, b) == Some(a == b),
        ir_compare("ne"@, n, a, b) == Some(a != b),
        ir_compare("ult"@, n, a, b) == Some(a < b),
        ir_compare("ule"@, n, a, b) == Some(a <= b),
        ir_compare("ugt"@, n, a, b) == Some(a > b),
        ir_compare("uge"@, n, a, b) == Some(a >= b),
        ir_compare("slt"@, n, a, b) == Some(signed_number(n, a) < signed_number(n, b)),
        ir_compare("sle"@, n, a, b) == Some(signed_number(n, a) <= signed_number(n, b)),
        ir_compare("sgt"@, n, a, b) == Some(signed_number(n, a) > signed_number(n, b)),
        ir_compare("sge"@, n, a, b) == Some(signed_number(n, a) >= signed_number(n, b)),
{
    reveal_strlit("eq");
    reveal_strlit("ne");
    reveal_strlit("ult");
    reveal_strlit("ule");
    reveal_strlit("ugt");
    reveal_strlit("uge");
    reveal_strlit("slt");
    reveal_strlit("sle");
    reveal_strlit("sgt");
    reveal_strlit("sge");
    assert("eq"@.len() == 2 && "eq"@[0] == 'e' && "eq"@[1] == 'q');
    assert("ne"@.len() == 2 && "ne"@[0] == 'n' && "ne"@[1] == 'e');
    assert("ult"@.len() == 3 && "ult"@[0] == 'u' && "ult"@[1] == 'l' && "ult"@[2] == 't');
    assert("ule"@.len() == 3 && "ule"@[0] == 'u' && "ule"@[1] == 'l' && "ule"@[2] == 'e');
    assert("ugt"@.len() == 3 && "ugt"@[0] == 'u' && "ugt"@[1] == 'g' && "ugt"@[2] == 't');
    assert("uge"@.len() == 3 && "uge"@[0] == 'u' && "uge"@[1] == 'g' && "uge"@[2] == 'e');
    assert("slt"@.len() == 3 && "slt"@[0] == 's' && "slt"@[1] == 'l' && "slt"@[2] == 't');
    assert("sle"@.len() == 3 && "sle"@[0] == 's' && "sle"@[1] == 'l' && "sle"@[2] == 'e');
    assert("sgt"@.len() == 3 && "sgt"@[0] == 's' && "sgt"@[1] == 'g' && "sgt"@[2] == 't');
    assert("sge"@.len() == 3 && "sge"@[0] == 's' && "sge"@[1] == 'g' && "sge"@[2] == 'e');
}

proof fn opcode_texts()
    ensures
        "add"@.len() == 3 && "add"@[0] == 'a' && "add"@[1] == 'd' && "add"@[2] == 'd',
        "sub"@.len() == 3 && "sub"@[0] == 's' && "sub"@[1] == 'u' && "sub"@[2] == 'b',
        "mul"@.len() == 3 && "mul"@[0] == 'm',
        "udiv"@.len() == 4 && "udiv"@[0] == 'u' && "udiv"@[1] == 'd',
        "sdiv"@.len() == 4 && "sdiv"@[0] == 's' && "sdiv"@[1] == 'd',
        "urem"@.len() == 4 && "urem"@[0] == 'u' && "urem"@[1] == 'r',
        "srem"@.len() == 4 && "srem"@[0] == 's' && "srem"@[1] == 'r',
        "and"@.len() == 3 && "and"@[0] == 'a' && "and"@[1] == 'n',
        "or"@.len() == 2,
        "xor"@.len() == 3 && "xor"@[0] == 'x',
        "shl"@.len() == 3 && "shl"@[0] == 's' && "shl"@[1] == 'h',
        "lshr"@.len() == 4 && "lshr"@[0] == 'l',
        "ashr"@.len() == 4 && "ashr"@[0] == 'a',
{
    reveal_strlit("add");
    reveal_strlit("sub");
    reveal_strlit("mul");
    reveal_strlit("udiv");
    reveal_strlit("sdiv");
    reveal_strlit("urem");
    reveal_strlit("srem");
    reveal_strlit("and");
    reveal_strlit("or");
    reveal_strlit("xor");
    reveal_strlit("shl");
    reveal_strlit("lshr");
    reveal_strlit("ashr");
}

/// The instruction of a comparison finds out what the operator asks.
proof fn comparisons_are_computed(op: BinaryOp, signed: bool, n: nat, a: int, b: int)
    requires
        is_pattern(n, a),
        is_pattern(n, b),
        op is Eq || op is Ne || op is Lt || op is Le || op is Gt || op is Ge,
    ensures
        ir_result(binary_opcode(op, signed), n, a, b) is Some,
        operator_gives(op, signed, n, a, b, ir_result(binary_opcode(op, signed), n, a, b)->0),
{
    comparison_texts();
    comparisons(n, a, b);
    signs_tell_apart(n, a, b);
}

/// The instruction of a bitwise or logical operator treats each bit as the
/// operator does.
proof fn bits_are_computed(op: BinaryOp, signed: bool, n: nat, a: int, b: int)
    requires
        is_pattern(n, a),
        is_pattern(n, b),
        op is And || op is Or || op is BitAnd || op is BitOr || op is BitXor,
        is_defined(op, signed, n, a, b),
    ensures
        ir_result(binary_opcode(op, signed), n, a, b) is Some,
        operator_gives(op, signed, n, a, b, ir_result(binary_opcode(op, signed), n, a, b)->0),
{
    opcode_texts();
    let both = |p: bool, q: bool| p && q;
    let either = |p: bool, q: bool| p || q;
    let one = |p: bool, q: bool| p != q;
    all_bits_of_the_result(both, n, a, b);
    all_bits_of_the_result(either, n, a, b);
    all_bits_of_the_result(one, n, a, b);
    if op is And || op is Or {
        vstd::arithmetic::power2::lemma2_to64();
        assert(pow2(1) == 2);
        assert(bit_by_bit(both, 0, a / 2, b / 2) == 0);
        assert(bit_by_bit(either, 0, a / 2, b / 2) == 0);
        assert(bit_by_bit(both, 1, a, b) == flag(a == 1 && b == 1));
        assert(bit_by_bit(either, 1, a, b) == flag(a == 1 || b == 1));
    }
}

proof fn sums_are_computed(op: BinaryOp, signed: bool, n: nat, a: int, b: int)
    requires
        is_pattern(n, a),
        is_pattern(n, b),
        op is Add || op is Sub || op is Mul,
    ensures
        ir_result(binary_opcode(op, signed), n, a, b) is Some,
        operator_gives(op, signed, n, a, b, ir_result(binary_opcode(op, signed), n, a, b)->0),
{
    opcode_texts();
    signs_do_not_matter(n, a, b);
}

proof fn quotients_are_computed(op: BinaryOp, signed: bool, n: nat, a: int, b: int)
    requires
        is_pattern(n, a),
        is_pattern(n, b),
        op is Div || op is Rem,
        is_defined(op, signed, n, a, b),
    ensures
        ir_result(binary_opcode(op, signed), n, a, b) is Some,
        operator_gives(op, signed, n, a, b, ir_result(binary_opcode(op, signed), n, a, b)->0),
{
    opcode_texts();
    signs_tell_apart(n, a, b);
    if !signed {
        small_quotients(n, a, b);
        patterns_stay(n, a / b);
        patterns_stay(n, a % b);
    }
}

proof fn shifts_are_computed(op: BinaryOp, signed: bool, n: nat, a: int, b: int)
    requires
        is_pattern(n, a),
        is_pattern(n, b),
        op is Shl || op is Shr,
        is_defined(op, signed, n, a, b),
    ensures
        ir_result(binary_opcode(op, signed), n, a, b) is Some,
        operator_gives(op, signed, n, a, b, ir_result(binary_opcode(op, signed), n, a, b)->0),
{
    opcode_texts();
    shifted_signs_do_not_matter(n, a, b as nat);
    small_shifts(n, a, b as nat);
    patterns_stay(n, a / (pow2(b as nat) as int));
}

/// The instruction of every binary operator computes that operator, on operands
/// of either signedness and of any width.
pub proof fn operators_are_computed(op: BinaryOp, signed: bool, n: nat, a: int, b: int)
    requires
        is_pattern(n, a),
        is_pattern(n, b),
        is_defined(op, signed, n, a, b),
    ensures
        ir_result(binary_opcode(op, signed), n, a, b) is Some,
        operator_gives(op, signed, n, a, b, ir_result(binary_opcode(op, signed), n, a, b)->0),
{
    match op {
        BinaryOp::Eq
        | BinaryOp::Ne
        | BinaryOp::Lt
        | BinaryOp::Le
        | BinaryOp::Gt
        | BinaryOp::Ge => comparisons_are_computed(op, signed, n, a, b),
        BinaryOp::Or | BinaryOp::And | BinaryOp::BitOr | BinaryOp::BitXor | BinaryOp::BitAnd => {
            bits_are_computed(op, signed, n, a, b)
        },
        BinaryOp::Add | BinaryOp::Sub | BinaryOp::Mul => sums_are_computed(op, signed, n, a, b),
        BinaryOp::Div | BinaryOp::Rem => quotients_are_computed(op, signed, n, a, b),
        BinaryOp::Shl | BinaryOp::Shr => shifts_are_computed(op, signed, n, a, b),
    }
}

/// The operator that a compound assignment applies to the field and the value.
pub open spec fn applied(op: AssignOp) -> Option<BinaryOp> {
    match op {
        AssignOp::Eq => None,
        AssignOp::PlusEq => Some(BinaryOp::Add),
        AssignOp::MinusEq => Some(BinaryOp::Sub),
        AssignOp::StarEq => Some(BinaryOp::Mul),
        AssignOp::SlashEq => Some(BinaryOp::Div),
        AssignOp::PercentEq => Some(BinaryOp::Rem),
        AssignOp::AmpEq => Some(BinaryOp::BitAnd),
        AssignOp::PipeEq => Some(BinaryOp::BitOr),
        AssignOp::CaretEq => Some(BinaryOp::BitXor),
        AssignOp::ShlEq => Some(BinaryOp::Shl),
        AssignOp::ShrEq => Some(BinaryOp::Shr),
    }
}

/// The instruction of a compound assignment computes its operator on unsigned
/// operands.
pub proof fn compound_assignments_compute_their_operator(op: AssignOp, n: nat, a: int, b: int)
    requires
        applied(op) is Some,
        is_pattern(n, a),
        is_pattern(n, b),
        is_defined(applied(op)->0, false, n, a, b),
    ensures
        ir_result(assign_opcode(op), n, a, b) is Some,
        operator_gives(
            applied(op)->0,
            false,
            n,
            a,
            b,
            ir_result(assign_opcode(op), n, a, b)->0,
        ),
{
    operators_are_computed(applied(op)->0, false, n, a, b);
}

/// Adding, subtracting, multiplying, combining bits and shifting left, a
/// compound assignment computes its operator on signed operands as well.
pub proof fn most_compound_assignments_ignore_signs(op: AssignOp, n: nat, a: int, b: int)
    requires
        applied(op) is Some,
        !(op is SlashEq) && !(op is PercentEq) && !(op is ShrEq),
        is_pattern(n, a),
        is_pattern(n, b),
        is_defined(applied(op)->0, true, n, a, b),
    ensures
        ir_result(assign_opcode(op), n, a, b) is Some,
        operator_gives(
            applied(op)->0,
            true,
            n,
            a,
            b,
            ir_result(assign_opcode(op), n, a, b)->0,
        ),
{
    operators_are_computed(applied(op)->0, true, n, a, b);
}

/// A counted loop goes on exactly while the counter has not passed the bound:
/// up to it where the range includes it, else short of it, for signed and
/// unsigned counters alike.
pub proof fn loops_run_up_to_the_bound(signed: bool, inclusive: bool, n: nat, i: int, hi: int)
    ensures
        ir_compare(loop_compare(signed, inclusive), n, i, hi) == Some(
            if inclusive {
                number(signed, n, i) <= number(signed, n, hi)
            } else {
                number(signed, n, i) < number(signed, n, hi)
            },
        ),
{
    comparisons(n, i, hi);
}

/// A loop runs its body for the bound itself exactly where the range includes
/// it.
pub proof fn inclusive_loops_reach_the_bound(signed: bool, inclusive: bool, n: nat, hi: int)
    ensures
        ir_compare(loop_compare(signed, inclusive), n, hi, hi) == Some(inclusive),
{
    loops_run_up_to_the_bound(signed, inclusive, n, hi, hi);
}

/// A conversion to a wider integer keeps the number, and one to a narrower
/// integer keeps what fits of it.
pub proof fn casts_keep_what_fits(from: nat, to: nat, signed: bool, a: int)
    requires
        0 < from,
        0 < to,
        from != to,
        is_pattern(from, a),
    ensures
        ({
            let r = ir_convert(resize_opcode(from, to, signed), from, to, a);
            &&& r is Some
            &&& is_pattern(to, r->0)
            &&& r->0 == pattern(to, number(signed, from, a))
            &&& from < to ==> number(signed, to, r->0) == number(signed, from, a)
        }),
{
    reveal_strlit("trunc");
    reveal_strlit("zext");
    reveal_strlit("sext");
    assert("trunc"@.len() == 5 && "trunc"@[0] == 't' && "trunc"@[1] == 'r' && "trunc"@[2] == 'u' && "trunc"@[3] == 'n' && "trunc"@[4] == 'c');
    assert("zext"@.len() == 4 && "zext"@[0] == 'z' && "zext"@[1] == 'e' && "zext"@[2] == 'x' && "zext"@[3] == 't');
    assert("sext"@.len() == 4 && "sext"@[0] == 's' && "sext"@[1] == 'e' && "sext"@[2] == 'x' && "sext"@[3] == 't');
    lemma_pow2_pos(from);
    lemma_pow2_pos(to);
    let x = number(signed, from, a);
    if to < from {
        let k = if signed {
            signs_turn(from, a)
        } else {
            0
        };
        let step = pow2((from - to) as nat) as int;
        lemma_pow2_adds(to, (from - to) as nat);
        turns_vanish(to, a, k * step);
        let m = pow2(to) as int;
        assert(m * step == pow2(from));
        assert((k * step) * m == k * (m * step)) by (nonlinear_arith);
        assert(0 * pow2(from) == 0) by (nonlinear_arith);
        assert(x == a + k * pow2(from));
    } else {
        lemma_pow2_strictly_increases(from, to);
        lemma_pow2_unfold(from);
        lemma_pow2_unfold(to);
        if from as int <= to - 1 {
            if from < to - 1 {
                lemma_pow2_strictly_increases(from, (to - 1) as nat);
            }
        }
        let half = pow2((to - 1) as nat) as int;
        assert(pow2(to) == 2 * half);
        assert(pow2(from) <= half);
        if x >= 0 {
            patterns_stay(to, x);
        } else {
            turns_vanish(to, x, 1);
            assert(1 * pow2(to) == pow2(to)) by (nonlinear_arith);
            patterns_stay(to, x + pow2(to));
        }
    }
    lemma_pow2_pos(to);
    assert(0 <= pattern(to, x) < pow2(to)) by (nonlinear_arith)
        requires
            pattern(to, x) == x % (pow2(to) as int),
            pow2(to) > 0,
    ;
}

/// Subtracting from nothing negates.
pub proof fn subtraction_negates(signed: bool, n: nat, a: int)
    requires
        is_pattern(n, a),
    ensures
        ir_result("sub"@, n, 0, a) == Some(pattern(n, -number(signed, n, a))),
{
    lemma_pow2_pos(n);
    sums_are_computed(BinaryOp::Sub, signed, n, 0, a);
}

/// `xor` with a set bit turns a truth value over.
pub proof fn xor_with_true_negates(a: bool)
    ensures
        ir_result("xor"@, 1, flag(a), 1) == Some(flag(!a)),
{
    opcode_texts();
    let one = |p: bool, q: bool| p != q;
    assert(bit_by_bit(one, 0, flag(a) / 2, 1int / 2) == 0);
    assert(bit_by_bit(one, 1, flag(a), 1) == flag(!a));
}

proof fn ones(n: nat, i: nat)
    requires
        i < n,
    ensures
        bit(pow2(n) - 1, i),
    decreases i,
{
    lemma_pow2_unfold(n);
    lemma_pow2_pos((n - 1) as nat);
    let m = pow2((n - 1) as nat) as int;
    assert(pow2(n) == 2 * m);
    if i > 0 {
        ones((n - 1) as nat, (i - 1) as nat);
        assert((2 * m - 1) / 2 == m - 1);
    }
}

/// `xor` with the pattern of -1 turns every bit over.
pub proof fn xor_with_minus_one_complements(n: nat, a: int)
    requires
        is_pattern(n, a),
    ensures
        ({
            let r = ir_result("xor"@, n, a, pattern(n, -1));
            &&& r is Some
            &&& is_pattern(n, r->0)
            &&& forall|i: nat| i < n ==> #[trigger] bit(r->0, i) == !bit(a, i)
        }),
{
    opcode_texts();
    lemma_pow2_pos(n);
    turns_vanish(n, -1, 1);
    assert(1 * pow2(n) == pow2(n)) by (nonlinear_arith);
    patterns_stay(n, pow2(n) - 1);
    let one = |p: bool, q: bool| p != q;
    all_bits_of_the_result(one, n, a, pow2(n) - 1);
    assert forall|i: nat| i < n implies #[trigger] bit(
        bit_by_bit(one, n, a, pow2(n) - 1),
        i,
    ) == !bit(a, i) by {
        ones(n, i);
    }
}

// ─── Widths ────────────────────────────────────────────────────────────────

/// How many bits a primitive takes. A pointer-sized integer takes 64, and a
/// character as many as a Unicode scalar value is kept in.
pub open spec fn bits(p: PrimitiveType) -> Option<nat> {
    match p {
        PrimitiveType::Bool => Some(1),
        PrimitiveType::U8 => Some(8),
        PrimitiveType::I8 => Some(8),
        PrimitiveType::U16 => Some(16),
        PrimitiveType::I16 => Some(16),
        PrimitiveType::U32 => Some(32),
        PrimitiveType::I32 => Some(32),
        PrimitiveType::Char => Some(32),
        PrimitiveType::U64 => Some(64),
        PrimitiveType::I64 => Some(64),
        PrimitiveType::Usize => Some(64),
        PrimitiveType::Isize => Some(64),
        PrimitiveType::F32 => None,
        PrimitiveType::F64 => None,
    }
}

proof fn width_texts()
    ensures
        "i"@ + dec(1) == "i1"@,
        "i"@ + dec(8) == "i8"@,
        "i"@ + dec(16) == "i16"@,
        "i"@ + dec(32) == "i32"@,
        "i"@ + dec(64) == "i64"@,
        "i"@ + dec(128) == "i128"@,
{
    reveal_strlit("i");
    reveal_strlit("i1");
    reveal_strlit("i8");
    reveal_strlit("i16");
    reveal_strlit("i32");
    reveal_strlit("i64");
    reveal_strlit("i128");
    reveal_with_fuel(dec, 3);
    assert("i"@ + dec(1) =~= "i1"@);
    assert("i"@ + dec(8) =~= "i8"@);
    assert("i"@ + dec(16) =~= "i16"@);
    assert("i"@ + dec(32) =~= "i32"@);
    assert("i"@ + dec(64) =~= "i64"@);
    assert("i"@ + dec(128) =~= "i128"@);
}

/// An integer IR type is called by its width.
pub proof fn integer_types_are_called_by_their_width(ty: Seq<char>)
    ensures
        match int_width(ty) {
            Some(n) => ty == "i"@ + dec(n),
            None => true,
        },
        int_width("i"@ + dec(1)) == Some(1nat),
        int_width("i"@ + dec(8)) == Some(8nat),
        int_width("i"@ + dec(16)) == Some(16nat),
        int_width("i"@ + dec(32)) == Some(32nat),
        int_width("i"@ + dec(64)) == Some(64nat),
        int_width("i"@ + dec(128)) == Some(128nat),
{
    width_texts();
    reveal_strlit("i1");
    reveal_strlit("i8");
    reveal_strlit("i16");
    reveal_strlit("i32");
    reveal_strlit("i64");
    reveal_strlit("i128");
    assert("i1"@.len() == 2 && "i1"@[0] == 'i' && "i1"@[1] == '1');
    assert("i8"@.len() == 2 && "i8"@[0] == 'i' && "i8"@[1] == '8');
    assert("i16"@.len() == 3 && "i16"@[0] == 'i' && "i16"@[1] == '1' && "i16"@[2] == '6');
    assert("i32"@.len() == 3 && "i32"@[0] == 'i' && "i32"@[1] == '3' && "i32"@[2] == '2');
    assert("i64"@.len() == 3 && "i64"@[0] == 'i' && "i64"@[1] == '6' && "i64"@[2] == '4');
    assert("i128"@.len() == 4 && "i128"@[0] == 'i' && "i128"@[1] == '1' && "i128"@[2] == '2' && "i128"@[3] == '8');
}

/// The IR type of a primitive that is no float has as many bits as the
/// primitive, and those of floats have none.
pub proof fn primitives_keep_their_width(p: PrimitiveType)
    ensures
        int_width(primitive_ir(p)) == bits(p),
        match bits(p) {
            Some(n) => primitive_ir(p) == "i"@ + dec(n),
            None => true,
        },
{
    integer_types_are_called_by_their_width(primitive_ir(p));
    width_texts();
    reveal_strlit("i1");
    reveal_strlit("i8");
    reveal_strlit("i16");
    reveal_strlit("i32");
    reveal_strlit("i64");
    reveal_strlit("i128");
    reveal_strlit("float");
    reveal_strlit("double");
    assert("i1"@.len() == 2 && "i1"@[0] == 'i' && "i1"@[1] == '1');
    assert("i8"@.len() == 2 && "i8"@[0] == 'i' && "i8"@[1] == '8');
    assert("i16"@.len() == 3 && "i16"@[0] == 'i' && "i16"@[1] == '1' && "i16"@[2] == '6');
    assert("i32"@.len() == 3 && "i32"@[0] == 'i' && "i32"@[1] == '3' && "i32"@[2] == '2');
    assert("i64"@.len() == 3 && "i64"@[0] == 'i' && "i64"@[1] == '6' && "i64"@[2] == '4');
    assert("i128"@.len() == 4 && "i128"@[0] == 'i' && "i128"@[1] == '1' && "i128"@[2] == '2' && "i128"@[3] == '8');
    assert("float"@.len() == 5 && "float"@[0] == 'f' && "float"@[1] == 'l' && "float"@[2] == 'o' && "float"@[3] == 'a' && "float"@[4] == 't');
    assert("double"@.len() == 6 && "double"@[0] == 'd' && "double"@[1] == 'o' && "double"@[2] == 'u' && "double"@[3] == 'b' && "double"@[4] == 'l' && "double"@[5] == 'e');
}

/// The primitives that hold negative numbers are the signed ones, and each has
/// an unsigned one of the same width beside it.
pub proof fn signed_primitives_have_unsigned_ones_beside_them(p: PrimitiveType)
    ensures
        primitive_signed(p) <==> exists|q: PrimitiveType|
            #![trigger primitive_signed(q)]
            {
                &&& (p == PrimitiveType::I8 && q == PrimitiveType::U8) || (p == PrimitiveType::I16
                    && q == PrimitiveType::U16) || (p == PrimitiveType::I32 && q
                    == PrimitiveType::U32) || (p == PrimitiveType::I64 && q == PrimitiveType::U64)
                    || (p == PrimitiveType::Isize && q == PrimitiveType::Usize)
                &&& !primitive_signed(q)
                &&& primitive_ir(q) == primitive_ir(p)
            },
{
    if primitive_signed(p) {
        let q = match p {
            PrimitiveType::I8 => PrimitiveType::U8,
            PrimitiveType::I16 => PrimitiveType::U16,
            PrimitiveType::I32 => PrimitiveType::U32,
            PrimitiveType::I64 => PrimitiveType::U64,
            _ => PrimitiveType::Usize,
        };
        assert(!primitive_signed(q));
    }
}

} // verus!
