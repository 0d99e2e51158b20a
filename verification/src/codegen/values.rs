//! The types and the literal values of expressions.
use vstd::arithmetic::power::pow;
use vstd::arithmetic::power2::pow2;
use vstd::prelude::*;

use crate::ast::{BinaryOp, Expr, ExprKind, PrimitiveType, Stmt, StmtKind, TypeExpr, TypeKind};
use crate::codegen::error::CodegenErrorView;
use crate::codegen::irtype::{primitive_ir, primitive_signed, type_ir, written_signed};
use crate::codegen::literal::{
    bin_literal, count_value, first_non_digit, hex_literal, int_literal, literal_body, literal_ir, run_start,
    suffix_ir, suffix_max, suffix_of, suffix_signed, suffix_start,
};
use crate::codegen::lowering::{any_has_return, expr, expr_ir, expr_signed, expr_unfold, has_return};
use crate::codegen::meaning::bits;
use crate::codegen::registry::Env;
use crate::codegen::state::{find_local, EmitState, LocalView};
use crate::syntax::{statements, statements_of};
use crate::text::{
    dec, digit_of, is_alnum, is_digit_in, numeral_digits, numeral_value, radix_value, without,
};
use crate::types::Type;

verus! {

// ─── Types of expressions ──────────────────────────────────────────────────

/// The type of an expression is the one that was inferred for it. Where none
/// was, parentheses have the type of what they enclose, an operator that yields
/// a truth value has one bit, any other operator has the type of its left
/// operand, a name that of the innermost local, a literal that of its suffix, and
/// anything else 32 bits.
pub proof fn expressions_have_their_type(env: Env, locals: Seq<LocalView>, e: Expr)
    ensures
        env.typing.type_at(e.span) matches Some(t) ==> expr_ir(env, locals, e) == type_ir(t),
        env.typing.type_at(e.span) is None ==> match e.kind {
            ExprKind::Paren(inner) => expr_ir(env, locals, e) == expr_ir(env, locals, *inner),
            ExprKind::Binary { op, lhs, .. } => expr_ir(env, locals, e) == match op {
                BinaryOp::Eq
                | BinaryOp::Ne
                | BinaryOp::Lt
                | BinaryOp::Le
                | BinaryOp::Gt
                | BinaryOp::Ge
                | BinaryOp::And
                | BinaryOp::Or => "i1"@,
                BinaryOp::Add
                | BinaryOp::Sub
                | BinaryOp::Mul
                | BinaryOp::Div
                | BinaryOp::Rem
                | BinaryOp::Shl
                | BinaryOp::Shr
                | BinaryOp::BitAnd
                | BinaryOp::BitOr
                | BinaryOp::BitXor => expr_ir(env, locals, *lhs),
            },
            ExprKind::Path(segs) => expr_ir(env, locals, e) == if segs@.len() == 1 && find_local(
                locals,
                segs@[0]@,
            ) is Some {
                find_local(locals, segs@[0]@)->0.ir_type
            } else {
                "i32"@
            },
            ExprKind::BoolLit(_) => expr_ir(env, locals, e) == "i1"@,
            ExprKind::IntLit(s) => expr_ir(env, locals, e) == literal_ir(s@),
            ExprKind::HexLit(s) => expr_ir(env, locals, e) == literal_ir(s@),
            ExprKind::BinLit(s) => expr_ir(env, locals, e) == literal_ir(s@),
            _ => expr_ir(env, locals, e) == "i32"@,
        },
{
}

/// An expression is signed where a signed integer was inferred for it. Where no
/// type was, parentheses are as signed as what they enclose, an operator as its
/// left operand, a literal as its suffix says, and anything else is not.
pub proof fn expressions_have_their_sign(env: Env, e: Expr)
    ensures
        env.typing.type_at(e.span) matches Some(t) ==> (expr_signed(env, e) <==> match t {
            Type::Primitive(p) => p == PrimitiveType::I8 || p == PrimitiveType::I16 || p
                == PrimitiveType::I32 || p == PrimitiveType::I64 || p == PrimitiveType::Isize,
            _ => false,
        }),
        env.typing.type_at(e.span) is None ==> (expr_signed(env, e) <==> match e.kind {
            ExprKind::Paren(inner) => expr_signed(env, *inner),
            ExprKind::Binary { lhs, .. } => expr_signed(env, *lhs),
            ExprKind::IntLit(s) => suffix_signed(suffix_of(s@)),
            ExprKind::HexLit(s) => suffix_signed(suffix_of(s@)),
            ExprKind::BinLit(s) => suffix_signed(suffix_of(s@)),
            _ => false,
        }),
{
}

/// A written type is signed where it is a signed integer.
pub proof fn written_types_have_their_sign(t: TypeExpr)
    ensures
        written_signed(t) <==> match t.kind {
            TypeKind::Primitive(p) => p == PrimitiveType::I8 || p == PrimitiveType::I16 || p
                == PrimitiveType::I32 || p == PrimitiveType::I64 || p == PrimitiveType::Isize,
            _ => false,
        },
{
}

// ─── Suffixes ──────────────────────────────────────────────────────────────

/// The integer type that a suffix names.
pub open spec fn named_type(suffix: Seq<char>, p: PrimitiveType) -> bool {
    match p {
        PrimitiveType::U8 => suffix == "u8"@,
        PrimitiveType::U16 => suffix == "u16"@,
        PrimitiveType::U32 => suffix == "u32"@,
        PrimitiveType::U64 => suffix == "u64"@,
        PrimitiveType::Usize => suffix == "usize"@,
        PrimitiveType::I8 => suffix == "i8"@,
        PrimitiveType::I16 => suffix == "i16"@,
        PrimitiveType::I32 => suffix == "i32"@,
        PrimitiveType::I64 => suffix == "i64"@,
        PrimitiveType::Isize => suffix == "isize"@,
        _ => false,
    }
}

proof fn suffix_texts()
    ensures
        ""@.len() == 0,
        "u8"@.len() == 2 && "u8"@[0] == 'u' && "u8"@[1] == '8',
        "u16"@.len() == 3 && "u16"@[0] == 'u' && "u16"@[1] == '1' && "u16"@[2] == '6',
        "u32"@.len() == 3 && "u32"@[0] == 'u' && "u32"@[1] == '3' && "u32"@[2] == '2',
        "u64"@.len() == 3 && "u64"@[0] == 'u' && "u64"@[1] == '6' && "u64"@[2] == '4',
        "usize"@.len() == 5 && "usize"@[0] == 'u' && "usize"@[1] == 's' && "usize"@[2] == 'i' && "usize"@[3] == 'z' && "usize"@[4] == 'e',
        "i8"@.len() == 2 && "i8"@[0] == 'i' && "i8"@[1] == '8',
        "i16"@.len() == 3 && "i16"@[0] == 'i' && "i16"@[1] == '1' && "i16"@[2] == '6',
        "i32"@.len() == 3 && "i32"@[0] == 'i' && "i32"@[1] == '3' && "i32"@[2] == '2',
        "i64"@.len() == 3 && "i64"@[0] == 'i' && "i64"@[1] == '6' && "i64"@[2] == '4',
        "isize"@.len() == 5 && "isize"@[0] == 'i' && "isize"@[1] == 's' && "isize"@[2] == 'i' && "isize"@[3] == 'z' && "isize"@[4] == 'e',
{
    reveal_strlit("");
    reveal_strlit("u8");
    reveal_strlit("u16");
    reveal_strlit("u32");
    reveal_strlit("u64");
    reveal_strlit("usize");
    reveal_strlit("i8");
    reveal_strlit("i16");
    reveal_strlit("i32");
    reveal_strlit("i64");
    reveal_strlit("isize");
}

/// A suffix gives a literal the IR type and the sign of the type that it names,
/// and the range of that type: what an unsigned type holds, and of a signed one
/// as far as its least number lies below zero. No other text is a suffix.
pub proof fn suffixes_name_types(suffix: Seq<char>, p: PrimitiveType)
    ensures
        named_type(suffix, p) ==> {
            &&& suffix_ir(suffix) == Some(primitive_ir(p))
            &&& suffix_signed(suffix) == primitive_signed(p)
            &&& suffix_max(suffix) == if primitive_signed(p) {
                pow2((bits(p)->0 - 1) as nat) as int
            } else {
                pow2(bits(p)->0) - 1
            }
        },
        suffix_ir(""@) == Some("i32"@),
        !suffix_signed(""@),
        suffix_max(""@) == pow2(64) - 1,
        suffix_ir(suffix) is Some ==> suffix == ""@ || exists|q: PrimitiveType|
            named_type(suffix, q),
        suffix_signed(suffix) ==> exists|q: PrimitiveType|
            #[trigger] named_type(suffix, q) && primitive_signed(q),
{
    suffix_texts();
    vstd::arithmetic::power2::lemma2_to64();
    vstd::arithmetic::power2::lemma2_to64_rest();
    if suffix_ir(suffix) is Some && suffix != ""@ {
        let q = if suffix == "u8"@ {
            PrimitiveType::U8
        } else if suffix == "u16"@ {
            PrimitiveType::U16
        } else if suffix == "u32"@ {
            PrimitiveType::U32
        } else if suffix == "u64"@ {
            PrimitiveType::U64
        } else if suffix == "usize"@ {
            PrimitiveType::Usize
        } else if suffix == "i8"@ {
            PrimitiveType::I8
        } else if suffix == "i16"@ {
            PrimitiveType::I16
        } else if suffix == "i32"@ {
            PrimitiveType::I32
        } else if suffix == "i64"@ {
            PrimitiveType::I64
        } else {
            PrimitiveType::Isize
        };
        assert(named_type(suffix, q));
    }
    if suffix_signed(suffix) {
        let q = if suffix == "i8"@ {
            PrimitiveType::I8
        } else if suffix == "i16"@ {
            PrimitiveType::I16
        } else if suffix == "i32"@ {
            PrimitiveType::I32
        } else if suffix == "i64"@ {
            PrimitiveType::I64
        } else {
            PrimitiveType::Isize
        };
        assert(named_type(suffix, q) && primitive_signed(q));
    }
}

// ─── Numbers ───────────────────────────────────────────────────────────────

/// What a digit is worth: its place among `0` to `9` and the letters behind.
pub open spec fn worth(c: char) -> nat {
    if c <= '9' {
        (c as int - '0' as int) as nat
    } else if c <= 'Z' {
        (c as int - 'A' as int + 10) as nat
    } else {
        (c as int - 'a' as int + 10) as nat
    }
}

/// The number that digits write: each counts for its worth times the radix to
/// the power of how many digits stand behind it.
pub open spec fn number_written(ds: Seq<char>, radix: nat) -> int
    decreases ds.len(),
{
    if ds.len() == 0 {
        0
    } else {
        worth(ds.first()) * pow(radix as int, (ds.len() - 1) as nat) + number_written(
            ds.drop_first(),
            radix,
        )
    }
}

proof fn radix_value_splits(a: Seq<char>, b: Seq<char>, radix: nat)
    ensures
        radix_value(a + b, radix) == radix_value(a, radix) * pow(radix as int, b.len())
            + radix_value(b, radix),
    decreases b.len(),
{
    if b.len() == 0 {
        assert(a + b =~= a);
        vstd::arithmetic::power::lemma_pow0(radix as int);
        let x = radix_value(a, radix) as int;
        assert(x * 1 == x) by (nonlinear_arith);
    } else {
        let c = b.drop_last();
        radix_value_splits(a, c, radix);
        assert((a + b).drop_last() =~= a + c);
        assert((a + b).last() == b.last());
        vstd::arithmetic::power::lemma_pow_adds(radix as int, c.len(), 1);
        vstd::arithmetic::power::lemma_pow1(radix as int);
        let x = radix_value(a, radix) as int;
        let y = radix_value(c, radix) as int;
        let p = pow(radix as int, c.len());
        let q = pow(radix as int, b.len());
        let r = radix as int;
        assert(q == p * r);
        assert((x * p + y) * r == x * q + y * r) by (nonlinear_arith)
            requires
                q == p * r,
        ;
    }
}

proof fn radix_values_are_numbers_written(ds: Seq<char>, radix: nat)
    requires
        forall|i: int| 0 <= i < ds.len() ==> is_digit_in(#[trigger] ds[i], radix),
    ensures
        radix_value(ds, radix) == number_written(ds, radix),
    decreases ds.len(),
{
    if ds.len() > 0 {
        let first = seq![ds.first()];
        let rest = ds.drop_first();
        assert forall|i: int| 0 <= i < rest.len() implies is_digit_in(
            #[trigger] rest[i],
            radix,
        ) by {
            assert(rest[i] == ds[i + 1]);
        }
        radix_values_are_numbers_written(rest, radix);
        assert(first + rest =~= ds);
        radix_value_splits(first, rest, radix);
        assert(first.drop_last() =~= Seq::<char>::empty());
        assert(radix_value(first.drop_last(), radix) == 0);
        assert(is_digit_in(ds[0], radix));
        assert(0 * radix == 0) by (nonlinear_arith);
        assert(first.last() == ds[0]);
        assert(digit_of(ds[0]) == Some(worth(ds[0])));
        assert(radix_value(first, radix) == worth(ds.first()));
    }
}

/// Digits of the radix and underscores, with at least one digit.
pub open spec fn is_number(ds: Seq<char>, radix: nat) -> bool {
    &&& forall|i: int| 0 <= i < ds.len() ==> #[trigger] ds[i] == '_' || is_digit_in(ds[i], radix)
    &&& exists|i: int| 0 <= i < ds.len() && #[trigger] ds[i] != '_'
}

/// Taking a character out leaves the others in their order.
pub proof fn the_others_stay(s: Seq<char>, c: char)
    ensures
        without(s, c) == s.filter(|x: char| x != c),
    decreases s.len(),
{
    reveal(Seq::filter);
    if s.len() > 0 {
        the_others_stay(s.drop_last(), c);
    }
}

proof fn without_both(a: Seq<char>, b: Seq<char>, c: char)
    ensures
        without(a + b, c) =~= without(a, c) + without(b, c),
    decreases b.len(),
{
    if b.len() == 0 {
        assert(a + b =~= a);
    } else {
        without_both(a, b.drop_last(), c);
        assert((a + b).drop_last() =~= a + b.drop_last());
        assert((a + b).last() == b.last());
    }
}

proof fn without_none(s: Seq<char>, c: char)
    requires
        forall|i: int| 0 <= i < s.len() ==> #[trigger] s[i] != c,
    ensures
        without(s, c) == s,
    decreases s.len(),
{
    if s.len() > 0 {
        without_none(s.drop_last(), c);
        assert(s.drop_last().push(s.last()) =~= s);
    }
}

proof fn only_digits_stay(ds: Seq<char>, radix: nat)
    requires
        forall|i: int|
            0 <= i < ds.len() ==> #[trigger] ds[i] == '_' || is_digit_in(ds[i], radix),
    ensures
        forall|i: int|
            0 <= i < without(ds, '_').len() ==> is_digit_in(#[trigger] without(ds, '_')[i], radix),
        (exists|i: int| 0 <= i < ds.len() && #[trigger] ds[i] != '_') ==> without(ds, '_').len()
            > 0,
    decreases ds.len(),
{
    if ds.len() > 0 {
        let front = ds.drop_last();
        assert forall|i: int| 0 <= i < front.len() implies #[trigger] front[i] == '_'
            || is_digit_in(front[i], radix) by {
            assert(front[i] == ds[i]);
        }
        only_digits_stay(front, radix);
        assert(ds.last() == ds[ds.len() - 1]);
        let kept = without(front, '_');
        assert forall|i: int| 0 <= i < without(ds, '_').len() implies is_digit_in(
            #[trigger] without(ds, '_')[i],
            radix,
        ) by {
            if i < kept.len() {
                assert(without(ds, '_')[i] == kept[i]);
            } else {
                assert(without(ds, '_')[i] == ds.last());
            }
        }
        if (exists|i: int| 0 <= i < ds.len() && #[trigger] ds[i] != '_') && ds.last() == '_' {
            let i = choose|i: int| 0 <= i < ds.len() && #[trigger] ds[i] != '_';
            assert(front[i] != '_');
        }
    }
}

proof fn all_alnum_run(s: Seq<char>)
    requires
        forall|i: int| 0 <= i < s.len() ==> is_alnum(#[trigger] s[i]),
    ensures
        run_start(s) == 0,
    decreases s.len(),
{
    if s.len() > 0 {
        assert(is_alnum(s[s.len() - 1]));
        all_alnum_run(s.drop_last());
    }
}

proof fn digits_run(s: Seq<char>, radix: nat, from: int, to: int)
    requires
        0 <= from <= to <= s.len(),
        forall|i: int| from <= i < to ==> is_digit_in(#[trigger] s[i], radix),
        to < s.len() ==> !is_digit_in(s[to], radix),
    ensures
        first_non_digit(s, radix, from) == to,
    decreases to - from,
{
    if from < to {
        digits_run(s, radix, from + 1, to);
    }
}

/// The text is one of the suffixes, or empty.
pub open spec fn is_suffix(w: Seq<char>) -> bool {
    w == ""@ || exists|p: PrimitiveType| named_type(w, p)
}

proof fn suffixes_are_letters(w: Seq<char>)
    requires
        is_suffix(w),
    ensures
        forall|i: int| 0 <= i < w.len() ==> is_alnum(#[trigger] w[i]) && w[i] != '_',
        w.len() > 0 ==> w[0] == 'u' || w[0] == 'i',
        w.len() > 0 ==> !is_digit_in(w[0], 10) && !is_digit_in(w[0], 16) && !is_digit_in(w[0], 2),
{
    suffix_texts();
}

proof fn suffixes_have_types(w: Seq<char>)
    requires
        is_suffix(w),
    ensures
        suffix_ir(w) is Some,
{
    if w == ""@ {
        suffixes_name_types(w, PrimitiveType::U8);
    } else {
        let p = choose|p: PrimitiveType| named_type(w, p);
        suffixes_name_types(w, p);
    }
}

proof fn split_at_the_suffix(ds: Seq<char>, w: Seq<char>, radix: nat)
    requires
        radix == 10 || radix == 16 || radix == 2,
        is_number(ds, radix),
        is_suffix(w),
    ensures
        ({
            let digits = without(ds, '_');
            let t = digits + w;
            &&& without(ds + w, '_') == t
            &&& digits.len() > 0
            &&& suffix_start(t, radix) == digits.len()
            &&& t.take(digits.len() as int) == digits
            &&& t.skip(digits.len() as int) == w
            &&& forall|i: int| 0 <= i < digits.len() ==> is_digit_in(#[trigger] digits[i], radix)
        }),
{
    let digits = without(ds, '_');
    let t = digits + w;
    suffixes_are_letters(w);
    only_digits_stay(ds, radix);
    without_both(ds, w, '_');
    without_none(w, '_');
    assert forall|i: int| 0 <= i < t.len() implies is_alnum(#[trigger] t[i]) by {
        if i < digits.len() {
            assert(is_digit_in(digits[i], radix));
        } else {
            assert(t[i] == w[i - digits.len()]);
        }
    }
    all_alnum_run(t);
    assert forall|i: int| 0 <= i < digits.len() implies is_digit_in(#[trigger] t[i], radix) by {
        assert(t[i] == digits[i]);
    }
    if digits.len() < t.len() {
        assert(t[digits.len() as int] == w[0]);
    }
    digits_run(t, radix, 0, digits.len() as int);
    assert(t.take(digits.len() as int) =~= digits);
    assert(t.skip(digits.len() as int) =~= w);
}

proof fn digits_are_numerals(digits: Seq<char>, radix: nat, max: nat)
    requires
        radix == 10 || radix == 16 || radix == 2,
        digits.len() > 0,
        forall|i: int| 0 <= i < digits.len() ==> is_digit_in(#[trigger] digits[i], radix),
    ensures
        number_written(digits, radix) >= 0,
        numeral_value(digits, radix, max) == if number_written(digits, radix) <= max {
            Some(number_written(digits, radix) as nat)
        } else {
            None
        },
{
    radix_values_are_numbers_written(digits, radix);
    assert(is_digit_in(digits[0], radix));
    assert(digits[0] != '+');
}

/// One or more digits of a radix, and nothing else.
pub open spec fn digits_alone(ds: Seq<char>, radix: nat) -> bool {
    ds.len() > 0 && forall|i: int| 0 <= i < ds.len() ==> is_digit_in(#[trigger] ds[i], radix)
}

/// A numeral is one or more digits, perhaps behind a plus sign, and its value the
/// number that the digits write, where that is not too great.
pub proof fn numerals_are_numbers_written(ds: Seq<char>, radix: nat, max: nat)
    ensures
        forall|s: Seq<char>|
            (s == ds && !(ds.len() > 0 && ds[0] == '+')) || s == seq!['+'] + ds ==> {
                &&& #[trigger] numeral_value(s, radix, max) is Some <==> digits_alone(ds, radix)
                    && number_written(ds, radix) <= max
                &&& numeral_value(s, radix, max) matches Some(n) ==> n == number_written(ds, radix)
            },
{
    assert forall|s: Seq<char>|
        (s == ds && !(ds.len() > 0 && ds[0] == '+')) || s == seq!['+'] + ds implies {
        &&& #[trigger] numeral_value(s, radix, max) is Some <==> digits_alone(ds, radix)
            && number_written(ds, radix) <= max
        &&& numeral_value(s, radix, max) matches Some(n) ==> n == number_written(ds, radix)
    } by {
        assert(numeral_digits(s) =~= ds);
        if digits_alone(ds, radix) {
            radix_values_are_numbers_written(ds, radix);
        }
    }
}

/// A digit of a radix is one of as many characters, `0` to `9` and then the
/// letters in either case, and is worth less than the radix.
pub proof fn digits_are_worth_less_than_the_radix(c: char, radix: nat)
    requires
        radix <= 36,
    ensures
        is_digit_in(c, radix) <==> ('0' <= c <= '9' || 'a' <= c <= 'z' || 'A' <= c <= 'Z') && worth(
            c,
        ) < radix,
{
}

/// A decimal literal stands for its own digits, underscores aside, and the type
/// of its suffix, where the number that it writes is in the range of the suffix.
/// Otherwise it is refused.
pub proof fn decimal_literals_stand_for_their_digits(ds: Seq<char>, w: Seq<char>)
    requires
        is_number(ds, 10),
        is_suffix(w),
    ensures
        match int_literal(ds + w) {
            Ok((text, ty)) => {
                &&& number_written(text, 10) == number_written(
                    ds.filter(|x: char| x != '_'),
                    10,
                )
                &&& text == ds.filter(|x: char| x != '_')
                &&& Some(ty) == suffix_ir(w)
                &&& number_written(text, 10) <= suffix_max(w)
            },
            Err(_) => number_written(ds.filter(|x: char| x != '_'), 10) > suffix_max(w),
        },
        suffix_of_decimal(ds, w),
{
    split_at_the_suffix(ds, w, 10);
    the_others_stay(ds, '_');
    suffixes_are_letters(w);
    suffixes_have_types(w);
    digits_are_numerals(without(ds, '_'), 10, suffix_max(w));
    let t = without(ds + w, '_');
    assert(is_digit_in(t[0], 10));
    if t.len() >= 2 {
        if without(ds, '_').len() > 1 {
            assert(is_digit_in(without(ds, '_')[1], 10));
            assert(t[1] == without(ds, '_')[1]);
        } else {
            assert(t[1] == w[0]);
        }
    }
    assert(literal_body(t) == (t, 10nat));
}

/// The suffix of a decimal literal is what stands behind its digits.
pub open spec fn suffix_of_decimal(ds: Seq<char>, w: Seq<char>) -> bool {
    suffix_of(ds + w) == w
}

/// The literal is written with the prefix `0x` or `0b`, in either case.
pub open spec fn is_prefix(prefix: Seq<char>, radix: nat) -> bool {
    prefix.len() == 2 && prefix[0] == '0' && (radix == 16 && (prefix[1] == 'x' || prefix[1] == 'X')
        || radix == 2 && (prefix[1] == 'b' || prefix[1] == 'B'))
}

/// A hexadecimal or binary literal stands for the decimal numeral of the number
/// that its digits write, and for the type of its suffix, where the number is in
/// the range of the suffix. Otherwise it is refused.
#[verifier::rlimit(40)]
#[verifier::spinoff_prover]
pub proof fn prefixed_literals_stand_for_their_number(
    prefix: Seq<char>,
    radix: nat,
    ds: Seq<char>,
    w: Seq<char>,
)
    requires
        is_prefix(prefix, radix),
        is_number(ds, radix),
        is_suffix(w),
    ensures
        ({
            let literal = prefix + ds + w;
            let n = number_written(ds.filter(|x: char| x != '_'), radix);
            &&& (if radix == 16 {
                hex_literal(literal)
            } else {
                bin_literal(literal)
            }) matches Ok((text, ty)) ==> n >= 0 && text == dec(n as nat) && Some(ty) == suffix_ir(
                w,
            ) && n <= suffix_max(w)
            &&& (if radix == 16 {
                hex_literal(literal)
            } else {
                bin_literal(literal)
            }) is Err ==> n > suffix_max(w)
            &&& suffix_of(literal) == w
        }),
{
    split_at_the_suffix(ds, w, radix);
    the_others_stay(ds, '_');
    suffixes_have_types(w);
    let digits = without(ds, '_');
    digits_are_numerals(digits, radix, u64::MAX as nat);
    let literal = prefix + ds + w;
    assert(literal =~= prefix + (ds + w));
    without_both(prefix, ds + w, '_');
    without_none(prefix, '_');
    let t = without(literal, '_');
    assert(t =~= prefix + (digits + w));
    assert(t.skip(2) =~= digits + w);
    assert(t[0] == '0' && t[1] == prefix[1]);
}

/// A literal becomes its value text without any instruction.
pub proof fn literals_need_no_instruction(env: Env, st: EmitState, e: Expr)
    ensures
        match e.kind {
            ExprKind::IntLit(s) => expr(env, st, e).0 == st && (int_literal(s@) matches Ok((v, _))
                ==> expr(env, st, e).1 == Ok::<Seq<char>, CodegenErrorView>(v)) && (int_literal(
                s@,
            ) is Err ==> expr(env, st, e).1 is Err),
            ExprKind::HexLit(s) => expr(env, st, e).0 == st && (hex_literal(s@) matches Ok((v, _))
                ==> expr(env, st, e).1 == Ok::<Seq<char>, CodegenErrorView>(v)) && (hex_literal(
                s@,
            ) is Err ==> expr(env, st, e).1 is Err),
            ExprKind::BinLit(s) => expr(env, st, e).0 == st && (bin_literal(s@) matches Ok((v, _))
                ==> expr(env, st, e).1 == Ok::<Seq<char>, CodegenErrorView>(v)) && (bin_literal(
                s@,
            ) is Err ==> expr(env, st, e).1 is Err),
            _ => true,
        },
{
    expr_unfold(env, st, e);
}

/// The count of an array is the number that its decimal literal writes, where it
/// is in the range of its suffix and of a size. Parentheses change nothing.
pub proof fn counts_are_the_number_written(e: Expr, inner: Box<Expr>, text: String, ds: Seq<char>, w: Seq<char>)
    requires
        is_number(ds, 10),
        is_suffix(w),
        text@ == ds + w,
    ensures
        e.kind == ExprKind::Paren(inner) ==> count_value(e) == count_value(*inner),
        e.kind == ExprKind::IntLit(text) ==> {
            let n = number_written(ds.filter(|x: char| x != '_'), 10);
            count_value(e) == if n <= suffix_max(w) && n <= usize::MAX {
                Some(n as nat)
            } else {
                None
            }
        },
{
    decimal_literals_stand_for_their_digits(ds, w);
    split_at_the_suffix(ds, w, 10);
    the_others_stay(ds, '_');
    digits_are_numerals(without(ds, '_'), 10, usize::MAX as nat);
}

// ─── Returns ───────────────────────────────────────────────────────────────

/// One of the statements is a `return`.
pub open spec fn some_return(ss: Seq<Stmt>) -> bool {
    exists|i: int| 0 <= i < ss.len() && (#[trigger] ss[i]).kind is Return
}

proof fn returns_of_both(a: Seq<Stmt>, b: Seq<Stmt>)
    ensures
        some_return(a + b) <==> some_return(a) || some_return(b),
{
    let c = a + b;
    if some_return(a) {
        let i = choose|i: int| 0 <= i < a.len() && (#[trigger] a[i]).kind is Return;
        assert(c[i].kind is Return);
    }
    if some_return(b) {
        let i = choose|i: int| 0 <= i < b.len() && (#[trigger] b[i]).kind is Return;
        assert(c[a.len() + i].kind is Return);
    }
    if some_return(c) {
        let i = choose|i: int| 0 <= i < c.len() && (#[trigger] c[i]).kind is Return;
        if i < a.len() {
            assert(a[i].kind is Return);
        } else {
            assert(b[i - a.len()].kind is Return);
        }
    }
}

proof fn a_statement_returns(s: Stmt)
    ensures
        has_return(s) <==> some_return(statements(s)),
    decreases s, 0nat,
{
    let own = seq![s];
    assert(some_return(own) <==> s.kind is Return) by {
        assert(own[0] == s);
        if s.kind is Return {
            assert(own[0].kind is Return);
        }
    }
    match s.kind {
        StmtKind::Sigma { body, .. } => {
            bodies_return_where_a_statement_does(body.stmts@);
            returns_of_both(own, statements_of(body.stmts@));
        },
        StmtKind::If { then_block, else_block, .. } => {
            bodies_return_where_a_statement_does(then_block.stmts@);
            let yes = statements_of(then_block.stmts@);
            match else_block {
                Some(b) => {
                    bodies_return_where_a_statement_does(b.stmts@);
                    returns_of_both(yes, statements_of(b.stmts@));
                    returns_of_both(own, yes + statements_of(b.stmts@));
                },
                None => returns_of_both(own, yes),
            }
        },
        _ => {
            assert(statements(s) =~= own);
        },
    }
}

/// A body holds a `return` exactly where one of its statements, in whatever
/// block it stands, is one.
pub proof fn bodies_return_where_a_statement_does(ss: Seq<Stmt>)
    ensures
        any_has_return(ss) <==> some_return(statements_of(ss)),
    decreases ss, 1nat,
{
    if ss.len() > 0 {
        bodies_return_where_a_statement_does(ss.drop_last());
        a_statement_returns(ss.last());
        returns_of_both(statements_of(ss.drop_last()), statements(ss.last()));
    }
}

} // verus!
