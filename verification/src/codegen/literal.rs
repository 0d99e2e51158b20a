//! Integer literals: their value, their suffix and the IR type it names.
use vstd::prelude::*;

use crate::ast::{Expr, ExprKind};
use crate::codegen::error::{CodegenError, CodegenErrorView};
use crate::text::{
    char_is_alnum, char_is_digit_in, chars_of, dec, decimal, is_alnum, is_digit_in, numeral_value,
    parse_unsigned, remove_char, same, slice, without,
};

verus! {

/// Where the run of ASCII letters and digits at the end of `s` starts.
pub open spec fn run_start(s: Seq<char>) -> int
    decreases s.len(),
{
    if s.len() > 0 && is_alnum(s.last()) {
        run_start(s.drop_last())
    } else {
        s.len() as int
    }
}

/// The first place at or after `from` that holds no digit in `radix`, or the end.
pub open spec fn first_non_digit(s: Seq<char>, radix: nat, from: int) -> int
    decreases s.len() - from,
{
    if from < 0 || from >= s.len() {
        s.len() as int
    } else if !is_digit_in(s[from], radix) {
        from
    } else {
        first_non_digit(s, radix, from + 1)
    }
}

/// Where the type suffix of a number in `radix` starts: at the first character
/// of the trailing alphanumeric run that is no digit. Without one, at the end.
pub open spec fn suffix_start(s: Seq<char>, radix: nat) -> int {
    first_non_digit(s, radix, run_start(s))
}

proof fn run_start_bounds(s: Seq<char>)
    ensures
        0 <= run_start(s) <= s.len(),
    decreases s.len(),
{
    if s.len() > 0 && is_alnum(s.last()) {
        run_start_bounds(s.drop_last());
    }
}

/// Where the type suffix starts.
fn find_suffix(cs: &Vec<char>, radix: u64) -> (r: usize)
    ensures
        r == suffix_start(cs@, radix as nat),
        r <= cs@.len(),
{
    let mut i: usize = cs.len();
    assert(cs@.take(i as int) =~= cs@);
    while i > 0 && char_is_alnum(cs[i - 1])
        invariant
            i <= cs@.len(),
            run_start(cs@) == run_start(cs@.take(i as int)),
        decreases i,
    {
        assert(cs@.take(i as int).drop_last() =~= cs@.take(i - 1));
        i = i - 1;
    }
    assert(run_start(cs@) == i);
    while i < cs.len() && char_is_digit_in(cs[i], radix)
        invariant
            i <= cs@.len(),
            suffix_start(cs@, radix as nat) == first_non_digit(cs@, radix as nat, i as int),
        decreases cs@.len() - i,
    {
        i = i + 1;
    }
    i
}

/// The IR type that a suffix names; without a suffix, the default integer type.
pub open spec fn suffix_ir(suffix: Seq<char>) -> Option<Seq<char>> {
    if suffix == ""@ || suffix == "u32"@ || suffix == "i32"@ {
        Some("i32"@)
    } else if suffix == "u8"@ || suffix == "i8"@ {
        Some("i8"@)
    } else if suffix == "u16"@ || suffix == "i16"@ {
        Some("i16"@)
    } else if suffix == "u64"@ || suffix == "i64"@ || suffix == "usize"@ || suffix == "isize"@ {
        Some("i64"@)
    } else {
        None
    }
}

/// The suffix names a signed integer type.
pub open spec fn suffix_signed(suffix: Seq<char>) -> bool {
    suffix == "i8"@ || suffix == "i16"@ || suffix == "i32"@ || suffix == "i64"@ || suffix
        == "isize"@
}

/// The greatest number that a literal with the suffix may write. A minus sign
/// is no part of a literal, so that a signed type takes one more than it holds.
/// Without a suffix any unsigned number of 64 bits may be meant.
pub open spec fn suffix_max(suffix: Seq<char>) -> nat {
    if suffix == "u8"@ {
        0xff
    } else if suffix == "i8"@ {
        0x80
    } else if suffix == "u16"@ {
        0xffff
    } else if suffix == "i16"@ {
        0x8000
    } else if suffix == "u32"@ {
        0xffff_ffff
    } else if suffix == "i32"@ {
        0x8000_0000
    } else if suffix == "i64"@ || suffix == "isize"@ {
        0x8000_0000_0000_0000
    } else {
        0xffff_ffff_ffff_ffff
    }
}

fn suffix_limit(suffix: &str) -> (r: u64)
    ensures
        r == suffix_max(suffix@),
{
    if same(suffix, "u8") {
        0xff
    } else if same(suffix, "i8") {
        0x80
    } else if same(suffix, "u16") {
        0xffff
    } else if same(suffix, "i16") {
        0x8000
    } else if same(suffix, "u32") {
        0xffff_ffff
    } else if same(suffix, "i32") {
        0x8000_0000
    } else if same(suffix, "i64") || same(suffix, "isize") {
        0x8000_0000_0000_0000
    } else {
        0xffff_ffff_ffff_ffff
    }
}

fn suffix_ir_type(suffix: &str) -> (r: Option<&'static str>)
    ensures
        match r {
            Some(t) => suffix_ir(suffix@) == Some(t@),
            None => suffix_ir(suffix@) is None,
        },
{
    if same(suffix, "") || same(suffix, "u32") || same(suffix, "i32") {
        Some("i32")
    } else if same(suffix, "u8") || same(suffix, "i8") {
        Some("i8")
    } else if same(suffix, "u16") || same(suffix, "i16") {
        Some("i16")
    } else if same(suffix, "u64") || same(suffix, "i64") || same(suffix, "usize") || same(
        suffix,
        "isize",
    ) {
        Some("i64")
    } else {
        None
    }
}

pub fn suffix_is_signed(suffix: &str) -> (r: bool)
    ensures
        r == suffix_signed(suffix@),
{
    same(suffix, "i8") || same(suffix, "i16") || same(suffix, "i32") || same(suffix, "i64") || same(
        suffix,
        "isize",
    )
}

/// `s` starts with `0` and then one of the two given characters.
pub open spec fn has_prefix(s: Seq<char>, lower: char, upper: char) -> bool {
    s.len() >= 2 && s[0] == '0' && (s[1] == lower || s[1] == upper)
}

fn starts_with_prefix(cs: &Vec<char>, lower: char, upper: char) -> (r: bool)
    ensures
        r == has_prefix(cs@, lower, upper),
{
    cs.len() >= 2 && cs[0] == '0' && (cs[1] == lower || cs[1] == upper)
}

/// The digits with their suffix, after any `0x` or `0b`, and the radix.
pub open spec fn literal_body(t: Seq<char>) -> (Seq<char>, nat) {
    if has_prefix(t, 'x', 'X') {
        (t.skip(2), 16)
    } else if has_prefix(t, 'b', 'B') {
        (t.skip(2), 2)
    } else {
        (t, 10)
    }
}

/// The type suffix of an integer literal, empty where it has none.
pub open spec fn suffix_of(literal: Seq<char>) -> Seq<char> {
    let (body, radix) = literal_body(without(literal, '_'));
    body.skip(suffix_start(body, radix))
}

/// The IR type of an integer literal: the one its suffix names, else `i32`.
pub open spec fn literal_ir(literal: Seq<char>) -> Seq<char> {
    match suffix_ir(suffix_of(literal)) {
        Some(t) => t,
        None => "i32"@,
    }
}

/// A literal split at its suffix: the digits, the suffix.
fn split_body(t: &str, from: usize, radix: u64) -> (r: (String, String))
    requires
        from <= t@.len(),
    ensures
        ({
            let body = t@.skip(from as int);
            let k = suffix_start(body, radix as nat);
            r.0@ == body.take(k) && r.1@ == body.skip(k)
        }),
{
    let total: usize = t.unicode_len();
    let body = slice(t, from, total);
    assert(body@ =~= t@.skip(from as int));
    let cs = chars_of(body.as_str());
    let n: usize = cs.len();
    let k: usize = find_suffix(&cs, radix);
    let digits = slice(body.as_str(), 0, k);
    let suffix = slice(body.as_str(), k, n);
    assert(digits@ =~= body@.take(k as int));
    assert(suffix@ =~= body@.skip(k as int));
    (digits, suffix)
}

/// The type suffix of an integer literal (`"u32"`, `"isize"`), or the empty text.
pub fn literal_suffix(literal: &str) -> (r: String)
    ensures
        r@ == suffix_of(literal@),
{
    let t = remove_char(literal, '_');
    let cs = chars_of(t.as_str());
    if starts_with_prefix(&cs, 'x', 'X') {
        split_body(t.as_str(), 2, 16).1
    } else if starts_with_prefix(&cs, 'b', 'B') {
        split_body(t.as_str(), 2, 2).1
    } else {
        assert(t@.skip(0) =~= t@);
        split_body(t.as_str(), 0, 10).1
    }
}

/// The IR type of an integer literal.
pub fn int_literal_ir_type(literal: &str) -> (r: &'static str)
    ensures
        r@ == literal_ir(literal@),
{
    let suffix = literal_suffix(literal);
    match suffix_ir_type(suffix.as_str()) {
        Some(t) => t,
        None => "i32",
    }
}

// ─── Values ────────────────────────────────────────────────────────────────

pub open spec fn bad_literal(literal: Seq<char>, reason: Seq<char>) -> CodegenErrorView {
    CodegenErrorView::BadLiteral { literal, reason }
}

/// The value text and the IR type of a decimal literal.
///
/// The value text is the literal's own digits: IR takes them as they are. The
/// number must fit the suffix.
pub open spec fn int_literal(s: Seq<char>) -> Result<(Seq<char>, Seq<char>), CodegenErrorView> {
    let t = without(s, '_');
    let k = suffix_start(t, 10);
    if k == 0 {
        Err(bad_literal(s, "no digits before suffix"@))
    } else {
        match suffix_ir(t.skip(k)) {
            None => Err(bad_literal(s, "unrecognised integer suffix"@)),
            Some(ty) => match numeral_value(t.take(k), 10, suffix_max(t.skip(k))) {
                None => Err(bad_literal(s, "out-of-range value"@)),
                Some(_) => Ok((t.take(k), ty)),
            },
        }
    }
}

/// The value text and the IR type of a literal that writes a `u64` in `radix`
/// after a two-character prefix. The number must fit the suffix.
pub open spec fn radix_literal(
    s: Seq<char>,
    radix: nat,
    too_large: Seq<char>,
    bad_suffix: Seq<char>,
) -> Result<(Seq<char>, Seq<char>), CodegenErrorView> {
    let body = without(s, '_').skip(2);
    let k = suffix_start(body, radix);
    match numeral_value(body.take(k), radix, u64::MAX as nat) {
        None => Err(bad_literal(s, too_large)),
        Some(v) => match suffix_ir(body.skip(k)) {
            None => Err(bad_literal(s, bad_suffix)),
            Some(ty) => if v > suffix_max(body.skip(k)) {
                Err(bad_literal(s, "out-of-range value"@))
            } else {
                Ok((dec(v), ty))
            },
        },
    }
}

/// The value text and the IR type of a `0x` literal.
pub open spec fn hex_literal(s: Seq<char>) -> Result<(Seq<char>, Seq<char>), CodegenErrorView> {
    if !has_prefix(without(s, '_'), 'x', 'X') {
        Err(bad_literal(s, "hex literal must start with `0x`"@))
    } else {
        radix_literal(s, 16, "hex digits don't fit in u64"@, "unrecognised hex suffix"@)
    }
}

/// The value text and the IR type of a `0b` literal.
pub open spec fn bin_literal(s: Seq<char>) -> Result<(Seq<char>, Seq<char>), CodegenErrorView> {
    if !has_prefix(without(s, '_'), 'b', 'B') {
        Err(bad_literal(s, "binary literal must start with `0b`"@))
    } else {
        radix_literal(s, 2, "binary digits don't fit in u64"@, "unrecognised binary suffix"@)
    }
}

/// A parsed literal as a mathematical value.
pub open spec fn literal_view(r: Result<(String, &'static str), CodegenError>) -> Result<
    (Seq<char>, Seq<char>),
    CodegenErrorView,
> {
    match r {
        Ok((v, t)) => Ok((v@, t@)),
        Err(e) => Err(e@),
    }
}

/// Reads a decimal literal.
pub fn parse_int_literal(literal: &str) -> (r: Result<(String, &'static str), CodegenError>)
    ensures
        literal_view(r) == int_literal(literal@),
{
    let t = remove_char(literal, '_');
    assert(t@.skip(0) =~= t@);
    let (digits, suffix) = split_body(t.as_str(), 0, 10);
    proof {
        run_start_bounds(t@);
        first_non_digit_bounds(t@, 10, run_start(t@));
    }
    if digits.as_str().is_empty() {
        return Err(
            CodegenError::BadLiteral {
                literal: literal.to_owned(),
                reason: "no digits before suffix",
            },
        );
    }
    match suffix_ir_type(suffix.as_str()) {
        None => Err(
            CodegenError::BadLiteral {
                literal: literal.to_owned(),
                reason: "unrecognised integer suffix",
            },
        ),
        Some(ty) => match parse_unsigned(
            digits.as_str(),
            10,
            suffix_limit(suffix.as_str()),
        ) {
            None => Err(
                CodegenError::BadLiteral {
                    literal: literal.to_owned(),
                    reason: "out-of-range value",
                },
            ),
            Some(_) => Ok((digits, ty)),
        },
    }
}

proof fn first_non_digit_bounds(s: Seq<char>, radix: nat, from: int)
    requires
        0 <= from <= s.len(),
    ensures
        from <= first_non_digit(s, radix, from) <= s.len(),
    decreases s.len() - from,
{
    if from < s.len() && is_digit_in(s[from], radix) {
        first_non_digit_bounds(s, radix, from + 1);
    }
}

fn parse_radix_literal(
    literal: &str,
    t: &str,
    radix: u64,
    too_large: &'static str,
    bad_suffix: &'static str,
) -> (r: Result<(String, &'static str), CodegenError>)
    requires
        t@ == without(literal@, '_'),
        t@.len() >= 2,
        2 <= radix <= 36,
    ensures
        literal_view(r) == radix_literal(literal@, radix as nat, too_large@, bad_suffix@),
{
    let (digits, suffix) = split_body(t, 2, radix);
    match parse_unsigned(digits.as_str(), radix, u64::MAX) {
        None => Err(
            CodegenError::BadLiteral { literal: literal.to_owned(), reason: too_large },
        ),
        Some(v) => match suffix_ir_type(suffix.as_str()) {
            None => Err(
                CodegenError::BadLiteral { literal: literal.to_owned(), reason: bad_suffix },
            ),
            Some(ty) => if v > suffix_limit(suffix.as_str()) {
                Err(
                    CodegenError::BadLiteral {
                        literal: literal.to_owned(),
                        reason: "out-of-range value",
                    },
                )
            } else {
                Ok((decimal(v as u128), ty))
            },
        },
    }
}

/// Reads a `0x` literal.
pub fn parse_hex_literal(literal: &str) -> (r: Result<(String, &'static str), CodegenError>)
    ensures
        literal_view(r) == hex_literal(literal@),
{
    let t = remove_char(literal, '_');
    let cs = chars_of(t.as_str());
    if !starts_with_prefix(&cs, 'x', 'X') {
        return Err(
            CodegenError::BadLiteral {
                literal: literal.to_owned(),
                reason: "hex literal must start with `0x`",
            },
        );
    }
    parse_radix_literal(
        literal,
        t.as_str(),
        16,
        "hex digits don't fit in u64",
        "unrecognised hex suffix",
    )
}

/// Reads a `0b` literal.
pub fn parse_bin_literal(literal: &str) -> (r: Result<(String, &'static str), CodegenError>)
    ensures
        literal_view(r) == bin_literal(literal@),
{
    let t = remove_char(literal, '_');
    let cs = chars_of(t.as_str());
    if !starts_with_prefix(&cs, 'b', 'B') {
        return Err(
            CodegenError::BadLiteral {
                literal: literal.to_owned(),
                reason: "binary literal must start with `0b`",
            },
        );
    }
    parse_radix_literal(
        literal,
        t.as_str(),
        2,
        "binary digits don't fit in u64",
        "unrecognised binary suffix",
    )
}

/// The number that an address literal writes: hexadecimal after `0x`, binary
/// after `0b`, else decimal.
pub open spec fn address_value(s: Seq<char>) -> Option<nat> {
    let (body, radix) = literal_body(without(s, '_'));
    numeral_value(body, radix, u64::MAX as nat)
}

/// Reads an address literal such as `0x4000_0000`.
pub fn parse_address_literal(s: &str) -> (r: Option<u64>)
    ensures
        match r {
            Some(v) => address_value(s@) == Some(v as nat),
            None => address_value(s@) is None,
        },
{
    let t = remove_char(s, '_');
    let cs = chars_of(t.as_str());
    let n: usize = cs.len();
    if starts_with_prefix(&cs, 'x', 'X') {
        let body = slice(t.as_str(), 2, n);
        assert(body@ =~= t@.skip(2));
        parse_unsigned(body.as_str(), 16, u64::MAX)
    } else if starts_with_prefix(&cs, 'b', 'B') {
        let body = slice(t.as_str(), 2, n);
        assert(body@ =~= t@.skip(2));
        parse_unsigned(body.as_str(), 2, u64::MAX)
    } else {
        parse_unsigned(t.as_str(), 10, u64::MAX)
    }
}

/// The value text of an integer literal expression.
pub open spec fn literal_text(e: Expr) -> Option<Seq<char>> {
    match e.kind {
        ExprKind::IntLit(s) => match int_literal(s@) {
            Ok((v, _)) => Some(v),
            Err(_) => None,
        },
        ExprKind::HexLit(s) => match hex_literal(s@) {
            Ok((v, _)) => Some(v),
            Err(_) => None,
        },
        ExprKind::BinLit(s) => match bin_literal(s@) {
            Ok((v, _)) => Some(v),
            Err(_) => None,
        },
        _ => None,
    }
}

/// The count that the expression in `[value; count]` writes, where it is a
/// literal, perhaps in parentheses, that fits a `usize`.
pub open spec fn count_value(e: Expr) -> Option<nat>
    decreases e,
{
    match e.kind {
        ExprKind::Paren(inner) => count_value(*inner),
        _ => match literal_text(e) {
            Some(v) => numeral_value(v, 10, usize::MAX as nat),
            None => None,
        },
    }
}

/// Reads the count of an array-repeat expression.
pub fn const_int_count(e: &Expr) -> (r: Option<usize>)
    ensures
        match r {
            Some(n) => count_value(*e) == Some(n as nat),
            None => count_value(*e) is None,
        },
    decreases e,
{
    let parsed = match &e.kind {
        ExprKind::Paren(inner) => {
            return const_int_count(inner);
        },
        ExprKind::IntLit(s) => parse_int_literal(s.as_str()),
        ExprKind::HexLit(s) => parse_hex_literal(s.as_str()),
        ExprKind::BinLit(s) => parse_bin_literal(s.as_str()),
        _ => {
            return None;
        },
    };
    match parsed {
        Ok((v, _)) => match parse_unsigned(v.as_str(), 10, usize::MAX as u64) {
            Some(n) => Some(n as usize),
            None => None,
        },
        Err(_) => None,
    }
}

} // verus!
