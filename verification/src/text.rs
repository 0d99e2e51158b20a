//! Text utilities: comparison, decimal rendering, searching and number parsing.
//!
//! A piece of text is modelled by its sequence of characters.
use vstd::prelude::*;
use vstd::string::StringSliceAdditionalSpecFns;
use vstd::utf8::encode_utf8_decode_utf8;

verus! {

broadcast use {vstd::string::group_string_axioms, vstd::seq::group_seq_axioms};

/// True iff the two texts hold the same characters.
pub fn same(a: &str, b: &str) -> (r: bool)
    ensures
        r == (a@ == b@),
{
    let x = a.as_bytes();
    let y = b.as_bytes();
    proof {
        encode_utf8_decode_utf8(a@);
        encode_utf8_decode_utf8(b@);
    }
    if x.len() != y.len() {
        return false;
    }
    let mut i: usize = 0;
    while i < x.len()
        invariant
            i <= x.len(),
            x@ == a.spec_bytes(),
            y@ == b.spec_bytes(),
            x@.len() == y@.len(),
            forall|j: int| 0 <= j < i ==> x@[j] == y@[j],
        decreases x.len() - i,
    {
        if x[i] != y[i] {
            return false;
        }
        i = i + 1;
    }
    assert(x@ =~= y@);
    true
}

/// The characters of a text.
pub fn chars_of(s: &str) -> (r: Vec<char>)
    ensures
        r@ == s@,
{
    let mut out: Vec<char> = Vec::new();
    for c in it: s.chars()
        invariant
            out@ == it.seq().take(it.index()),
            it.seq() == s@,
    {
        out.push(c);
    }
    assert(out@ =~= s@);
    out
}

/// The part of `s` from character `from` up to, not including, character `to`.
pub fn slice(s: &str, from: usize, to: usize) -> (r: String)
    requires
        from <= to <= s@.len(),
    ensures
        r@ == s@.subrange(from as int, to as int),
{
    s.substring_char(from, to).to_owned()
}

// ─── Character classes ─────────────────────────────────────────────────────

/// ASCII decimal digit.
pub open spec fn is_digit(c: char) -> bool {
    '0' <= c && c <= '9'
}

/// ASCII letter.
pub open spec fn is_alpha(c: char) -> bool {
    ('a' <= c && c <= 'z') || ('A' <= c && c <= 'Z')
}

/// ASCII letter or digit.
pub open spec fn is_alnum(c: char) -> bool {
    is_alpha(c) || is_digit(c)
}

/// Unicode white space.
pub open spec fn is_space(c: char) -> bool {
    let u = c as u32;
    (9 <= u <= 13) || u == 32 || u == 133 || u == 160 || u == 5760 || (8192 <= u <= 8202) || u
        == 8232 || u == 8233 || u == 8239 || u == 8287 || u == 12288
}

pub fn char_is_digit(c: char) -> (r: bool)
    ensures
        r == is_digit(c),
{
    '0' <= c && c <= '9'
}

pub fn char_is_alnum(c: char) -> (r: bool)
    ensures
        r == is_alnum(c),
{
    ('a' <= c && c <= 'z') || ('A' <= c && c <= 'Z') || ('0' <= c && c <= '9')
}

pub fn char_is_space(c: char) -> (r: bool)
    ensures
        r == is_space(c),
{
    let u: u32 = c as u32;
    (9 <= u && u <= 13) || u == 32 || u == 133 || u == 160 || u == 5760 || (8192 <= u && u <= 8202)
        || u == 8232 || u == 8233 || u == 8239 || u == 8287 || u == 12288
}

// ─── Decimal rendering ─────────────────────────────────────────────────────

/// The character of a single decimal digit.
pub open spec fn digit_char(d: nat) -> char {
    ('0' as u32 + d) as u32 as char
}

/// The decimal numeral of `n`, without leading zeros.
pub open spec fn dec(n: nat) -> Seq<char>
    decreases n,
{
    if n < 10 {
        seq![digit_char(n)]
    } else {
        dec(n / 10).push(digit_char(n % 10))
    }
}

fn digit_text(d: u8) -> (r: &'static str)
    requires
        d < 10,
    ensures
        r@ == seq![digit_char(d as nat)],
{
    let r = if d == 0 {
        "0"
    } else if d == 1 {
        "1"
    } else if d == 2 {
        "2"
    } else if d == 3 {
        "3"
    } else if d == 4 {
        "4"
    } else if d == 5 {
        "5"
    } else if d == 6 {
        "6"
    } else if d == 7 {
        "7"
    } else if d == 8 {
        "8"
    } else {
        "9"
    };
    proof {
        reveal_strlit("0");
        reveal_strlit("1");
        reveal_strlit("2");
        reveal_strlit("3");
        reveal_strlit("4");
        reveal_strlit("5");
        reveal_strlit("6");
        reveal_strlit("7");
        reveal_strlit("8");
        reveal_strlit("9");
        assert(r@ =~= seq![digit_char(d as nat)]);
    }
    r
}

/// A natural number without an upper bound, kept as decimal digits.
///
/// The numbering of generated names counts with it, so that no program is too
/// long to number.
pub struct Counter {
    /// Least significant digit first.
    digits: Vec<u8>,
}

/// The number that digits denote, least significant first.
pub open spec fn digits_value(ds: Seq<u8>) -> nat
    decreases ds.len(),
{
    if ds.len() == 0 {
        0
    } else {
        ds[0] as nat + 10 * digits_value(ds.drop_first())
    }
}

proof fn digits_value_push(ds: Seq<u8>, d: u8)
    ensures
        digits_value(ds.push(d)) == digits_value(ds) + d * pow10(ds.len()),
    decreases ds.len(),
{
    if ds.len() == 0 {
        assert(ds.push(d).drop_first() =~= ds);
        assert(digits_value(ds.push(d)) == d as nat + 10 * digits_value(ds));
        assert(d * 1 == d);
    } else {
        digits_value_push(ds.drop_first(), d);
        assert(ds.push(d).drop_first() =~= ds.drop_first().push(d));
        let p = pow10((ds.len() - 1) as nat);
        assert(10 * (d * p) == d * (10 * p)) by (nonlinear_arith);
    }
}

spec fn pow10(k: nat) -> nat
    decreases k,
{
    if k == 0 {
        1
    } else {
        10 * pow10((k - 1) as nat)
    }
}

/// The digits are decimal and the leading one is not a superfluous zero.
spec fn digits_normal(ds: Seq<u8>) -> bool {
    &&& ds.len() > 0
    &&& forall|i: int| 0 <= i < ds.len() ==> ds[i] < 10
    &&& ds.len() > 1 ==> ds.last() > 0
}

/// The characters of digits given least significant first.
spec fn digits_chars(ds: Seq<u8>) -> Seq<char> {
    Seq::new(ds.len(), |i: int| digit_char(ds[ds.len() - 1 - i] as nat))
}

proof fn digits_chars_dec(ds: Seq<u8>)
    requires
        digits_normal(ds),
    ensures
        digits_chars(ds) == dec(digits_value(ds)),
        ds.last() > 0 ==> digits_value(ds) > 0,
    decreases ds.len(),
{
    let n = digits_value(ds);
    let t = ds.drop_first();
    if ds.len() == 1 {
        assert(digits_value(t) == 0);
        assert(digits_chars(ds) =~= seq![digit_char(n)]);
    } else {
        assert(t.last() == ds.last());
        assert forall|i: int| 0 <= i < t.len() implies t[i] < 10 by {
            assert(t[i] == ds[i + 1]);
        }
        digits_chars_dec(t);
        assert(n / 10 == digits_value(t) && n % 10 == ds[0]);
        assert(digits_chars(ds) =~= digits_chars(t).push(digit_char(ds[0] as nat)));
    }
}

impl View for Counter {
    type V = nat;

    closed spec fn view(&self) -> nat {
        digits_value(self.digits@)
    }
}

impl Counter {
    #[verifier::type_invariant]
    spec fn wf(self) -> bool {
        digits_normal(self.digits@)
    }

    /// Zero.
    pub fn zero() -> (r: Counter)
        ensures
            r@ == 0,
    {
        let digits: Vec<u8> = vec![0];
        proof {
            assert(digits_value(digits@.drop_first()) == 0);
        }
        Counter { digits }
    }

    /// Adds one.
    pub fn step(&mut self)
        ensures
            final(self)@ == old(self)@ + 1,
    {
        proof {
            use_type_invariant(&*self);
        }
        let mut ds: Vec<u8> = Vec::new();
        let mut i: usize = 0;
        let mut carry: u8 = 1;
        let ghost src = self.digits@;
        while i < self.digits.len()
            invariant
                0 <= i <= src.len(),
                src == self.digits@,
                digits_normal(src),
                ds@.len() == i,
                carry <= 1,
                forall|j: int| 0 <= j < i ==> ds@[j] < 10,
                digits_value(ds@) + carry * pow10(i as nat) == digits_value(src.take(i as int)) + 1,
                i > 0 && carry == 0 ==> ds@[i - 1] > 0 || src[i - 1] == ds@[i - 1],
                carry == 0 ==> i > 0,
            decreases src.len() - i,
        {
            let d: u8 = self.digits[i];
            let ghost before = ds@;
            let ghost p = pow10(i as nat);
            let ghost c0 = carry;
            proof {
                digits_value_push(src.take(i as int), d);
                assert(src.take(i as int + 1) =~= src.take(i as int).push(d));
            }
            if d + carry == 10 {
                ds.push(0);
                carry = 1;
                proof {
                    digits_value_push(before, 0);
                    assert(1 * pow10((i + 1) as nat) == d * p + c0 * p) by (nonlinear_arith)
                        requires
                            pow10((i + 1) as nat) == 10 * p,
                            d + c0 == 10,
                    ;
                    assert(0 * p == 0);
                }
            } else {
                let e: u8 = d + carry;
                ds.push(e);
                carry = 0;
                proof {
                    digits_value_push(before, e);
                    assert(e * p == d * p + c0 * p) by (nonlinear_arith)
                        requires
                            e == d + c0,
                    ;
                    assert(0 * pow10((i + 1) as nat) == 0);
                }
            }
            i = i + 1;
        }
        assert(src.take(src.len() as int) =~= src);
        if carry == 1 {
            proof {
                digits_value_push(ds@, 1);
            }
            ds.push(1);
        } else {
            assert(0 * pow10(i as nat) == 0);
            assert(ds@.last() == ds@[i - 1]);
            assert(src.last() == src[i - 1]);
        }
        self.digits = ds;
    }

    /// The decimal numeral.
    pub fn text(&self) -> (r: String)
        ensures
            r@ == dec(self@),
    {
        proof {
            use_type_invariant(self);
            digits_chars_dec(self.digits@);
        }
        let mut out = String::new();
        let n: usize = self.digits.len();
        let mut i: usize = 0;
        while i < n
            invariant
                i <= n == self.digits@.len(),
                digits_normal(self.digits@),
                out@ == digits_chars(self.digits@).take(i as int),
            decreases n - i,
        {
            out.append(digit_text(self.digits[n - 1 - i]));
            assert(out@ =~= digits_chars(self.digits@).take(i as int + 1));
            i = i + 1;
        }
        assert(out@ =~= digits_chars(self.digits@));
        out
    }
}

/// The decimal numeral of `n`.
pub fn decimal(n: u128) -> (r: String)
    ensures
        r@ == dec(n as nat),
    decreases n,
{
    if n < 10 {
        digit_text(n as u8).to_owned()
    } else {
        let mut out = decimal(n / 10);
        out.append(digit_text((n % 10) as u8));
        assert(out@ =~= dec(n as nat / 10).push(digit_char(n as nat % 10)));
        out
    }
}

// ─── Searching ─────────────────────────────────────────────────────────────

/// `needle` stands in `hay` at character `i`.
pub open spec fn occurs_at(hay: Seq<char>, needle: Seq<char>, i: int) -> bool {
    &&& 0 <= i
    &&& i + needle.len() <= hay.len()
    &&& hay.subrange(i, i + needle.len()) == needle
}

/// `needle` stands somewhere in `hay`.
pub open spec fn contains(hay: Seq<char>, needle: Seq<char>) -> bool {
    exists|i: int| occurs_at(hay, needle, i)
}

/// Whether `needle` stands in `hay` at character `at`.
pub fn stands_at(hay: &Vec<char>, needle: &Vec<char>, at: usize) -> (r: bool)
    requires
        at <= hay@.len(),
    ensures
        r == occurs_at(hay@, needle@, at as int),
{
    let n: usize = hay.len();
    if needle.len() > n - at {
        return false;
    }
    let mut k: usize = 0;
    while k < needle.len()
        invariant
            k <= needle@.len(),
            at + needle@.len() <= n == hay@.len(),
            forall|j: int| 0 <= j < k ==> hay@[at + j] == needle@[j],
        decreases needle@.len() - k,
    {
        if hay[at + k] != needle[k] {
            proof {
                assert(hay@.subrange(at as int, at + needle@.len())[k as int] == hay@[at + k]);
            }
            return false;
        }
        k = k + 1;
    }
    assert(hay@.subrange(at as int, at + needle@.len()) =~= needle@);
    true
}

/// The first place at or after `from` where `needle` stands in `hay`.
pub open spec fn find_first(hay: Seq<char>, needle: Seq<char>, from: int) -> Option<int>
    decreases hay.len() + 1 - from,
{
    if from + needle.len() > hay.len() {
        None
    } else if occurs_at(hay, needle, from) {
        Some(from)
    } else {
        find_first(hay, needle, from + 1)
    }
}

/// What is found is the first occurrence, and nothing is found only where there is none.
pub proof fn find_first_is_first(hay: Seq<char>, needle: Seq<char>, from: int)
    requires
        0 <= from,
    ensures
        match find_first(hay, needle, from) {
            Some(i) => {
                &&& from <= i
                &&& occurs_at(hay, needle, i)
                &&& forall|j: int| from <= j < i ==> !occurs_at(hay, needle, j)
            },
            None => forall|j: int| from <= j ==> !occurs_at(hay, needle, j),
        },
    decreases hay.len() + 1 - from,
{
    if from + needle.len() <= hay.len() && !occurs_at(hay, needle, from) {
        find_first_is_first(hay, needle, from + 1);
    }
}

/// The first place at or after `from` where `needle` stands in `hay`.
pub fn find_from(hay: &Vec<char>, needle: &Vec<char>, from: usize) -> (r: Option<usize>)
    requires
        from <= hay@.len(),
    ensures
        match r {
            Some(i) => find_first(hay@, needle@, from as int) == Some(i as int),
            None => find_first(hay@, needle@, from as int) is None,
        },
{
    let mut i: usize = from;
    loop
        invariant
            from <= i <= hay@.len(),
            find_first(hay@, needle@, from as int) == find_first(hay@, needle@, i as int),
        decreases hay@.len() - i,
    {
        if needle.len() > hay.len() - i {
            return None;
        }
        if stands_at(hay, needle, i) {
            return Some(i);
        }
        if i == hay.len() {
            assert(find_first(hay@, needle@, i + 1) is None);
            return None;
        }
        i = i + 1;
    }
}

/// Whether `needle` stands somewhere in `hay`.
pub fn has(hay: &str, needle: &str) -> (r: bool)
    ensures
        r == contains(hay@, needle@),
{
    let h = chars_of(hay);
    let n = chars_of(needle);
    proof {
        find_first_is_first(hay@, needle@, 0);
    }
    find_from(&h, &n, 0).is_some()
}

/// `s` without white space at either end.
pub open spec fn trimmed(s: Seq<char>) -> Seq<char>
    decreases s.len(),
{
    if s.len() > 0 && is_space(s[0]) {
        trimmed(s.drop_first())
    } else if s.len() > 0 && is_space(s.last()) {
        trimmed(s.drop_last())
    } else {
        s
    }
}

/// `s` without the characters `c`.
pub open spec fn without(s: Seq<char>, c: char) -> Seq<char>
    decreases s.len(),
{
    if s.len() == 0 {
        s
    } else if s.last() == c {
        without(s.drop_last(), c)
    } else {
        without(s.drop_last(), c).push(s.last())
    }
}

/// Removes every `c` from `s`.
pub fn remove_char(s: &str, c: char) -> (r: String)
    ensures
        r@ == without(s@, c),
{
    let cs = chars_of(s);
    let mut out = String::new();
    let mut i: usize = 0;
    assert(cs@.take(0) =~= Seq::<char>::empty());
    while i < cs.len()
        invariant
            i <= cs@.len(),
            cs@ == s@,
            out@ == without(cs@.take(i as int), c),
        decreases cs@.len() - i,
    {
        proof {
            assert(cs@.take(i as int + 1).drop_last() =~= cs@.take(i as int));
        }
        if cs[i] != c {
            let ghost before = out@;
            out.append(s.substring_char(i, i + 1));
            assert(out@ =~= before.push(cs@[i as int]));
        }
        i = i + 1;
    }
    assert(cs@.take(i as int) =~= cs@);
    out
}

/// The parts one after another, with `, ` between.
pub open spec fn join(parts: Seq<Seq<char>>) -> Seq<char>
    decreases parts.len(),
{
    if parts.len() == 0 {
        Seq::empty()
    } else if parts.len() == 1 {
        parts[0]
    } else {
        join(parts.drop_last()) + ", "@ + parts.last()
    }
}

/// Appends one more part to joined parts.
pub fn push_part(out: &mut String, part: &str, Ghost(parts): Ghost<Seq<Seq<char>>>, first: bool)
    requires
        old(out)@ == join(parts),
        first == (parts.len() == 0),
    ensures
        final(out)@ == join(parts.push(part@)),
{
    proof {
        assert(parts.push(part@).drop_last() =~= parts);
    }
    if first {
        out.append(part);
        assert(out@ =~= part@);
    } else {
        out.append(", ");
        out.append(part);
    }
}

// ─── Order ─────────────────────────────────────────────────────────────────

/// Lexicographic order by code point.
pub open spec fn lex_less(a: Seq<char>, b: Seq<char>) -> bool
    decreases a.len(),
{
    if b.len() == 0 {
        false
    } else if a.len() == 0 {
        true
    } else if a[0] != b[0] {
        a[0] < b[0]
    } else {
        lex_less(a.drop_first(), b.drop_first())
    }
}

/// The lexicographic order is irreflexive.
pub proof fn lex_less_irreflexive(a: Seq<char>)
    ensures
        !lex_less(a, a),
    decreases a.len(),
{
    if a.len() > 0 {
        lex_less_irreflexive(a.drop_first());
    }
}

/// The lexicographic order is transitive.
pub proof fn lex_less_transitive(a: Seq<char>, b: Seq<char>, c: Seq<char>)
    requires
        lex_less(a, b),
        lex_less(b, c),
    ensures
        lex_less(a, c),
    decreases a.len(),
{
    if a.len() > 0 && b.len() > 0 && c.len() > 0 && a[0] == b[0] && b[0] == c[0] {
        lex_less_transitive(a.drop_first(), b.drop_first(), c.drop_first());
    }
}

/// Of two different texts one comes before the other.
pub proof fn lex_less_total(a: Seq<char>, b: Seq<char>)
    ensures
        a == b || lex_less(a, b) || lex_less(b, a),
    decreases a.len(),
{
    if a.len() > 0 && b.len() > 0 && a[0] == b[0] {
        lex_less_total(a.drop_first(), b.drop_first());
        if a.drop_first() == b.drop_first() {
            assert(a =~= b) by {
                assert forall|i: int| 0 <= i < a.len() implies a[i] == b[i] by {
                    if i > 0 {
                        assert(a.drop_first()[i - 1] == b.drop_first()[i - 1]);
                    }
                }
            }
        }
    } else if a.len() == 0 && b.len() == 0 {
        assert(a =~= b);
    }
}

/// Whether `a` comes strictly before `b`.
pub fn less(a: &str, b: &str) -> (r: bool)
    ensures
        r == lex_less(a@, b@),
{
    let x = chars_of(a);
    let y = chars_of(b);
    let mut i: usize = 0;
    assert(x@.skip(0) =~= x@);
    assert(y@.skip(0) =~= y@);
    while i < x.len() && i < y.len()
        invariant
            i <= x@.len(),
            i <= y@.len(),
            x@ == a@,
            y@ == b@,
            lex_less(x@, y@) == lex_less(x@.skip(i as int), y@.skip(i as int)),
        decreases x@.len() - i,
    {
        if x[i] != y[i] {
            return x[i] < y[i];
        }
        proof {
            assert(x@.skip(i as int).drop_first() =~= x@.skip(i as int + 1));
            assert(y@.skip(i as int).drop_first() =~= y@.skip(i as int + 1));
        }
        i = i + 1;
    }
    i < y.len()
}

// ─── Numbers ───────────────────────────────────────────────────────────────

/// The value of a character as a digit, if it is one in some radix up to 36.
pub open spec fn digit_of(c: char) -> Option<nat> {
    if '0' <= c && c <= '9' {
        Some((c as u32 - '0' as u32) as nat)
    } else if 'a' <= c && c <= 'z' {
        Some((c as u32 - 'a' as u32 + 10) as nat)
    } else if 'A' <= c && c <= 'Z' {
        Some((c as u32 - 'A' as u32 + 10) as nat)
    } else {
        None
    }
}

/// `c` is a digit in `radix`.
pub open spec fn is_digit_in(c: char, radix: nat) -> bool {
    digit_of(c) is Some && digit_of(c)->0 < radix
}

/// The value of a sequence of digits, most significant first.
pub open spec fn radix_value(s: Seq<char>, radix: nat) -> nat
    decreases s.len(),
{
    if s.len() == 0 {
        0
    } else {
        radix_value(s.drop_last(), radix) * radix + digit_of(s.last()).unwrap_or(0)
    }
}

/// A numeral: an optional `+` and then at least one digit.
pub open spec fn numeral_digits(s: Seq<char>) -> Seq<char> {
    if s.len() > 0 && s[0] == '+' {
        s.skip(1)
    } else {
        s
    }
}

/// The number written in `s`, where `s` is a numeral in `radix` and the number
/// is at most `max`.
pub open spec fn numeral_value(s: Seq<char>, radix: nat, max: nat) -> Option<nat> {
    let ds = numeral_digits(s);
    if ds.len() > 0 && (forall|i: int| 0 <= i < ds.len() ==> is_digit_in(#[trigger] ds[i], radix))
        && radix_value(ds, radix) <= max {
        Some(radix_value(ds, radix))
    } else {
        None
    }
}

proof fn radix_value_monotone(s: Seq<char>, radix: nat, i: int)
    requires
        0 <= i <= s.len(),
        radix >= 1,
    ensures
        radix_value(s.take(i), radix) <= radix_value(s, radix),
    decreases s.len() - i,
{
    if i == s.len() {
        assert(s.take(i) =~= s);
    } else {
        radix_value_monotone(s, radix, i + 1);
        let t = s.take(i + 1);
        assert(t.drop_last() =~= s.take(i));
        let v = radix_value(s.take(i), radix);
        assert(v <= v * radix) by (nonlinear_arith)
            requires
                radix >= 1,
        ;
    }
}

/// Whether `c` is a digit in `radix`.
pub fn char_is_digit_in(c: char, radix: u64) -> (r: bool)
    ensures
        r == is_digit_in(c, radix as nat),
{
    match char_digit(c) {
        Some(d) => d < radix,
        None => false,
    }
}

proof fn radix_value_dec(n: nat)
    ensures
        radix_value(dec(n), 10) == n,
        dec(n).len() > 0,
        forall|i: int| 0 <= i < dec(n).len() ==> is_digit(#[trigger] dec(n)[i]),
    decreases n,
{
    if n < 10 {
        assert(dec(n).drop_last() =~= Seq::<char>::empty());
        assert(radix_value(dec(n).drop_last(), 10) == 0);
        assert(digit_of(digit_char(n)) == Some(n));
    } else {
        radix_value_dec(n / 10);
        assert(dec(n).drop_last() =~= dec(n / 10));
        assert(digit_of(digit_char(n % 10)) == Some(n % 10));
        assert forall|i: int| 0 <= i < dec(n).len() implies is_digit(#[trigger] dec(n)[i]) by {
            if i < dec(n / 10).len() {
                assert(dec(n)[i] == dec(n / 10)[i]);
            }
        }
    }
}

/// A decimal numeral consists of digits, and has at least one.
pub proof fn decimal_is_digits(n: nat)
    ensures
        dec(n).len() > 0,
        forall|i: int| 0 <= i < dec(n).len() ==> is_digit(#[trigger] dec(n)[i]),
{
    radix_value_dec(n);
}

/// Reading back the decimal numeral of a number gives that number.
pub proof fn decimal_reads_back(n: nat, max: nat)
    requires
        n <= max,
    ensures
        numeral_value(dec(n), 10, max) == Some(n),
{
    radix_value_dec(n);
    assert(is_digit(dec(n)[0]));
    assert forall|i: int| 0 <= i < dec(n).len() implies is_digit_in(#[trigger] dec(n)[i], 10) by {
        assert(is_digit(dec(n)[i]));
    }
}

fn char_digit(c: char) -> (r: Option<u64>)
    ensures
        match r {
            Some(d) => digit_of(c) == Some(d as nat) && d < 36,
            None => digit_of(c) is None,
        },
{
    if '0' <= c && c <= '9' {
        Some(c as u64 - '0' as u64)
    } else if 'a' <= c && c <= 'z' {
        Some(c as u64 - 'a' as u64 + 10)
    } else if 'A' <= c && c <= 'Z' {
        Some(c as u64 - 'A' as u64 + 10)
    } else {
        None
    }
}

/// Reads an unsigned number: an optional `+` and then one or more digits.
pub fn parse_unsigned(s: &str, radix: u64, max: u64) -> (r: Option<u64>)
    requires
        2 <= radix <= 36,
    ensures
        match r {
            Some(v) => numeral_value(s@, radix as nat, max as nat) == Some(v as nat),
            None => numeral_value(s@, radix as nat, max as nat) is None,
        },
{
    let cs = chars_of(s);
    let start: usize = if cs.len() > 0 && cs[0] == '+' {
        1
    } else {
        0
    };
    let ghost ds = numeral_digits(s@);
    assert(ds =~= cs@.skip(start as int));
    if start == cs.len() {
        return None;
    }
    let mut v: u64 = 0;
    let mut i: usize = start;
    while i < cs.len()
        invariant
            start <= i <= cs@.len(),
            2 <= radix <= 36,
            ds == cs@.skip(start as int),
            ds == numeral_digits(s@),
            v <= max,
            v == radix_value(ds.take(i - start), radix as nat),
            forall|j: int| 0 <= j < i - start ==> is_digit_in(#[trigger] ds[j], radix as nat),
        decreases cs@.len() - i,
    {
        let ghost k = i - start;
        proof {
            assert(ds[k] == cs@[i as int]);
            assert(ds.take(k + 1).drop_last() =~= ds.take(k));
            assert(ds.take(k + 1).last() == ds[k]);
            radix_value_monotone(ds, radix as nat, k + 1);
        }
        let d: u64 = match char_digit(cs[i]) {
            Some(d) => d,
            None => {
                return None;
            },
        };
        if d >= radix {
            return None;
        }
        proof {
            assert(v * radix <= u64::MAX * 36) by (nonlinear_arith)
                requires
                    v <= u64::MAX,
                    radix <= 36,
            ;
        }
        let w: u128 = v as u128 * radix as u128 + d as u128;
        if w > max as u128 {
            return None;
        }
        v = w as u64;
        i = i + 1;
    }
    assert(ds.take(ds.len() as int) =~= ds);
    Some(v)
}

/// Of two different texts the one comes first that ends where the other goes on,
/// or that has the lesser character at the first place where they differ.
pub proof fn the_first_difference_decides(a: Seq<char>, b: Seq<char>)
    ensures
        lex_less(a, b) <==> exists|k: int|
            {
                &&& 0 <= k <= a.len()
                &&& k < b.len()
                &&& #[trigger] a.take(k) == b.take(k)
                &&& k == a.len() || a[k] < b[k]
            },
    decreases a.len(),
{
    if b.len() > 0 {
        if a.len() == 0 {
            assert(a.take(0) =~= b.take(0));
        } else if a[0] != b[0] {
            if a[0] < b[0] {
                assert(a.take(0) =~= b.take(0));
            }
            assert forall|k: int|
                0 <= k <= a.len() && k < b.len() && #[trigger] a.take(k) == b.take(
                    k,
                ) implies k == 0 by {
                if k > 0 {
                    assert(a.take(k)[0] == b.take(k)[0]);
                }
            }
        } else {
            let x = a.drop_first();
            let y = b.drop_first();
            the_first_difference_decides(x, y);
            if lex_less(x, y) {
                let k = choose|k: int|
                    {
                        &&& 0 <= k <= x.len()
                        &&& k < y.len()
                        &&& #[trigger] x.take(k) == y.take(k)
                        &&& k == x.len() || x[k] < y[k]
                    };
                assert(a.take(k + 1) =~= seq![a[0]] + x.take(k));
                assert(b.take(k + 1) =~= seq![b[0]] + y.take(k));
            }
            if exists|k: int|
                {
                    &&& 0 <= k <= a.len()
                    &&& k < b.len()
                    &&& #[trigger] a.take(k) == b.take(k)
                    &&& k == a.len() || a[k] < b[k]
                } {
                let k = choose|k: int|
                    {
                        &&& 0 <= k <= a.len()
                        &&& k < b.len()
                        &&& #[trigger] a.take(k) == b.take(k)
                        &&& k == a.len() || a[k] < b[k]
                    };
                assert(k > 0);
                assert(x.take(k - 1) =~= a.take(k).drop_first());
                assert(y.take(k - 1) =~= b.take(k).drop_first());
            }
        }
    }
}

/// Joined parts stand in their order with a comma and a space between any two,
/// and a single part stands alone.
pub proof fn joined_parts_are_separated(front: Seq<Seq<char>>, last: Seq<char>)
    ensures
        front.len() == 0 ==> join(front.push(last)) == last,
        front.len() > 0 ==> join(front.push(last)) == join(front) + seq![',', ' '] + last,
        join(Seq::<Seq<char>>::empty()) == Seq::<char>::empty(),
{
    reveal_strlit(", ");
    assert(", "@ =~= seq![',', ' ']);
    assert(front.push(last).drop_last() =~= front);
}

} // verus!
