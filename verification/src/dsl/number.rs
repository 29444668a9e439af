//! Decimal numbers.
//!
//! A number is an optional sign, digits with at most one point among them,
//! and an optional exponent: `e` or `E`, an optional sign and digits. It
//! needs a digit before its exponent. Its value is truncated toward zero to
//! a scalar, and clamped.
//!
//! The reader keeps the first 28 significant digits and counts the digits
//! after them: no digit beyond those can change a scalar, which
//! `lemma_leading_is_exact` proves.

use crate::fixed::clamped;
use vstd::prelude::*;

verus! {

/// Whether `c` is a decimal digit.
pub open spec fn is_digit(c: char) -> bool {
    '0' <= c && c <= '9'
}

/// The value of the decimal digit `c`.
pub open spec fn digit_value(c: char) -> nat {
    (c as int - 48) as nat
}

/// The value of a run of decimal digits.
pub open spec fn decimal(digits: Seq<char>) -> nat
    decreases digits.len(),
{
    if digits.len() == 0 {
        0
    } else {
        decimal(digits.drop_last()) * 10 + digit_value(digits.last())
    }
}

/// Where the run of digits that begins at `from` ends.
pub open spec fn digits_end(s: Seq<char>, from: int) -> int
    decreases s.len() - from,
{
    if 0 <= from < s.len() && is_digit(s[from]) {
        digits_end(s, from + 1)
    } else {
        from
    }
}

/// Ten to the power `n`.
pub open spec fn pow10(n: nat) -> int
    decreases n,
{
    if n == 0 {
        1
    } else {
        10 * pow10((n - 1) as nat)
    }
}

/// A number taken apart: its sign, its digits without the point, the number
/// of digits behind the point, and its exponent.
pub struct Number {
    pub negative: bool,
    pub digits: Seq<char>,
    pub fraction_len: nat,
    pub exponent: int,
}

/// Whether `c` is a sign.
pub open spec fn is_sign(c: char) -> bool {
    c == '-' || c == '+'
}

/// Where the parts of a number before its exponent begin and end.
pub struct Mantissa {
    pub negative: bool,
    pub start: int,
    pub int_end: int,
    pub frac_start: int,
    pub frac_end: int,
}

/// The parts of `s` before an exponent: a sign, digits, a point, digits, as
/// far as they are there.
pub open spec fn mantissa_of(s: Seq<char>) -> Mantissa {
    let signed = s.len() > 0 && is_sign(s[0]);
    let start: int = if signed {
        1
    } else {
        0
    };
    let int_end = digits_end(s, start);
    let pointed = int_end < s.len() && s[int_end] == '.';
    let frac_start: int = if pointed {
        int_end + 1
    } else {
        int_end
    };
    Mantissa {
        negative: signed && s[0] == '-',
        start,
        int_end,
        frac_start,
        frac_end: digits_end(s, frac_start),
    }
}

/// The exponent that `s` reads from `at` on, where a mantissa ended: zero at
/// the end of `s`, else what follows the letter `e`; nothing where no
/// exponent stands there.
pub open spec fn exponent_of(s: Seq<char>, at: int) -> Option<int> {
    if at == s.len() {
        Some(0)
    } else if s[at] != 'e' && s[at] != 'E' {
        None
    } else {
        let exp_signed = at + 1 < s.len() && is_sign(s[at + 1]);
        let exp_start: int = if exp_signed {
            at + 2
        } else {
            at + 1
        };
        let exp_end = digits_end(s, exp_start);
        let size = decimal(s.subrange(exp_start, exp_end));
        if exp_end == exp_start || exp_end != s.len() {
            None
        } else if exp_signed && s[at + 1] == '-' {
            Some(-size)
        } else {
            Some(size as int)
        }
    }
}

/// The number that `s` reads, or nothing where `s` is no number.
pub open spec fn number_of(s: Seq<char>) -> Option<Number> {
    let m = mantissa_of(s);
    let digits = s.subrange(m.start, m.int_end) + s.subrange(m.frac_start, m.frac_end);
    if digits.len() == 0 {
        None
    } else {
        match exponent_of(s, m.frac_end) {
            Some(exponent) => Some(
                Number {
                    negative: m.negative,
                    digits,
                    fraction_len: (m.frac_end - m.frac_start) as nat,
                    exponent,
                },
            ),
            None => None,
        }
    }
}

/// `value` times ten to the power `shift`, in units of 1/65536 and truncated
/// toward zero.
pub open spec fn shifted(value: int, shift: int) -> int {
    if shift >= 0 {
        value * pow10(shift as nat) * 65536
    } else {
        (value * 65536) / pow10((-shift) as nat)
    }
}

/// `size` with the sign that `negative` gives, clamped.
pub open spec fn signed(size: int, negative: bool) -> int {
    clamped(
        if negative {
            -size
        } else {
            size
        },
    )
}

/// The scalar of a number: the value of its digits times ten to the power
/// of its exponent less the number of digits behind the point, in units of
/// 1/65536, truncated toward zero and clamped.
pub open spec fn scalar_of(n: Number) -> i32 {
    signed(shifted(decimal(n.digits) as int, n.exponent - n.fraction_len), n.negative) as i32
}

/// The scalar that `s` reads, or nothing where `s` is no number.
pub open spec fn parsed_number(s: Seq<char>) -> Option<i32> {
    match number_of(s) {
        Some(n) => Some(scalar_of(n)),
        None => None,
    }
}

/// The least number of 28 digits: a one and 27 zeros.
pub const FULL: u128 = 1_000_000_000_000_000_000_000_000_000;

/// The digits of a number that count, as a number, and how many digits
/// after them were left out.
pub struct Leading {
    pub value: nat,
    pub dropped: nat,
}

/// `lead` with the digits of `digits` behind it: a digit counts until the
/// number has 28 digits, and is left out from then on.
pub open spec fn leading_from(lead: Leading, digits: Seq<char>) -> Leading
    decreases digits.len(),
{
    if digits.len() == 0 {
        lead
    } else {
        let init = leading_from(lead, digits.drop_last());
        if init.value >= FULL {
            Leading { value: init.value, dropped: init.dropped + 1 }
        } else {
            Leading { value: init.value * 10 + digit_value(digits.last()), dropped: init.dropped }
        }
    }
}

/// The first 28 significant digits of `digits`, and how many digits follow
/// them.
pub open spec fn leading(digits: Seq<char>) -> Leading {
    leading_from(Leading { value: 0, dropped: 0 }, digits)
}

/// Digits behind digits count as they come.
proof fn lemma_leading_concat(lead: Leading, a: Seq<char>, b: Seq<char>)
    ensures
        leading_from(lead, a + b) == leading_from(leading_from(lead, a), b),
    decreases b.len(),
{
    if b.len() == 0 {
        assert(a + b =~= a);
    } else {
        lemma_leading_concat(lead, a, b.drop_last());
        assert((a + b).drop_last() =~= a + b.drop_last());
        assert((a + b).last() == b.last());
    }
}

/// A power of ten grows with its exponent.
proof fn lemma_pow10_grows(a: nat, b: nat)
    requires
        a <= b,
    ensures
        pow10(a) <= pow10(b),
        pow10(a) >= 1,
    decreases b,
{
    if a < b {
        lemma_pow10_grows(a, (b - 1) as nat);
    } else if a > 0 {
        lemma_pow10_grows((a - 1) as nat, (b - 1) as nat);
    }
}

/// The powers of ten that the reader needs.
proof fn lemma_pow10_values()
    ensures
        pow10(0) == 1,
        pow10(5) == 100_000,
        pow10(22) == 10_000_000_000_000_000_000_000,
        pow10(6) == 1_000_000,
        pow10(34) == 10_000_000_000_000_000_000_000_000_000_000_000,
{
    reveal_with_fuel(pow10, 36);
}

/// Beyond a million every number but zero is out of range, and below ten to
/// the power -34 nothing is left of 28 digits.
proof fn lemma_shifted_ends(value: int, shift: int)
    requires
        0 <= value < FULL * 10,
    ensures
        value == 0 ==> shifted(value, shift) == 0,
        value > 0 && shift > 5 ==> shifted(value, shift) > i32::MAX,
        shift < -33 ==> shifted(value, shift) == 0,
{
    lemma_pow10_values();
    if shift >= 0 {
        lemma_pow10_grows(0, shift as nat);
        if shift > 5 {
            lemma_pow10_grows(6, shift as nat);
            let p = pow10(shift as nat);
            if value > 0 {
                assert(value * p * 65536 >= 1_000_000 * 65536) by (nonlinear_arith)
                    requires
                        value >= 1,
                        p >= 1_000_000,
                ;
            }
        }
        if value == 0 {
            assert(0 * pow10(shift as nat) * 65536 == 0) by (nonlinear_arith);
        }
    } else {
        let p = pow10((-shift) as nat);
        lemma_pow10_grows(0, (-shift) as nat);
        if shift < -33 {
            lemma_pow10_grows(34, (-shift) as nat);
            assert((value * 65536) / p == 0) by (nonlinear_arith)
                requires
                    0 <= value * 65536 < 10_000_000_000_000_000_000_000_000_000_000_000,
                    p >= 10_000_000_000_000_000_000_000_000_000_000_000,
            ;
        }
        if value == 0 {
            assert((0int * 65536) / p == 0) by (nonlinear_arith)
                requires
                    p >= 1,
            ;
        }
    }
}

/// A power of ten with a sum for its exponent is a product of powers of
/// ten.
proof fn lemma_pow10_adds(a: nat, b: nat)
    ensures
        pow10(a + b) == pow10(a) * pow10(b),
    decreases a,
{
    if a > 0 {
        lemma_pow10_adds((a - 1) as nat, b);
        assert(pow10(a + b) == 10 * pow10((a - 1 + b) as nat));
        assert(10 * (pow10((a - 1) as nat) * pow10(b)) == (10 * pow10((a - 1) as nat)) * pow10(b))
            by (nonlinear_arith);
    } else {
        assert(pow10(a) * pow10(b) == pow10(b)) by (nonlinear_arith)
            requires
                pow10(a) == 1,
        ;
    }
}

/// From the sixteenth on, a power of ten is a multiple of 65536.
proof fn lemma_pow10_units(m: nat) -> (n: int)
    requires
        m >= 16,
    ensures
        pow10(m) == 65536 * n,
        n >= 1,
{
    reveal_with_fuel(pow10, 18);
    assert(pow10(16) == 65536 * 152587890625);
    lemma_pow10_adds(16, (m - 16) as nat);
    lemma_pow10_grows(0, (m - 16) as nat);
    let rest = pow10((m - 16) as nat);
    let n = 152587890625 * rest;
    assert(pow10(16) * rest == 65536 * (152587890625 * rest)) by (nonlinear_arith)
        requires
            pow10(16) == 65536 * 152587890625,
    ;
    assert(152587890625 * rest >= 1) by (nonlinear_arith)
        requires
            rest >= 1,
    ;
    n
}

/// The digits that count and the places of the digits left out make up the
/// value of all the digits, but for less than one unit of the last digit
/// that counts.
proof fn lemma_leading_parts(digits: Seq<char>)
    requires
        forall|i: int| 0 <= i < digits.len() ==> is_digit(#[trigger] digits[i]),
    ensures
        leading(digits).value * pow10(leading(digits).dropped) <= decimal(digits),
        decimal(digits) < (leading(digits).value + 1) * pow10(leading(digits).dropped),
        leading(digits).dropped > 0 ==> leading(digits).value >= FULL,
        leading(digits).value < FULL * 10,
    decreases digits.len(),
{
    if digits.len() > 0 {
        let init = digits.drop_last();
        lemma_leading_parts(init);
        let l = leading(init);
        let d = digit_value(digits.last());
        assert(is_digit(digits[digits.len() - 1]));
        assert(d <= 9);
        let c = pow10(l.dropped);
        lemma_pow10_grows(0, l.dropped);
        if l.value >= FULL {
            assert(pow10(l.dropped + 1) == 10 * c);
            assert(l.value * (10 * c) <= decimal(init) * 10 + d) by (nonlinear_arith)
                requires
                    l.value * c <= decimal(init),
                    d >= 0,
            ;
            assert(decimal(init) * 10 + d < (l.value + 1) * (10 * c)) by (nonlinear_arith)
                requires
                    decimal(init) < (l.value + 1) * c,
                    d <= 9,
            ;
        } else {
            assert(l.dropped == 0);
            assert(c == 1);
            assert(l.value * c == l.value && (l.value + 1) * c == l.value + 1)
                by (nonlinear_arith)
                requires
                    c == 1,
            ;
            assert((l.value * 10 + d) * c == l.value * 10 + d && (l.value * 10 + d + 1) * c
                == l.value * 10 + d + 1) by (nonlinear_arith)
                requires
                    c == 1,
            ;
        }
    } else {
        assert(0 * pow10(0) == 0 && (0 + 1) * pow10(0) == 1) by (nonlinear_arith)
            requires
                pow10(0) == 1,
        ;
    }
}

/// Sizes agree where they are the same or both beyond the range.
pub open spec fn agree(a: int, b: int) -> bool {
    a == b || (a >= 0x8000_0000 && b >= 0x8000_0000)
}

/// Sizes that agree give the same scalar.
proof fn lemma_agree(a: int, b: int, negative: bool)
    requires
        agree(a, b),
    ensures
        signed(a, negative) == signed(b, negative),
{
}

/// Digits behind 28 significant ones do not change a scalar: the value
/// `p * 10^k + r` of all the digits, where `p` has 28 digits and `r` is what
/// the `k` digits behind them are worth, gives the scalar that `p * 10^k`
/// gives.
proof fn lemma_dropped_digits(p: int, k: nat, r: int, s: int)
    requires
        FULL <= p < FULL * 10,
        0 <= r < pow10(k),
    ensures
        agree(shifted(p * pow10(k) + r, s), shifted(p, s + k)),
{
    let c = pow10(k);
    let t = s + k;
    let d = p * c + r;
    lemma_pow10_grows(0, k);
    assert(d >= p) by (nonlinear_arith)
        requires
            d == p * c + r,
            c >= 1,
            r >= 0,
            p >= 0,
    ;
    if t >= 0 {
        let pt = pow10(t as nat);
        lemma_pow10_grows(0, t as nat);
        assert(p * pt * 65536 >= 0x8000_0000) by (nonlinear_arith)
            requires
                p >= FULL,
                pt >= 1,
        ;
        if s >= 0 {
            let ps = pow10(s as nat);
            lemma_pow10_grows(0, s as nat);
            assert(d * ps * 65536 >= 0x8000_0000) by (nonlinear_arith)
                requires
                    d >= FULL,
                    ps >= 1,
            ;
        } else {
            let m = pow10((-s) as nat);
            lemma_pow10_grows(0, (-s) as nat);
            lemma_pow10_adds(t as nat, (-s) as nat);
            assert(c == pt * m);
            let y = p * pt * 65536;
            assert(m * y <= d * 65536) by (nonlinear_arith)
                requires
                    d == p * c + r,
                    c == pt * m,
                    r >= 0,
                    y == p * pt * 65536,
            ;
            vstd::arithmetic::div_mod::lemma_div_is_ordered(m * y, d * 65536, m);
            vstd::arithmetic::div_mod::lemma_div_multiples_vanish(y, m);
        }
    } else {
        let n = pow10((-t) as nat);
        let m = pow10((-s) as nat);
        lemma_pow10_grows(0, (-t) as nat);
        lemma_pow10_adds((-t) as nat, k);
        assert(m == n * c);
        let a = p * 65536;
        let q = a / n;
        let rem = a % n;
        vstd::arithmetic::div_mod::lemma_fundamental_div_mod(a, n);
        vstd::arithmetic::div_mod::lemma_div_pos_is_pos(a, n);
        assert(0 <= rem < n);
        assert(d * 65536 == a * c + r * 65536) by (nonlinear_arith)
            requires
                d == p * c + r,
                a == p * 65536,
        ;
        if -t <= 22 {
            lemma_pow10_values();
            lemma_pow10_grows((-t) as nat, 22);
            // what counts alone is beyond the range, and all the digits are more
            vstd::arithmetic::div_mod::lemma_div_is_ordered_by_denominator(a, n, pow10(22));
            vstd::arithmetic::div_mod::lemma_div_is_ordered(
                FULL * 65536,
                a,
                pow10(22),
            );
            assert((FULL * 65536) / pow10(22) == 6553600000) by {
                assert(FULL * 65536 == pow10(22) * 6553600000);
                vstd::arithmetic::div_mod::lemma_div_multiples_vanish(6553600000, pow10(22));
            }
            assert(q >= 0x8000_0000);
            assert(a * c <= d * 65536) by (nonlinear_arith)
                requires
                    d * 65536 == a * c + r * 65536,
                    r >= 0,
            ;
            assert(n * c > 0) by (nonlinear_arith)
                requires
                    n >= 1,
                    c >= 1,
            ;
            vstd::arithmetic::div_mod::lemma_div_is_ordered(a * c, d * 65536, n * c);
            vstd::arithmetic::div_mod::lemma_div_multiples_vanish_quotient(c, a, n);
            assert(c * a == a * c && c * n == n * c) by (nonlinear_arith);
            assert((a * c) / (n * c) == q);
        } else {
            // what is left of the digits that count is a multiple of 65536, so
            // the digits behind them cannot reach the next scalar
            let units = lemma_pow10_units((-t) as nat);
            assert(rem == 65536 * (p - units * q)) by (nonlinear_arith)
                requires
                    a == n * q + rem,
                    a == p * 65536,
                    n == 65536 * units,
            ;
            let w = p - units * q;
            assert(w <= units - 1) by (nonlinear_arith)
                requires
                    rem == 65536 * w,
                    rem < n,
                    n == 65536 * units,
            ;
            assert(rem <= n - 65536) by (nonlinear_arith)
                requires
                    rem == 65536 * w,
                    w <= units - 1,
                    n == 65536 * units,
            ;
            let rest = rem * c + r * 65536;
            assert(d * 65536 == q * (n * c) + rest) by (nonlinear_arith)
                requires
                    d * 65536 == a * c + r * 65536,
                    a == n * q + rem,
                    rest == rem * c + r * 65536,
            ;
            assert(0 <= rest < n * c) by (nonlinear_arith)
                requires
                    rest == rem * c + r * 65536,
                    0 <= rem <= n - 65536,
                    0 <= r < c,
                    c >= 1,
            ;
            vstd::arithmetic::div_mod::lemma_fundamental_div_mod_converse(
                d * 65536,
                n * c,
                q,
                rest,
            );
        }
    }
}

/// The first 28 significant digits of a number and the places of the digits
/// behind them give the scalar that all its digits give.
pub proof fn lemma_leading_is_exact(digits: Seq<char>, shift: int, negative: bool)
    requires
        forall|i: int| 0 <= i < digits.len() ==> is_digit(#[trigger] digits[i]),
    ensures
        signed(shifted(decimal(digits) as int, shift), negative) == signed(
            shifted(leading(digits).value as int, shift + leading(digits).dropped),
            negative,
        ),
{
    let l = leading(digits);
    lemma_leading_parts(digits);
    lemma_pow10_grows(0, l.dropped);
    if l.dropped > 0 {
        let c = pow10(l.dropped);
        let r = decimal(digits) - l.value * c;
        assert(r < c) by (nonlinear_arith)
            requires
                r == decimal(digits) - l.value * c,
                decimal(digits) < (l.value + 1) * c,
        ;
        lemma_dropped_digits(l.value as int, l.dropped, r, shift);
        lemma_agree(
            shifted(decimal(digits) as int, shift),
            shifted(l.value as int, shift + l.dropped),
            negative,
        );
    } else {
        assert(l.value * pow10(0) == l.value && (l.value + 1) * pow10(0) == l.value + 1)
            by (nonlinear_arith)
            requires
                pow10(0) == 1,
        ;
    }
}

/// Ten to the power `k`.
fn power_of_ten(k: u32) -> (r: u128)
    requires
        k <= 33,
    ensures
        r == pow10(k as nat),
        1 <= r <= 1_000_000_000_000_000_000_000_000_000_000_000,
{
    let mut r: u128 = 1;
    let mut i: u32 = 0;
    proof {
        reveal_with_fuel(pow10, 35);
        assert(pow10(33) == 1_000_000_000_000_000_000_000_000_000_000_000);
    }
    while i < k
        invariant
            i <= k <= 33,
            r == pow10(i as nat),
            pow10(33) == 1_000_000_000_000_000_000_000_000_000_000_000,
        decreases k - i,
    {
        proof {
            lemma_pow10_grows((i + 1) as nat, 33);
        }
        r = r * 10;
        i += 1;
    }
    proof {
        lemma_pow10_grows(k as nat, 33);
    }
    r
}

/// Where the run of digits that begins at `from` ends.
fn scan_digits(s: &Vec<char>, from: usize) -> (end: usize)
    requires
        from <= s@.len(),
    ensures
        end == digits_end(s@, from as int),
        from <= end <= s@.len(),
        forall|i: int| from <= i < end ==> is_digit(#[trigger] s@[i]),
{
    let mut i: usize = from;
    while i < s.len() && s[i] >= '0' && s[i] <= '9'
        invariant
            from <= i <= s@.len(),
            digits_end(s@, from as int) == digits_end(s@, i as int),
            forall|j: int| from <= j < i ==> is_digit(#[trigger] s@[j]),
        decreases s@.len() - i,
    {
        i += 1;
    }
    i
}

/// Takes the digits from `from` up to `upto` behind `lead`.
fn take_digits(s: &Vec<char>, from: usize, upto: usize, lead: (u128, usize)) -> (r: (u128, usize))
    requires
        from <= upto <= s@.len(),
        forall|i: int| from <= i < upto ==> is_digit(#[trigger] s@[i]),
        lead.0 < FULL * 10,
        lead.1 + (upto - from) <= usize::MAX,
    ensures
        (Leading { value: r.0 as nat, dropped: r.1 as nat }) == leading_from(
            Leading { value: lead.0 as nat, dropped: lead.1 as nat },
            s@.subrange(from as int, upto as int),
        ),
        r.0 < FULL * 10,
        r.1 <= lead.1 + (upto - from),
{
    let mut value: u128 = lead.0;
    let mut dropped: usize = lead.1;
    let mut i: usize = from;
    let ghost first = Leading { value: lead.0 as nat, dropped: lead.1 as nat };
    while i < upto
        invariant
            from <= i <= upto <= s@.len(),
            forall|j: int| from <= j < upto ==> is_digit(#[trigger] s@[j]),
            value < FULL * 10,
            dropped <= lead.1 + (i - from),
            lead.1 + (upto - from) <= usize::MAX,
            (Leading { value: value as nat, dropped: dropped as nat }) == leading_from(
                first,
                s@.subrange(from as int, i as int),
            ),
        decreases upto - i,
    {
        proof {
            assert(s@.subrange(from as int, i + 1).drop_last() =~= s@.subrange(
                from as int,
                i as int,
            ));
            assert(is_digit(s@[i as int]));
        }
        if value >= FULL {
            dropped += 1;
        } else {
            let d: u128 = (s[i] as u32 - 48) as u128;
            value = value * 10 + d;
        }
        i += 1;
    }
    (value, dropped)
}

/// The value of the digits from `from` up to `upto`, as far as it stays
/// below the number `FULL`: a greater value gives some number that is not
/// below it either.
fn take_exponent(s: &Vec<char>, from: usize, upto: usize) -> (e: u128)
    requires
        from <= upto <= s@.len(),
        forall|i: int| from <= i < upto ==> is_digit(#[trigger] s@[i]),
    ensures
        e < FULL ==> e == decimal(s@.subrange(from as int, upto as int)),
        e >= FULL ==> decimal(s@.subrange(from as int, upto as int)) >= FULL,
        e < FULL * 10,
{
    let mut e: u128 = 0;
    let mut i: usize = from;
    while i < upto
        invariant
            from <= i <= upto <= s@.len(),
            forall|j: int| from <= j < upto ==> is_digit(#[trigger] s@[j]),
            e < FULL ==> e == decimal(s@.subrange(from as int, i as int)),
            e >= FULL ==> decimal(s@.subrange(from as int, i as int)) >= FULL,
            e < FULL * 10,
        decreases upto - i,
    {
        proof {
            assert(s@.subrange(from as int, i + 1).drop_last() =~= s@.subrange(
                from as int,
                i as int,
            ));
            assert(is_digit(s@[i as int]));
        }
        if e < FULL {
            let d: u128 = (s[i] as u32 - 48) as u128;
            e = e * 10 + d;
        }
        i += 1;
    }
    e
}

/// `value` times ten to the power `shift` as a scalar, with the sign that
/// `negative` gives.
fn scale(value: u128, shift: i128, negative: bool) -> (r: i32)
    requires
        value < FULL * 10,
    ensures
        r == signed(shifted(value as int, shift as int), negative),
{
    proof {
        lemma_shifted_ends(value as int, shift as int);
    }
    let size: u128 = if value == 0 || shift < -33 {
        0
    } else if shift > 5 {
        0x8000_0000
    } else if shift >= 0 {
        let p = power_of_ten(shift as u32);
        proof {
            lemma_pow10_values();
            lemma_pow10_grows(shift as nat, 5);
            assert(value * p * 65536 <= FULL * 10 * 100_000 * 65536) by (nonlinear_arith)
                requires
                    value <= FULL * 10,
                    0 <= p <= 100_000,
            ;
            assert(value * p <= FULL * 10 * 100_000) by (nonlinear_arith)
                requires
                    value <= FULL * 10,
                    0 <= p <= 100_000,
            ;
        }
        value * p * 65536
    } else {
        let p = power_of_ten((-shift) as u32);
        (value * 65536) / p
    };
    if size >= 0x8000_0000 {
        if negative {
            i32::MIN
        } else {
            i32::MAX
        }
    } else if negative {
        -(size as i32)
    } else {
        size as i32
    }
}

/// Finds the parts of a number before its exponent.
fn read_mantissa(s: &Vec<char>) -> (r: (bool, usize, usize, usize, usize))
    ensures
        (Mantissa {
            negative: r.0,
            start: r.1 as int,
            int_end: r.2 as int,
            frac_start: r.3 as int,
            frac_end: r.4 as int,
        }) == mantissa_of(s@),
        r.1 <= r.2 <= r.3 <= r.4 <= s@.len(),
        forall|i: int| r.1 <= i < r.2 ==> is_digit(#[trigger] s@[i]),
        forall|i: int| r.3 <= i < r.4 ==> is_digit(#[trigger] s@[i]),
{
    let len = s.len();
    let signed = len > 0 && (s[0] == '-' || s[0] == '+');
    let negative = signed && s[0] == '-';
    let start: usize = if signed {
        1
    } else {
        0
    };
    let int_end = scan_digits(s, start);
    let pointed = int_end < len && s[int_end] == '.';
    let frac_start: usize = if pointed {
        int_end + 1
    } else {
        int_end
    };
    let frac_end = scan_digits(s, frac_start);
    (negative, start, int_end, frac_start, frac_end)
}

/// Reads the exponent from `at` on: whether it is negative, and its size as
/// far as it stays below `FULL`.
fn read_exponent(s: &Vec<char>, at: usize) -> (r: Option<(bool, u128)>)
    requires
        at <= s@.len(),
    ensures
        match r {
            Some((down, e)) => {
                &&& e < FULL * 10
                &&& exponent_of(s@, at as int) matches Some(exact)
                &&& down ==> exact <= 0
                &&& !down ==> exact >= 0
                &&& e < FULL ==> e == (if down {
                    -exact
                } else {
                    exact
                })
                &&& e >= FULL ==> (if down {
                    -exact
                } else {
                    exact
                }) >= FULL
            },
            None => exponent_of(s@, at as int).is_none(),
        },
{
    let len = s.len();
    if at == len {
        return Some((false, 0));
    }
    if s[at] != 'e' && s[at] != 'E' {
        return None;
    }
    let exp_signed = at + 1 < len && (s[at + 1] == '-' || s[at + 1] == '+');
    let exp_start: usize = if exp_signed {
        at + 2
    } else {
        at + 1
    };
    let exp_end = scan_digits(s, exp_start);
    if exp_end == exp_start || exp_end != len {
        return None;
    }
    let e = take_exponent(s, exp_start, exp_end);
    let down = exp_signed && s[at + 1] == '-';
    Some((down, e))
}

/// Reads a number.
pub fn parse_number(s: &Vec<char>) -> (r: Option<i32>)
    ensures
        r == parsed_number(s@),
{
    let (negative, start, int_end, frac_start, frac_end) = read_mantissa(s);
    if int_end - start + (frac_end - frac_start) == 0 {
        return None;
    }
    let whole = take_digits(s, start, int_end, (0, 0));
    let lead = take_digits(s, frac_start, frac_end, whole);
    let ghost digits = s@.subrange(start as int, int_end as int) + s@.subrange(
        frac_start as int,
        frac_end as int,
    );
    proof {
        lemma_leading_concat(
            Leading { value: 0, dropped: 0 },
            s@.subrange(start as int, int_end as int),
            s@.subrange(frac_start as int, frac_end as int),
        );
        assert(leading(digits) == (Leading { value: lead.0 as nat, dropped: lead.1 as nat }));
    }
    let fraction_len: usize = frac_end - frac_start;
    let near: i128 = lead.1 as i128 - fraction_len as i128;
    match read_exponent(s, frac_end) {
        None => None,
        Some((down, e)) => {
            let shift: i128 = if down {
                near - e as i128
            } else {
                near + e as i128
            };
            proof {
                let exact = exponent_of(s@, frac_end as int)->0;
                lemma_shifted_ends(lead.0 as int, near + exact);
                lemma_shifted_ends(lead.0 as int, shift as int);
                lemma_leading_is_exact(digits, exact - fraction_len, negative);
            }
            Some(scale(lead.0, shift, negative))
        },
    }
}

} // verus!
