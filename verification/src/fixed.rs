//! Fixed-point scalars.
//!
//! A coordinate is an `i32` counting units of 1/65536: the value `ONE`
//! stands for 1.0. Products and quotients are truncated toward zero and every
//! result that leaves the `i32` range is clamped to its nearest end.

use vstd::arithmetic::power2::{lemma2_to64, lemma_pow2_strictly_increases, lemma_pow2_unfold, pow2};
use vstd::prelude::*;

verus! {

/// The raw value of 1.0.
pub const ONE: i32 = 65536;

/// The raw value of 0.5.
pub const HALF: i32 = 32768;

/// `v` clamped to the range of a raw scalar.
pub open spec fn clamped(v: int) -> int {
    if v < i32::MIN {
        i32::MIN as int
    } else if v > i32::MAX {
        i32::MAX as int
    } else {
        v
    }
}

/// The absolute value of `v`.
pub open spec fn magnitude(v: int) -> int {
    if v < 0 {
        -v
    } else {
        v
    }
}

/// The quotient of `a` by `b`, truncated toward zero (`b` is not zero).
pub open spec fn quotient(a: int, b: int) -> int {
    if (a >= 0) == (b > 0) {
        magnitude(a) / magnitude(b)
    } else {
        -(magnitude(a) / magnitude(b))
    }
}

/// The whole number nearest to the raw scalar `v`; a tie goes away from zero.
pub open spec fn nearest(v: int) -> int {
    if v >= 0 {
        (v + HALF) / (ONE as int)
    } else {
        -((-v + HALF) / (ONE as int))
    }
}

/// The raw scalar of the whole number `n`.
pub open spec fn whole(n: int) -> int {
    n * ONE
}

/// A scalar times 1.0 is the scalar.
pub proof fn lemma_times_one(a: int)
    ensures
        quotient(a * ONE, ONE as int) == a,
{
    assert(ONE == 65536);
    if a >= 0 {
        assert((a * 65536) / 65536 == a);
    } else {
        assert((-(a * 65536)) / 65536 == -a);
    }
}

/// Clamps a wide intermediate result to a raw scalar.
pub fn saturate(v: i64) -> (r: i32)
    ensures
        r == clamped(v as int),
{
    if v < -0x8000_0000 {
        -0x8000_0000
    } else if v > 0x7fff_ffff {
        0x7fff_ffff
    } else {
        v as i32
    }
}

/// The whole number nearest to `v`, as an integer.
pub fn to_nearest(v: i32) -> (r: i32)
    ensures
        r == nearest(v as int),
        -32768 <= r <= 32768,
{
    let w: i64 = v as i64;
    if w >= 0 {
        ((w + 32768) / 65536) as i32
    } else {
        (-((-w + 32768) / 65536)) as i32
    }
}

/// Rounds `v` to the nearest whole number; a tie goes away from zero.
pub fn round(v: i32) -> (r: i32)
    ensures
        r == clamped(whole(nearest(v as int))),
{
    let n: i64 = to_nearest(v) as i64;
    saturate(n * 65536)
}

/// The sum of two scalars.
pub fn plus(a: i32, b: i32) -> (r: i32)
    ensures
        r == clamped(a + b),
{
    saturate(a as i64 + b as i64)
}

/// The difference of two scalars.
pub fn minus(a: i32, b: i32) -> (r: i32)
    ensures
        r == clamped(a - b),
{
    saturate(a as i64 - b as i64)
}

/// The product of two scalars.
pub fn times(a: i32, b: i32) -> (r: i32)
    ensures
        r == clamped(quotient(a * b, ONE as int)),
{
    let wa: i64 = a as i64;
    let wb: i64 = b as i64;
    assert(-0x4000_0000_0000_0000 <= wa * wb <= 0x4000_0000_0000_0000) by (nonlinear_arith)
        requires
            -0x8000_0000 <= wa <= 0x7fff_ffff,
            -0x8000_0000 <= wb <= 0x7fff_ffff,
    ;
    let p: i64 = wa * wb;
    saturate(p / 65536)
}

/// The quotient of two scalars.
pub fn over(a: i32, b: i32) -> (r: i32)
    requires
        b != 0,
    ensures
        r == clamped(quotient(a * ONE, b as int)),
{
    let n: i64 = (a as i64) * 65536;
    let d: i64 = b as i64;
    if d > 0 {
        saturate(n / d)
    } else {
        saturate(-(n / (-d)))
    }
}

/// The smaller of two scalars.
pub fn lesser(a: i32, b: i32) -> (r: i32)
    ensures
        r == if a <= b { a } else { b },
{
    if a <= b {
        a
    } else {
        b
    }
}

/// The larger of two scalars.
pub fn greater(a: i32, b: i32) -> (r: i32)
    ensures
        r == if a >= b { a } else { b },
{
    if a >= b {
        a
    } else {
        b
    }
}

/// The scalar of the IEEE 754 single-precision number with the bit pattern
/// `bits`: its value in units of 1/65536, truncated toward zero and clamped.
/// A number too small to have a regular significand gives zero, an infinite
/// one an end of the range, and a pattern that is not a number gives zero.
pub open spec fn of_single(bits: u32) -> int {
    let exponent = (bits / 0x80_0000) % 0x100;
    let fraction = bits % 0x80_0000;
    let significand = 0x80_0000 + fraction;
    let size: int = if exponent == 0 {
        0
    } else if exponent == 255 {
        if fraction == 0 {
            0x8000_0000
        } else {
            0
        }
    } else if exponent >= 134 {
        significand * pow2((exponent - 134) as nat)
    } else {
        significand / (pow2((134 - exponent) as nat) as int)
    };
    clamped(
        if bits >= 0x8000_0000 {
            -size
        } else {
            size
        },
    )
}

/// Two to the power `k`.
fn power_of_two(k: u32) -> (r: u64)
    requires
        k < 32,
    ensures
        r == pow2(k as nat),
        r < 0x1_0000_0000,
{
    let mut r: u64 = 1;
    let mut i: u32 = 0;
    proof {
        lemma2_to64();
    }
    while i < k
        invariant
            i <= k < 32,
            r == pow2(i as nat),
            r <= pow2(31),
            pow2(31) == 0x8000_0000,
        decreases k - i,
    {
        proof {
            lemma_pow2_unfold((i + 1) as nat);
            if i + 1 < 31 {
                lemma_pow2_strictly_increases((i + 1) as nat, 31);
            }
        }
        r = r * 2;
        i += 1;
    }
    r
}

/// Converts the bit pattern of an IEEE 754 single-precision number to a
/// scalar.
pub fn from_single(bits: u32) -> (r: i32)
    ensures
        r == of_single(bits),
{
    let exponent: u32 = (bits / 0x80_0000) % 0x100;
    let fraction: u32 = bits % 0x80_0000;
    let significand: u64 = 0x80_0000 + fraction as u64;
    proof {
        lemma2_to64();
    }
    let size: u64 = if exponent == 0 {
        0
    } else if exponent == 255 {
        if fraction == 0 {
            0x8000_0000
        } else {
            0
        }
    } else if exponent >= 142 {
        proof {
            let e = (exponent - 134) as nat;
            if e > 8 {
                lemma_pow2_strictly_increases(8, e);
            }
            assert(significand * pow2(e) >= 0x8000_0000) by (nonlinear_arith)
                requires
                    significand >= 0x80_0000,
                    pow2(e) >= 256,
            ;
        }
        0x8000_0000
    } else if exponent >= 134 {
        let p = power_of_two(exponent - 134);
        proof {
            let e = (exponent - 134) as nat;
            if e < 7 {
                lemma_pow2_strictly_increases(e, 7);
            }
            assert(significand * p <= 0x100_0000 * 128) by (nonlinear_arith)
                requires
                    significand <= 0x100_0000,
                    p <= 128,
            ;
        }
        significand * p
    } else if exponent <= 110 {
        proof {
            let e = (134 - exponent) as nat;
            if e > 24 {
                lemma_pow2_strictly_increases(24, e);
            }
            assert(significand as int / (pow2(e) as int) == 0) by (nonlinear_arith)
                requires
                    0 <= significand < 0x100_0000,
                    pow2(e) >= 0x100_0000,
            ;
        }
        0
    } else {
        significand / power_of_two(134 - exponent)
    };
    if bits >= 0x8000_0000 {
        saturate(-(size as i64))
    } else {
        saturate(size as i64)
    }
}

} // verus!
