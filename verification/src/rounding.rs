//! How close rounded results come to the exact ones: what a texture coordinate, a texel or a
//! radius in a uniform buffer means, up to the rounding of single precision.

use vstd::arithmetic::power2::*;
use vstd::prelude::*;

use crate::single::{Single, HALF_BITS, ONE_BITS};

verus! {

/// Whether `v` is `num / den`, off by at most one part in 2^22.
pub open spec fn near_ratio(v: Single, num: int, den: int) -> bool {
    &&& v.is_finite()
    &&& 0x40_0000 * (v.steps() * den - num * crate::single::one_steps()) <= num * crate::single::one_steps()
    &&& 0x40_0000 * (num * crate::single::one_steps() - v.steps() * den) <= num * crate::single::one_steps()
}

/// A whole number as a single is off by at most one part in 2^24.
pub proof fn lemma_whole_near(n: u32)
    ensures
        crate::algorithm::single_of(n).is_finite(),
        !crate::algorithm::single_of(n).negative(),
        crate::algorithm::single_of(n).steps() >= 0,
        n == 0 ==> crate::algorithm::single_of(n) == (Single { bits: 0 }),
        n > 0 ==> crate::algorithm::single_of(n).steps() >= crate::single::one_steps(),
        crate::algorithm::single_of(n).steps() <= 0x1_0000_0000 * crate::single::one_steps(),
        0x100_0000 * (crate::algorithm::single_of(n).steps() - n * crate::single::one_steps()) <= n
            * crate::single::one_steps(),
        0x100_0000 * (n * crate::single::one_steps() - crate::algorithm::single_of(n).steps()) <= n
            * crate::single::one_steps(),
        near_ratio(crate::algorithm::single_of(n), n as int, 1),
{
    let one = crate::single::one_steps();
    let num = n * one;
    lemma_pow2_pos(149);
    lemma2_to64();
    lemma_pow2_adds(32, 149);
    lemma_pow2_adds(24, 125);
    lemma_pow2_adds(23, 126);
    lemma_pow2_adds(23, 158);
    lemma_pow2_strictly_increases(181, 200);
    lemma_pow2_pos(125);
    assert(0 <= num <= 0x1_0000_0000 * one) by (nonlinear_arith)
        requires
            num == n * one,
            0 <= n <= 0x1_0000_0000,
            one >= 1,
    ;
    crate::single::lemma_nearest_relative(num, 1);
    crate::single::lemma_nearest_at_most(num, 1, 0x4F80_0000);
    let bits = crate::single::nearest_bits(num, 1);
    crate::single::lemma_magnitude_order(bits, 0);
    if n > 0 {
        assert(num >= one) by (nonlinear_arith)
            requires
                num == n * one,
                n >= 1,
                one >= 1,
        ;
        crate::single::lemma_nearest_at_least(num, 1, ONE_BITS as int);
    } else {
        assert(num == 0) by (nonlinear_arith)
            requires
                num == n * one,
                n == 0,
        ;
        crate::single::lemma_nearest_at_most(0, 1, 0);
    }
}

/// The relative errors of a quotient of two rounded numbers add up.
proof fn lemma_errors_add(q: int, a: int, b: int, x: int, y: int, one: int)
    requires
        one > 0,
        a >= 0,
        b > 0,
        q >= 0,
        x >= 0,
        y > 0,
        0x100_0000 * (x - a * one) <= a * one,
        0x100_0000 * (a * one - x) <= a * one,
        0x100_0000 * (y - b * one) <= b * one,
        0x100_0000 * (b * one - y) <= b * one,
        0x100_0000 * (q * y - x * one) <= x * one,
        0x100_0000 * (x * one - q * y) <= x * one,
    ensures
        0x40_0000 * (q * b - a * one) <= a * one,
        0x40_0000 * (a * one - q * b) <= a * one,
{
    let n = 0x100_0000int;
    let ao = a * one;
    let bo = b * one;
    let qb = q * b;
    assert(q * bo == qb * one) by (nonlinear_arith)
        requires
            bo == b * one,
            qb == q * b,
    ;
    // From above.
    assert((n - 1) * (q * bo) <= n * (q * y)) by (nonlinear_arith)
        requires
            (n - 1) * bo <= n * y,
            q >= 0,
    ;
    assert(n * (x * one) <= (n + 1) * (ao * one)) by (nonlinear_arith)
        requires
            n * x <= (n + 1) * ao,
            one > 0,
    ;
    // From below.
    assert((n + 1) * (q * bo) >= n * (q * y)) by (nonlinear_arith)
        requires
            (n + 1) * bo >= n * y,
            q >= 0,
    ;
    assert(n * (x * one) >= (n - 1) * (ao * one)) by (nonlinear_arith)
        requires
            n * x >= (n - 1) * ao,
            one > 0,
    ;
    assert(ao >= 0) by (nonlinear_arith)
        requires
            ao == a * one,
            a >= 0,
            one > 0,
    ;
    assert(0x40_0000 * (qb - ao) <= ao) by (nonlinear_arith)
        requires
            n == 0x100_0000,
            n * ((n - 1) * (qb * one)) <= (n + 1) * ((n + 1) * (ao * one)),
            ao >= 0,
            one > 0,
    ;
    assert(0x40_0000 * (ao - qb) <= ao) by (nonlinear_arith)
        requires
            n == 0x100_0000,
            n * ((n + 1) * (qb * one)) >= (n - 1) * ((n - 1) * (ao * one)),
            ao >= 0,
            one > 0,
    ;
}

/// The quotient of two whole numbers as singles is their ratio, up to rounding.
pub proof fn lemma_quotient_near(a: u32, b: u32)
    requires
        b > 0,
    ensures
        near_ratio(
            crate::algorithm::single_of(a).quotient(crate::algorithm::single_of(b)),
            a as int,
            b as int,
        ),
        a == 0 ==> crate::algorithm::single_of(a).quotient(crate::algorithm::single_of(b)) == (Single { bits: 0 }),
{
    let one = crate::single::one_steps();
    let x = crate::algorithm::single_of(a);
    let y = crate::algorithm::single_of(b);
    lemma_whole_near(a);
    lemma_whole_near(b);
    lemma_pow2_pos(149);
    crate::single::lemma_magnitude_order(y.magnitude_bits(), 0);
    lemma_ratio(x, y);
    let q = x.quotient(y);
    if a > 0 {
        lemma_errors_add(q.steps(), a as int, b as int, x.steps(), y.steps(), one);
    } else {
        assert(q.steps() * b == 0) by (nonlinear_arith)
            requires
                q.steps() == 0,
        ;
    }
}

/// The quotient of a number from a half to 2^32 by one from 1 to 2^32, or of zero.
proof fn lemma_ratio(x: Single, y: Single)
    requires
        !x.negative(),
        !y.negative(),
        x.is_finite(),
        y.is_finite(),
        x.bits == 0 || 2 * x.steps() >= crate::single::one_steps(),
        x.steps() <= 0x1_0000_0000 * crate::single::one_steps(),
        crate::single::one_steps() <= y.steps() <= 0x1_0000_0000 * crate::single::one_steps(),
    ensures
        x.quotient(y).is_finite(),
        !x.quotient(y).negative(),
        x.quotient(y).steps() >= 0,
        0x100_0000 * (x.quotient(y).steps() * y.steps() - x.steps() * crate::single::one_steps()) <= x.steps()
            * crate::single::one_steps(),
        0x100_0000 * (x.steps() * crate::single::one_steps() - x.quotient(y).steps() * y.steps()) <= x.steps()
            * crate::single::one_steps(),
        x.bits == 0 ==> x.quotient(y) == (Single { bits: 0 }),
{
    let one = crate::single::one_steps();
    let num = x.steps() * one;
    let den = y.steps();
    lemma_pow2_pos(149);
    lemma2_to64();
    lemma_pow2_adds(57, 92);
    lemma_pow2_adds(32, 149);
    lemma_pow2_pos(92);
    lemma_pow2_strictly_increases(181, 200);
    crate::single::lemma_magnitude_order(y.magnitude_bits(), 0);
    crate::single::lemma_magnitude_order(x.magnitude_bits(), 0);
    assert(0 <= num < pow2(200) * den) by (nonlinear_arith)
        requires
            num == x.steps() * one,
            0 <= x.steps() < pow2(200),
            den >= one,
            one > 0,
    ;
    crate::single::lemma_nearest_relative(num, den);
    if x.bits == 0 {
        assert(num == 0) by (nonlinear_arith)
            requires
                num == x.steps() * one,
                x.steps() == 0,
        ;
        crate::single::lemma_nearest_at_most(0, den, 0);
        crate::single::lemma_magnitude_order(crate::single::nearest_bits(0, den), 0);
    } else {
        lemma2_to64_rest();
        assert(one >= 0x200_0000_0000_0000) by (nonlinear_arith)
            requires
                one == 0x200_0000_0000_0000 * pow2(92),
                pow2(92) >= 1,
        ;
        assert(num >= 0x100_0000 * den) by (nonlinear_arith)
            requires
                num == x.steps() * one,
                2 * x.steps() >= one,
                den <= 0x1_0000_0000 * one,
                one >= 0x200_0000_0000_0000,
        ;
    }
}

/// One over a whole number is its reciprocal, and a half over it half of that, up to rounding.
pub proof fn lemma_reciprocal_near(b: u32)
    requires
        b > 0,
    ensures
        near_ratio((Single { bits: ONE_BITS }).quotient(crate::algorithm::single_of(b)), 1, b as int),
        near_ratio((Single { bits: HALF_BITS }).quotient(crate::algorithm::single_of(b)), 1, 2 * b),
{
    let one = crate::single::one_steps();
    let y = crate::algorithm::single_of(b);
    let x = Single { bits: ONE_BITS };
    let h = Single { bits: HALF_BITS };
    lemma_whole_near(b);
    lemma_pow2_pos(149);
    lemma2_to64();
    lemma_pow2_adds(23, 126);
    lemma_pow2_adds(23, 125);
    lemma_pow2_unfold(149);
    assert(x.steps() == one);
    assert(2 * h.steps() == one);
    lemma_ratio(x, y);
    lemma_ratio(h, y);
    lemma_errors_add(x.quotient(y).steps(), 1, b as int, one, y.steps(), one);
    let q = h.quotient(y).steps();
    assert((2 * q) * y.steps() == 2 * (q * y.steps())) by (nonlinear_arith);
    assert(one * one == 2 * (h.steps() * one)) by (nonlinear_arith)
        requires
            2 * h.steps() == one,
    ;
    lemma_errors_add(2 * q, 1, b as int, one, y.steps(), one);
    assert((2 * q) * b == q * (2 * b)) by (nonlinear_arith);
}

/// A product is off by at most one part in 2^24, or by half of the smallest step where that is
/// more.
pub open spec fn near_product(v: Single, a: Single, b: Single) -> bool {
    let one = crate::single::one_steps();
    let exact = a.steps() * b.steps();
    &&& v.is_finite()
    &&& 0x100_0000 * (v.steps() * one - exact) <= exact + 0x80_0000 * one
    &&& 0x100_0000 * (exact - v.steps() * one) <= exact + 0x80_0000 * one
}

/// A product of numbers that are not negative comes close to the exact one, up to 2^51.
pub proof fn lemma_product_near(a: Single, b: Single)
    requires
        a.is_finite(),
        b.is_finite(),
        a.steps() >= 0,
        b.steps() >= 0,
        a.steps() * b.steps() < pow2(200) * crate::single::one_steps(),
    ensures
        near_product(a.product(b), a, b),
{
    let one = crate::single::one_steps();
    let num = a.magnitude() * b.magnitude();
    lemma_pow2_pos(149);
    crate::single::lemma_magnitude_order(a.magnitude_bits(), 0);
    crate::single::lemma_magnitude_order(b.magnitude_bits(), 0);
    assert(a.steps() == a.magnitude() && b.steps() == b.magnitude());
    assert(num >= 0) by (nonlinear_arith)
        requires
            num == a.magnitude() * b.magnitude(),
            a.magnitude() >= 0,
            b.magnitude() >= 0,
    ;
    crate::single::lemma_nearest_relative(num, one);
    let bits = crate::single::nearest_bits(num, one);
    crate::single::lemma_magnitude_order(bits, 0);
    if a.negative() || b.negative() {
        assert(num == 0) by (nonlinear_arith)
            requires
                num == a.magnitude() * b.magnitude(),
                a.magnitude() == 0 || b.magnitude() == 0,
        ;
        crate::single::lemma_nearest_at_most(0, one, 0);
    }
}

} // verus!
