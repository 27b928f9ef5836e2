//! Single-precision numbers as the exact values they denote.
//!
//! The material and geometry of a frosted surface are given as IEEE 754 single-precision
//! numbers. A [`Single`] holds one as its bit pattern, so it crosses into integer code without
//! loss; its model is the number it denotes, counted in steps of the smallest subnormal
//! (2^-149). Every finite single is a whole number of such steps, which makes order, clamping
//! and rounding to whole pixels exact statements about integers.

use vstd::arithmetic::power2::*;
use vstd::prelude::*;

verus! {

/// The weight of the exponent field: 2^23.
pub const FRACTION_SPAN: u32 = 0x80_0000;

/// The sign bit: 2^31.
pub const SIGN_BIT: u32 = 0x8000_0000;

/// The exponent field of infinities and NaNs.
pub const TOP_EXPONENT: u32 = 255;

/// The bits of `+infinity`.
pub const INFINITY_BITS: u32 = 0x7F80_0000;

/// The bits of `1.0`.
pub const ONE_BITS: u32 = 0x3F80_0000;

/// The bits of `0.5`.
pub const HALF_BITS: u32 = 0x3F00_0000;

/// The bits of the smallest positive normal number, 2^-126.
pub const MIN_POSITIVE_BITS: u32 = 0x0080_0000;

/// An IEEE 754 single-precision number, held as its bit pattern.
#[derive(Clone, Copy, Debug)]
pub struct Single {
    /// The sign, exponent and fraction fields, most significant first.
    pub bits: u32,
}

/// The number of 2^-149 steps in the magnitude whose exponent and fraction fields are `bits`.
/// Infinity continues the scale: it stands one step of the top binade above the largest
/// finite number.
pub open spec fn magnitude_steps(bits: int) -> int {
    if bits < FRACTION_SPAN {
        bits
    } else {
        (FRACTION_SPAN + bits % FRACTION_SPAN as int) * pow2((bits / FRACTION_SPAN as int - 1) as nat)
    }
}

/// The steps in `1.0`: 2^149.
pub open spec fn one_steps() -> int {
    pow2(149) as int
}

/// `steps / one`, rounded to the nearest whole number with halves going up.
pub open spec fn rounded_half_up(steps: int) -> int {
    (2 * steps + one_steps()) / (2 * one_steps())
}

impl Single {
    /// Whether the sign bit is set.
    pub open spec fn negative(self) -> bool {
        self.bits >= SIGN_BIT
    }

    /// The exponent and fraction fields: the bits without the sign.
    pub open spec fn magnitude_bits(self) -> int {
        self.bits as int % SIGN_BIT as int
    }

    /// Whether the bits denote no number.
    pub open spec fn is_nan(self) -> bool {
        self.magnitude_bits() > INFINITY_BITS
    }

    /// Whether the bits denote a number other than an infinity.
    pub open spec fn is_finite(self) -> bool {
        self.magnitude_bits() < INFINITY_BITS
    }

    /// The number denoted, in steps of 2^-149.
    pub open spec fn steps(self) -> int {
        if self.negative() {
            -magnitude_steps(self.magnitude_bits())
        } else {
            magnitude_steps(self.magnitude_bits())
        }
    }
}

/// Magnitudes are ordered as their bits are.
pub proof fn lemma_magnitude_monotone(a: int, b: int)
    requires
        0 <= a < b < SIGN_BIT,
    ensures
        0 <= magnitude_steps(a) < magnitude_steps(b),
{
    let span = FRACTION_SPAN as int;
    if b < span {
    } else {
        let eb = (b / span - 1) as nat;
        lemma_pow2_pos(eb);
        let fb = b % span;
        assert((span + fb) * pow2(eb) >= span + fb) by (nonlinear_arith)
            requires
                pow2(eb) >= 1,
                span + fb >= 0,
        ;
        if a < span {
        } else {
            let ea = (a / span - 1) as nat;
            let fa = a % span;
            lemma_pow2_pos(ea);
            assert((span + fa) * pow2(ea) >= 0) by (nonlinear_arith)
                requires
                    pow2(ea) >= 1,
                    span + fa >= 0,
            ;
            if ea == eb {
                assert(fa < fb);
                assert((span + fa) * pow2(ea) < (span + fb) * pow2(ea)) by (nonlinear_arith)
                    requires
                        pow2(ea) >= 1,
                        fa < fb,
                ;
            } else {
                assert(ea < eb);
                lemma_pow2_unfold((ea + 1) as nat);
                if ea + 1 < eb {
                    lemma_pow2_strictly_increases((ea + 1) as nat, eb);
                }
                assert((span + fa) * pow2(ea) < (2 * span) * pow2(ea)) by (nonlinear_arith)
                    requires
                        pow2(ea) >= 1,
                        fa < span,
                ;
                assert((2 * span) * pow2(ea) == span * (2 * pow2(ea))) by (nonlinear_arith);
                assert(span * (2 * pow2(ea)) <= span * pow2(eb)) by (nonlinear_arith)
                    requires
                        2 * pow2(ea) <= pow2(eb),
                        span >= 0,
                ;
                assert(span * pow2(eb) <= (span + fb) * pow2(eb)) by (nonlinear_arith)
                    requires
                        pow2(eb) >= 1,
                        fb >= 0,
                ;
            }
        }
    }
}

/// Equal magnitudes have equal bits.
pub proof fn lemma_magnitude_order(a: int, b: int)
    requires
        0 <= a < SIGN_BIT,
        0 <= b < SIGN_BIT,
    ensures
        magnitude_steps(a) >= 0,
        a < b <==> magnitude_steps(a) < magnitude_steps(b),
        a == 0 <==> magnitude_steps(a) == 0,
{
    if a < b {
        lemma_magnitude_monotone(a, b);
    } else if b < a {
        lemma_magnitude_monotone(b, a);
    }
    if a > 0 {
        lemma_magnitude_monotone(0, a);
    }
}

/// `n / step`, rounded to the nearest whole number with halves going to the even one.
pub open spec fn rounded_half_even(n: int, step: int) -> int {
    let whole = n / step;
    let rest = n % step;
    if 2 * rest < step || (2 * rest == step && whole % 2 == 0) {
        whole
    } else {
        whole + 1
    }
}

/// How many times the spacing of singles doubles, from that of the subnormals, to hold
/// `num / den` steps in 24 significant bits.
pub open spec fn spacing_exponent(num: int, den: int) -> nat
    decreases num - den,
{
    if den <= 0 || num < 0x100_0000 * den {
        0
    } else {
        1 + spacing_exponent(num, 2 * den)
    }
}

/// The steps in an infinity: one spacing above the largest finite number.
pub open spec fn infinity_steps() -> int {
    magnitude_steps(INFINITY_BITS as int)
}

/// The single nearest to `num / den` steps, ties going to the even neighbour; what rounds past
/// the largest finite number is an infinity.
#[verifier::opaque]
pub open spec fn nearest_steps(num: int, den: int) -> int {
    let spacing = pow2(spacing_exponent(num, den)) as int;
    let rounded = rounded_half_even(num, den * spacing) * spacing;
    if rounded < infinity_steps() {
        rounded
    } else {
        infinity_steps()
    }
}

/// The exponent and fraction fields of the single nearest to `num / den` steps: the spacings
/// counted within a binade go on counting into the next.
#[verifier::opaque]
pub open spec fn nearest_bits(num: int, den: int) -> int {
    let k = spacing_exponent(num, den);
    let bits = k * FRACTION_SPAN + rounded_half_even(num, den * pow2(k));
    if bits < INFINITY_BITS {
        bits
    } else {
        INFINITY_BITS as int
    }
}

/// 2^k.
pub(crate) fn power_of_two(k: u32) -> (p: u64)
    requires
        k < 64,
    ensures
        p == pow2(k as nat),
{
    let mut p: u64 = 1;
    let mut i: u32 = 0;
    assert(pow2(0) == 1) by {
        lemma2_to64();
    }
    while i < k
        invariant
            i <= k < 64,
            p == pow2(i as nat),
        decreases k - i,
    {
        proof {
            lemma_pow2_unfold((i + 1) as nat);
            if i + 1 < 63 {
                lemma_pow2_strictly_increases((i + 1) as nat, 63);
            }
            lemma2_to64_rest();
        }
        p = p * 2;
        i = i + 1;
    }
    p
}

/// The doubling count is the one that brings the number under 24 bits and no further.
proof fn lemma_spacing_exponent(num: int, den: int, k: nat)
    requires
        den > 0,
        num < 0x100_0000 * (den * pow2(k)),
        k > 0 ==> 0x80_0000 * (den * pow2(k)) <= num,
    ensures
        spacing_exponent(num, den) == k,
    decreases k,
{
    lemma_pow2_pos(k);
    if k == 0 {
        lemma2_to64();
    } else {
        lemma_pow2_unfold(k);
        let j = (k - 1) as nat;
        lemma_pow2_pos(j);
        assert(den * pow2(k) == (2 * den) * pow2(j)) by (nonlinear_arith)
            requires
                pow2(k) == 2 * pow2(j),
        ;
        assert((2 * den) * pow2(j) >= 2 * den) by (nonlinear_arith)
            requires
                den > 0,
                pow2(j) >= 1,
        ;
        if j > 0 {
            assert(0x80_0000 * ((2 * den) * pow2(j)) <= num);
        }
        lemma_spacing_exponent(num, 2 * den, j);
    }
}

/// What the doubling count of a number says of its size.
proof fn lemma_spacing_bounds(num: int, den: int)
    requires
        den > 0,
    ensures
        num < 0x100_0000 * (den * pow2(spacing_exponent(num, den))),
        spacing_exponent(num, den) > 0 ==> 0x80_0000 * (den * pow2(spacing_exponent(num, den))) <= num,
    decreases num - den,
{
    let k = spacing_exponent(num, den);
    lemma2_to64();
    if num < 0x100_0000 * den {
    } else {
        lemma_spacing_bounds(num, 2 * den);
        let j = spacing_exponent(num, 2 * den);
        lemma_pow2_unfold(k);
        assert(k == j + 1);
        assert(den * pow2(k) == (2 * den) * pow2(j)) by (nonlinear_arith)
            requires
                pow2(k) == 2 * pow2(j),
        ;
        if j == 0 {
            assert((2 * den) * pow2(j) == 2 * den) by (nonlinear_arith)
                requires
                    pow2(j) == 1,
            ;
        }
    }
}

/// A magnitude as a whole number of its own spacing.
proof fn lemma_magnitude_shape(bits: int) -> (shape: (int, nat))
    requires
        0 <= bits < SIGN_BIT,
    ensures
        magnitude_steps(bits) == shape.0 * pow2(shape.1),
        0 <= shape.0 < 2 * FRACTION_SPAN,
{
    lemma2_to64();
    if bits < FRACTION_SPAN {
        assert(bits * pow2(0) == bits) by (nonlinear_arith)
            requires
                pow2(0) == 1,
        ;
        (bits, 0)
    } else {
        (FRACTION_SPAN + bits % FRACTION_SPAN as int, (bits / FRACTION_SPAN as int - 1) as nat)
    }
}

/// What is at least a single rounds to at least that single.
pub proof fn lemma_nearest_at_least(num: int, den: int, bits: int)
    requires
        den > 0,
        0 <= bits <= INFINITY_BITS,
        magnitude_steps(bits) * den <= num,
    ensures
        magnitude_steps(bits) <= nearest_steps(num, den),
{
    reveal(nearest_steps);
    let k = spacing_exponent(num, den);
    let spacing = pow2(k) as int;
    let step = den * spacing;
    let (m, j) = lemma_magnitude_shape(bits);
    let v = magnitude_steps(bits);
    lemma_magnitude_order(bits, INFINITY_BITS as int);
    lemma_magnitude_order(INFINITY_BITS as int, bits);
    lemma_spacing_bounds(num, den);
    lemma_pow2_pos(k);
    assert(step > 0) by (nonlinear_arith)
        requires
            step == den * spacing,
            den > 0,
            spacing >= 1,
    ;
    let c = if j >= k {
        m * pow2((j - k) as nat)
    } else {
        FRACTION_SPAN as int
    };
    if j >= k {
        lemma_pow2_adds((j - k) as nat, k);
        assert(v == c * spacing) by (nonlinear_arith)
            requires
                v == m * pow2(j),
                c == m * pow2((j - k) as nat),
                pow2(j) == pow2((j - k) as nat) * spacing,
        ;
        assert(c * step == v * den) by (nonlinear_arith)
            requires
                v == c * spacing,
                step == den * spacing,
        ;
    } else {
        lemma_pow2_unfold((j + 1) as nat);
        if j + 1 < k {
            lemma_pow2_strictly_increases((j + 1) as nat, k);
        }
        assert(v <= c * spacing) by (nonlinear_arith)
            requires
                v == m * pow2(j),
                m <= 2 * c,
                c >= 0,
                2 * pow2(j) <= spacing,
                pow2(j) >= 0,
        ;
    }
    assert(c * step <= num);
    vstd::arithmetic::div_mod::lemma_div_multiples_vanish(c, step);
    vstd::arithmetic::div_mod::lemma_div_is_ordered(c * step, num, step);
    assert(step * c == c * step) by (nonlinear_arith);
    let rounded = rounded_half_even(num, step);
    assert(rounded >= c);
    assert(v <= rounded * spacing) by (nonlinear_arith)
        requires
            v <= c * spacing,
            c <= rounded,
            spacing >= 1,
    ;
}

/// What is at most a single rounds to at most that single.
pub proof fn lemma_nearest_at_most(num: int, den: int, bits: int)
    requires
        den > 0,
        0 <= bits <= INFINITY_BITS,
        0 <= num <= magnitude_steps(bits) * den,
    ensures
        0 <= nearest_steps(num, den) <= magnitude_steps(bits),
{
    reveal(nearest_steps);
    let k = spacing_exponent(num, den);
    let spacing = pow2(k) as int;
    let step = den * spacing;
    let (m, j) = lemma_magnitude_shape(bits);
    let v = magnitude_steps(bits);
    lemma_magnitude_order(INFINITY_BITS as int, 0);
    lemma_spacing_bounds(num, den);
    lemma_pow2_pos(k);
    lemma_pow2_pos(j);
    assert(step > 0) by (nonlinear_arith)
        requires
            step == den * spacing,
            den > 0,
            spacing >= 1,
    ;
    vstd::arithmetic::div_mod::lemma_fundamental_div_mod(num, step);
    vstd::arithmetic::div_mod::lemma_div_pos_is_pos(num, step);
    let rounded = rounded_half_even(num, step);
    assert(rounded * spacing >= 0) by (nonlinear_arith)
        requires
            rounded >= 0,
            spacing >= 1,
    ;
    if j < k {
        lemma_pow2_unfold((j + 1) as nat);
        if j + 1 < k {
            lemma_pow2_strictly_increases((j + 1) as nat, k);
        }
        assert(v < FRACTION_SPAN * spacing) by (nonlinear_arith)
            requires
                v == m * pow2(j),
                m <= 2 * FRACTION_SPAN - 1,
                2 * pow2(j) <= spacing,
                pow2(j) >= 1,
        ;
        assert(v * den < FRACTION_SPAN * step) by (nonlinear_arith)
            requires
                v < FRACTION_SPAN * spacing,
                step == den * spacing,
                den > 0,
        ;
    } else {
        let c = m * pow2((j - k) as nat);
        lemma_pow2_adds((j - k) as nat, k);
        assert(v == c * spacing) by (nonlinear_arith)
            requires
                v == m * pow2(j),
                c == m * pow2((j - k) as nat),
                pow2(j) == pow2((j - k) as nat) * spacing,
        ;
        assert(c * step == v * den) by (nonlinear_arith)
            requires
                v == c * spacing,
                step == den * spacing,
        ;
        let whole = num / step;
        let rest = num % step;
        assert(whole <= c) by (nonlinear_arith)
            requires
                step * whole + rest <= c * step,
                rest >= 0,
                step > 0,
        ;
        if whole == c {
            assert(rest == 0) by (nonlinear_arith)
                requires
                    step * whole + rest <= c * step,
                    rest >= 0,
                    whole == c,
            ;
        }
        assert(rounded <= c);
        assert(rounded * spacing <= v) by (nonlinear_arith)
            requires
                rounded <= c,
                v == c * spacing,
                spacing >= 1,
        ;
    }
}

/// Scaling numerator and step alike changes no rounding.
proof fn lemma_rounded_scaled(n: int, step: int, t: int)
    requires
        n >= 0,
        step > 0,
        t > 0,
    ensures
        rounded_half_even(n * t, step * t) == rounded_half_even(n, step),
{
    let q = n / step;
    let r = n % step;
    vstd::arithmetic::div_mod::lemma_fundamental_div_mod(n, step);
    assert(n * t == q * (step * t) + r * t) by (nonlinear_arith)
        requires
            n == step * q + r,
    ;
    assert(0 <= r * t < step * t) by (nonlinear_arith)
        requires
            0 <= r < step,
            t > 0,
    ;
    vstd::arithmetic::div_mod::lemma_fundamental_div_mod_converse(n * t, step * t, q, r * t);
    assert(2 * r < step <==> 2 * (r * t) < step * t) by (nonlinear_arith)
        requires
            t > 0,
    ;
    assert(2 * r == step <==> 2 * (r * t) == step * t) by (nonlinear_arith)
        requires
            t > 0,
    ;
}

/// Rounding `m` units and a rest below one unit, in steps of `span` units.
proof fn lemma_rounded_in_units(m: int, rest: int, unit: int, span: int)
    requires
        m >= 0,
        unit > 0,
        0 <= rest < unit,
        span >= 2,
        span % 2 == 0,
    ensures
        rounded_half_even(m * unit + rest, span * unit) == ({
            let q = m / span;
            let left = m % span;
            if 2 * left > span || (2 * left == span && (rest > 0 || q % 2 == 1)) {
                q + 1
            } else {
                q
            }
        }),
{
    let q = m / span;
    let left = m % span;
    vstd::arithmetic::div_mod::lemma_fundamental_div_mod(m, span);
    let rem = left * unit + rest;
    assert(m * unit + rest == q * (span * unit) + rem) by (nonlinear_arith)
        requires
            m == span * q + left,
            rem == left * unit + rest,
    ;
    assert(0 <= rem < span * unit) by (nonlinear_arith)
        requires
            rem == left * unit + rest,
            0 <= left <= span - 1,
            0 <= rest < unit,
    ;
    vstd::arithmetic::div_mod::lemma_fundamental_div_mod_converse(m * unit + rest, span * unit, q, rem);
    if 2 * left > span {
        assert(2 * rem > span * unit) by (nonlinear_arith)
            requires
                rem == left * unit + rest,
                2 * left >= span + 1,
                rest >= 0,
                unit > 0,
        ;
    } else if 2 * left == span {
        assert(2 * rem == span * unit + 2 * rest) by (nonlinear_arith)
            requires
                rem == left * unit + rest,
                2 * left == span,
        ;
    } else {
        assert(2 * left <= span - 2);
        assert(2 * rem < span * unit) by (nonlinear_arith)
            requires
                rem == left * unit + rest,
                2 * left <= span - 2,
                rest < unit,
                unit > 0,
        ;
    }
}

/// What rounding to a spacing of `2^k` steps comes to, when `num * 2^a` is `m` units of
/// `den * 2^b` and a rest below one unit, and `s` units make a spacing.
proof fn lemma_pack(m: int, rest: int, num: int, den: int, a: nat, b: nat, s: nat, k: nat)
    requires
        m >= 0,
        num >= 0,
        den > 0,
        num * pow2(a) == m * (den * pow2(b)) + rest,
        0 <= rest < den * pow2(b),
        s >= 1,
        s + b == k + a,
        m / (pow2(s) as int) < 2 * FRACTION_SPAN,
        k > 0 ==> m / (pow2(s) as int) >= FRACTION_SPAN,
    ensures
        spacing_exponent(num, den) == k,
        rounded_half_even(num, den * pow2(k)) == ({
            let q = m / (pow2(s) as int);
            let left = m % (pow2(s) as int);
            if 2 * left > pow2(s) || (2 * left == pow2(s) && (rest > 0 || q % 2 == 1)) {
                q + 1
            } else {
                q
            }
        }),
{
    let unit = den * pow2(b);
    let span = pow2(s) as int;
    let step = den * pow2(k);
    let t = pow2(a) as int;
    lemma_pow2_pos(a);
    lemma_pow2_pos(b);
    lemma_pow2_pos(s);
    lemma_pow2_pos(k);
    lemma_pow2_unfold(s);
    lemma_pow2_pos((s - 1) as nat);
    lemma_pow2_adds(s, b);
    lemma_pow2_adds(k, a);
    assert(unit > 0) by (nonlinear_arith)
        requires
            unit == den * pow2(b),
            den > 0,
            pow2(b) >= 1,
    ;
    assert(step > 0) by (nonlinear_arith)
        requires
            step == den * pow2(k),
            den > 0,
            pow2(k) >= 1,
    ;
    assert(step * t == span * unit) by (nonlinear_arith)
        requires
            step == den * pow2(k),
            t == pow2(a),
            unit == den * pow2(b),
            span == pow2(s),
            pow2(s) * pow2(b) == pow2(k) * pow2(a),
    ;
    lemma_rounded_scaled(num, step, t);
    lemma_rounded_in_units(m, rest, unit, span);
    let q = m / span;
    let left = m % span;
    vstd::arithmetic::div_mod::lemma_fundamental_div_mod(m, span);
    assert(m * unit + rest < 0x100_0000 * (span * unit)) by (nonlinear_arith)
        requires
            m == span * q + left,
            left <= span - 1,
            q <= 0xFF_FFFF,
            rest < unit,
            unit > 0,
            span >= 1,
    ;
    assert(num < 0x100_0000 * step) by (nonlinear_arith)
        requires
            num * t < 0x100_0000 * (step * t),
            t > 0,
    ;
    if k > 0 {
        assert(0x80_0000 * (span * unit) <= m * unit + rest) by (nonlinear_arith)
            requires
                m == span * q + left,
                left >= 0,
                q >= 0x80_0000,
                rest >= 0,
                unit > 0,
                span >= 1,
        ;
        assert(0x80_0000 * step <= num) by (nonlinear_arith)
            requires
                0x80_0000 * (step * t) <= num * t,
                t > 0,
        ;
    }
    lemma_spacing_exponent(num, den, k);
}

/// `mag` spacings of `2^k` steps have the bits `k * 2^23 + mag`.
proof fn lemma_packed_steps(mag: int, k: nat)
    requires
        0 <= mag <= 2 * FRACTION_SPAN,
        k > 0 ==> mag >= FRACTION_SPAN,
    ensures
        magnitude_steps(k * FRACTION_SPAN + mag) == mag * pow2(k),
{
    let span = FRACTION_SPAN as int;
    let bits = k * span + mag;
    lemma2_to64();
    if bits < span {
        assert(k == 0);
    } else if mag == 2 * span {
        lemma_pow2_unfold((k + 1) as nat);
        vstd::arithmetic::div_mod::lemma_fundamental_div_mod_converse(bits, span, k as int + 2, 0);
        assert(span * (2 * pow2(k)) == (2 * span) * pow2(k)) by (nonlinear_arith);
    } else {
        assert(mag >= span);
        vstd::arithmetic::div_mod::lemma_fundamental_div_mod_converse(bits, span, k as int + 1, mag - span);
    }
}

/// Rounds to a magnitude: the bits of the single nearest to `num / den` steps, where
/// `num * 2^a` is `m` units of `den * 2^b` and a rest below one unit, and `e` is `b - a`.
pub(crate) fn pack(
    m: u64,
    e: i32,
    sticky: bool,
    Ghost(num): Ghost<int>,
    Ghost(den): Ghost<int>,
    Ghost(a): Ghost<nat>,
    Ghost(b): Ghost<nat>,
    Ghost(rest): Ghost<int>,
) -> (bits: u32)
    requires
        0x200_0000 <= m < 0x8000_0000_0000_0000,
        -1000 < e < 1000,
        e == b - a,
        num >= 0,
        den > 0,
        num * pow2(a) == m * (den * pow2(b)) + rest,
        0 <= rest < den * pow2(b),
        sticky == (rest > 0),
    ensures
        bits == nearest_bits(num, den),
{
    reveal(nearest_bits);
    // The shift that leaves 24 significant bits.
    let mut shift: i32 = 1;
    let mut span: u64 = 2;
    proof {
        lemma2_to64();
    }
    while m / span >= 0x100_0000
        invariant
            1 <= shift <= 39,
            span == pow2(shift as nat),
            2 <= span <= 0x80_0000_0000,
            m < 0x8000_0000_0000_0000,
            m / span >= FRACTION_SPAN,
        decreases 40 - shift,
    {
        proof {
            lemma_pow2_unfold((shift + 1) as nat);
            vstd::arithmetic::div_mod::lemma_div_denominator(m as int, span as int, 2);
            lemma2_to64();
            lemma2_to64_rest();
            if shift >= 39 {
                assert(m / 0x80_0000_0000 < 0x100_0000);
            } else if shift + 1 < 39 {
                lemma_pow2_strictly_increases((shift + 1) as nat, 39);
            }
        }
        span = span * 2;
        shift = shift + 1;
    }
    if shift + e < 0 {
        // Below the normal range the spacing stays at one step.
        let ghost narrow = span;
        proof {
            lemma_pow2_strictly_increases(shift as nat, (-e) as nat);
        }
        shift = -e;
        if shift >= 64 {
            proof {
                lemma2_to64();
                lemma2_to64_rest();
                if shift > 64 {
                    lemma_pow2_strictly_increases(64, shift as nat);
                }
                vstd::arithmetic::div_mod::lemma_fundamental_div_mod_converse(m as int, pow2(shift as nat) as int, 0, m as int);
                lemma_pack(m as int, rest, num, den, a, b, shift as nat, 0);
                lemma_magnitude_order(0, INFINITY_BITS as int);
            }
            return 0;
        }
        span = power_of_two(shift as u32);
        proof {
            vstd::arithmetic::div_mod::lemma_div_is_ordered_by_denominator(m as int, narrow as int, span as int);
        }
    }
    let q: u64 = m / span;
    let left: u64 = m % span;
    let up: bool = left > span - left || (left == span - left && (sticky || q % 2 == 1));
    let mag: u64 = if up { q + 1 } else { q };
    let k: i32 = shift + e;
    proof {
        lemma_pack(m as int, rest, num, den, a, b, shift as nat, k as nat);
    }
    if k >= 254 {
        return INFINITY_BITS;
    }
    let bits: u32 = k as u32 * FRACTION_SPAN + mag as u32;
    if bits < INFINITY_BITS {
        bits
    } else {
        INFINITY_BITS
    }
}

/// Rounds an exact magnitude of `m` units of `2^e` steps, however few its bits.
pub(crate) fn pack_exact(
    m: u64,
    e: i32,
    Ghost(num): Ghost<int>,
    Ghost(den): Ghost<int>,
    Ghost(a): Ghost<nat>,
    Ghost(b): Ghost<nat>,
) -> (bits: u32)
    requires
        0 < m < 0x8000_0000_0000_0000,
        -900 < e < 1000,
        e == b - a,
        num >= 0,
        den > 0,
        num * pow2(a) == m * (den * pow2(b)),
    ensures
        bits == nearest_bits(num, den),
{
    let mut wide: u64 = m;
    let mut lifted: i32 = 0;
    let ghost mut c = a;
    proof {
        lemma2_to64();
    }
    while wide < 0x200_0000
        invariant
            0 < wide < 0x8000_0000_0000_0000,
            0 <= lifted <= 25,
            c == a + lifted,
            num * pow2(c) == wide * (den * pow2(b)),
            pow2(lifted as nat) <= wide,
        decreases 25 - lifted,
    {
        proof {
            lemma2_to64();
            lemma_pow2_unfold((c + 1) as nat);
            lemma_pow2_unfold((lifted + 1) as nat);
            assert(num * pow2((c + 1) as nat) == (wide * 2) * (den * pow2(b))) by (nonlinear_arith)
                requires
                    num * pow2(c) == wide * (den * pow2(b)),
                    pow2((c + 1) as nat) == 2 * pow2(c),
            ;
            c = (c + 1) as nat;
        }
        wide = wide * 2;
        lifted = lifted + 1;
    }
    proof {
        lemma_pow2_pos(b);
        assert(den * pow2(b) > 0) by (nonlinear_arith)
            requires
                den > 0,
                pow2(b) >= 1,
        ;
    }
    pack(wide, e - lifted, false, Ghost(num), Ghost(den), Ghost(c), Ghost(b), Ghost(0))
}

/// The fields found by counting spacings denote the rounded number.
pub proof fn lemma_nearest_bits(num: int, den: int)
    requires
        num >= 0,
        den > 0,
    ensures
        0 <= nearest_bits(num, den) <= INFINITY_BITS,
        magnitude_steps(nearest_bits(num, den)) == nearest_steps(num, den),
{
    reveal(nearest_steps);
    reveal(nearest_bits);
    let k = spacing_exponent(num, den);
    let step = den * pow2(k);
    let mag = rounded_half_even(num, step);
    let bits = k * FRACTION_SPAN + mag;
    lemma_spacing_bounds(num, den);
    lemma_pow2_pos(k);
    assert(step > 0) by (nonlinear_arith)
        requires
            step == den * pow2(k),
            den > 0,
            pow2(k) >= 1,
    ;
    vstd::arithmetic::div_mod::lemma_fundamental_div_mod(num, step);
    let whole = num / step;
    let rest = num % step;
    assert(0 <= whole <= 0xFF_FFFF) by (nonlinear_arith)
        requires
            num == step * whole + rest,
            0 <= num < 0x100_0000 * step,
            0 <= rest < step,
    ;
    if k > 0 {
        assert(step * (whole - 0x7F_FFFF) > 0) by (nonlinear_arith)
            requires
                num == step * whole + rest,
                0x80_0000 * step <= num,
                rest < step,
        ;
        assert(whole - 0x7F_FFFF > 0) by (nonlinear_arith)
            requires
                step * (whole - 0x7F_FFFF) > 0,
                step > 0,
        ;
    }
    lemma_packed_steps(mag, k);
    if k >= 254 {
        if k > 254 {
            lemma_pow2_strictly_increases(254, k);
        }
        assert(mag * pow2(k) >= FRACTION_SPAN * pow2(254)) by (nonlinear_arith)
            requires
                mag >= FRACTION_SPAN,
                pow2(k) >= pow2(254),
                pow2(254) >= 0,
        ;
    } else {
        lemma_magnitude_order(bits, INFINITY_BITS as int);
    }
}

/// Expanding a fraction changes no rounding.
pub proof fn lemma_nearest_scaled(num: int, den: int, t: int)
    requires
        num >= 0,
        den > 0,
        t > 0,
    ensures
        nearest_bits(num * t, den * t) == nearest_bits(num, den),
{
    reveal(nearest_bits);
    let k = spacing_exponent(num, den);
    let step = den * pow2(k);
    lemma_spacing_bounds(num, den);
    lemma_pow2_pos(k);
    assert(step > 0) by (nonlinear_arith)
        requires
            step == den * pow2(k),
            den > 0,
            pow2(k) >= 1,
    ;
    assert(den * t > 0) by (nonlinear_arith)
        requires
            den > 0,
            t > 0,
    ;
    assert((den * t) * pow2(k) == step * t) by (nonlinear_arith)
        requires
            step == den * pow2(k),
    ;
    assert(num * t < 0x100_0000 * (step * t)) by (nonlinear_arith)
        requires
            num < 0x100_0000 * step,
            t > 0,
    ;
    if k > 0 {
        assert(0x80_0000 * (step * t) <= num * t) by (nonlinear_arith)
            requires
                0x80_0000 * step <= num,
                t > 0,
        ;
    }
    lemma_spacing_exponent(num * t, den * t, k);
    lemma_rounded_scaled(num, step, t);
}

/// Whole numbers of up to 24 bits are singles.
pub proof fn lemma_whole_exact(n: int)
    requires
        0 <= n < 0x100_0000,
    ensures
        magnitude_steps(nearest_bits(n * one_steps(), 1)) == n * one_steps(),
{
    reveal(nearest_steps);
    let one = one_steps();
    let num = n * one;
    let k = spacing_exponent(num, 1);
    lemma_pow2_pos(149);
    assert(0 <= num < 0x100_0000 * one) by (nonlinear_arith)
        requires
            num == n * one,
            0 <= n < 0x100_0000,
            one >= 1,
    ;
    lemma_spacing_bounds(num, 1);
    lemma_nearest_bits(num, 1);
    if k > 149 {
        lemma_pow2_unfold(150);
        if k > 150 {
            lemma_pow2_strictly_increases(150, k);
        }
        assert(false);
    }
    let spacing = pow2(k) as int;
    let c = n * pow2((149 - k) as nat);
    lemma_pow2_pos(k);
    lemma_pow2_adds((149 - k) as nat, k);
    assert(num == c * spacing) by (nonlinear_arith)
        requires
            num == n * one,
            c == n * pow2((149 - k) as nat),
            one == pow2((149 - k) as nat) * spacing,
    ;
    vstd::arithmetic::div_mod::lemma_fundamental_div_mod_converse(num, spacing, c, 0);
    assert(rounded_half_even(num, 1 * spacing) == c);
    // Far below the largest finite number.
    lemma_pow2_adds(24, 149);
    lemma_pow2_adds(23, 254);
    lemma2_to64();
    lemma_pow2_strictly_increases(173, 277);
    assert(num < infinity_steps());
}

/// Below `2.0`, rounding is off by at most half a spacing of the numbers from `1.0` on, which is
/// 2^125 steps; from `1.0` on, the result is a whole number of such spacings.
pub proof fn lemma_nearest_error(num: int, den: int)
    requires
        den > 0,
        0 <= num < 2 * one_steps() * den,
    ensures
        nearest_steps(num, den) * den <= num + den * pow2(125),
        num <= nearest_steps(num, den) * den + den * pow2(125),
        one_steps() * den <= num ==> nearest_steps(num, den) % pow2(126) as int == 0,
{
    reveal(nearest_steps);
    let k = spacing_exponent(num, den);
    let spacing = pow2(k) as int;
    let step = den * spacing;
    let half = pow2(125) as int;
    lemma_spacing_bounds(num, den);
    lemma_pow2_pos(k);
    lemma_pow2_pos(125);
    lemma2_to64();
    lemma_pow2_unfold(126);
    lemma_pow2_adds(23, 126);
    lemma_pow2_adds(24, 126);
    lemma_pow2_unfold(150);
    assert(step > 0) by (nonlinear_arith)
        requires
            step == den * spacing,
            den > 0,
            spacing >= 1,
    ;
    assert(one_steps() == 0x80_0000 * (2 * half));
    if k > 126 {
        lemma_pow2_unfold(127);
        if k > 127 {
            lemma_pow2_strictly_increases(127, k);
        }
        assert(0x80_0000 * step >= 2 * one_steps() * den) by (nonlinear_arith)
            requires
                step == den * spacing,
                spacing >= 4 * half,
                one_steps() == 0x80_0000 * (2 * half),
                den > 0,
        ;
        assert(false);
    }
    if k < 126 {
        lemma_pow2_strictly_increases(k, 126);
    }
    assert(spacing <= 2 * half);
    let rounded = rounded_half_even(num, step);
    vstd::arithmetic::div_mod::lemma_fundamental_div_mod(num, step);
    let whole = num / step;
    let rest = num % step;
    assert(step * (whole + 1) == step * whole + step) by (nonlinear_arith);
    assert(2 * (rounded * step) <= 2 * num + step && 2 * num <= 2 * (rounded * step) + step) by {
        assert(step * rounded == rounded * step) by (nonlinear_arith);
    }
    let r = rounded * spacing;
    assert(r * den == rounded * step) by (nonlinear_arith)
        requires
            r == rounded * spacing,
            step == den * spacing,
    ;
    assert(step <= 2 * (den * half)) by (nonlinear_arith)
        requires
            step == den * spacing,
            spacing <= 2 * half,
            den > 0,
    ;
    // Far below the largest finite number.
    assert(r <= 2 * one_steps() + half) by (nonlinear_arith)
        requires
            r * den <= num + den * half,
            num < 2 * one_steps() * den,
            den > 0,
    ;
    lemma_pow2_adds(23, 254);
    lemma_pow2_strictly_increases(125, 149);
    lemma_pow2_unfold(151);
    lemma_pow2_strictly_increases(151, 277);
    assert(r < infinity_steps());
    if one_steps() * den <= num {
        assert(0x80_0000 * (den * (2 * half)) == one_steps() * den) by (nonlinear_arith)
            requires
                one_steps() == 0x80_0000 * (2 * half),
        ;
        assert(0x100_0000 * (den * (2 * half)) == 2 * one_steps() * den) by (nonlinear_arith)
            requires
                one_steps() == 0x80_0000 * (2 * half),
        ;
        lemma_spacing_exponent(num, den, 126);
        vstd::arithmetic::div_mod::lemma_mod_multiples_basic(rounded, spacing);
    }
}

/// Rounding is off by at most one part in 2^24 of the number, or by half of the smallest step
/// where that is more.
pub proof fn lemma_nearest_relative(num: int, den: int)
    requires
        den > 0,
        0 <= num < pow2(200) * den,
    ensures
        nearest_steps(num, den) >= 0,
        0x100_0000 * (nearest_steps(num, den) * den - num) <= num + 0x80_0000 * den,
        0x100_0000 * (num - nearest_steps(num, den) * den) <= num + 0x80_0000 * den,
        num >= 0x100_0000 * den ==> 0x100_0000 * (nearest_steps(num, den) * den - num) <= num,
        num >= 0x100_0000 * den ==> 0x100_0000 * (num - nearest_steps(num, den) * den) <= num,
        magnitude_steps(nearest_bits(num, den)) == nearest_steps(num, den),
        0 <= nearest_bits(num, den) < INFINITY_BITS,
{
    reveal(nearest_steps);
    let k = spacing_exponent(num, den);
    let spacing = pow2(k) as int;
    let step = den * spacing;
    lemma_spacing_bounds(num, den);
    lemma_pow2_pos(k);
    lemma_pow2_pos(200);
    lemma2_to64();
    assert(step > 0) by (nonlinear_arith)
        requires
            step == den * spacing,
            den > 0,
            spacing >= 1,
    ;
    if k == 0 {
        assert(step == den) by (nonlinear_arith)
            requires
                step == den * spacing,
                spacing == 1,
        ;
    }
    let rounded = rounded_half_even(num, step);
    vstd::arithmetic::div_mod::lemma_fundamental_div_mod(num, step);
    let whole = num / step;
    vstd::arithmetic::div_mod::lemma_div_pos_is_pos(num, step);
    assert(step * (whole + 1) == step * whole + step) by (nonlinear_arith);
    assert(2 * (rounded * step) <= 2 * num + step && 2 * num <= 2 * (rounded * step) + step) by {
        assert(step * rounded == rounded * step) by (nonlinear_arith);
    }
    let r = rounded * spacing;
    assert(r * den == rounded * step) by (nonlinear_arith)
        requires
            r == rounded * spacing,
            step == den * spacing,
    ;
    assert(r >= 0) by (nonlinear_arith)
        requires
            r == rounded * spacing,
            rounded >= 0,
            spacing >= 1,
    ;
    // Far below the largest finite number.
    assert(r <= 2 * pow2(200) + 1) by (nonlinear_arith)
        requires
            r * den <= 2 * num + den,
            num < pow2(200) * den,
            den > 0,
    ;
    lemma_pow2_adds(23, 254);
    lemma_pow2_unfold(201);
    lemma_pow2_unfold(202);
    lemma_pow2_strictly_increases(202, 277);
    assert(r < infinity_steps());
    lemma_nearest_bits(num, den);
    lemma_magnitude_order(nearest_bits(num, den), INFINITY_BITS as int);
}

/// Rounding keeps order.
pub proof fn lemma_nearest_monotone(a: int, b: int, den: int)
    requires
        den > 0,
        0 <= a <= b,
    ensures
        nearest_steps(a, den) <= nearest_steps(b, den),
{
    reveal(nearest_steps);
    let j = spacing_exponent(a, den);
    let k = spacing_exponent(b, den);
    lemma_spacing_bounds(a, den);
    lemma_spacing_bounds(b, den);
    lemma_pow2_pos(j);
    lemma_pow2_pos(k);
    let s = den * pow2(j);
    let t = den * pow2(k);
    assert(s > 0) by (nonlinear_arith)
        requires
            s == den * pow2(j),
            den > 0,
            pow2(j) >= 1,
    ;
    assert(t > 0) by (nonlinear_arith)
        requires
            t == den * pow2(k),
            den > 0,
            pow2(k) >= 1,
    ;
    let ra = rounded_half_even(a, s);
    let rb = rounded_half_even(b, t);
    vstd::arithmetic::div_mod::lemma_fundamental_div_mod(a, s);
    vstd::arithmetic::div_mod::lemma_fundamental_div_mod(b, t);
    if j == k {
        vstd::arithmetic::div_mod::lemma_div_is_ordered(a, b, s);
        assert(ra <= rb) by {
            if a / s == b / s {
                assert(a % s <= b % s);
            }
        }
        assert(ra * pow2(j) <= rb * pow2(k)) by (nonlinear_arith)
            requires
                ra <= rb,
                j == k,
                pow2(k) >= 1,
        ;
    } else if j < k {
        lemma_pow2_unfold((j + 1) as nat);
        if j + 1 < k {
            lemma_pow2_strictly_increases((j + 1) as nat, k);
        }
        assert(a / s <= 0xFF_FFFF) by (nonlinear_arith)
            requires
                a == s * (a / s) + a % s,
                a % s >= 0,
                a < 0x100_0000 * s,
                s > 0,
        ;
        assert(b / t >= 0x80_0000) by (nonlinear_arith)
            requires
                b == t * (b / t) + b % t,
                b % t < t,
                0x80_0000 * t <= b,
                t > 0,
        ;
        assert(ra * pow2(j) <= rb * pow2(k)) by (nonlinear_arith)
            requires
                ra <= 0x100_0000,
                rb >= 0x80_0000,
                2 * pow2(j) <= pow2(k),
                pow2(j) >= 1,
        ;
    } else {
        lemma_pow2_unfold((k + 1) as nat);
        if k + 1 < j {
            lemma_pow2_strictly_increases((k + 1) as nat, j);
        }
        assert(0x80_0000 * s >= 0x100_0000 * t) by (nonlinear_arith)
            requires
                s == den * pow2(j),
                t == den * pow2(k),
                2 * pow2(k) <= pow2(j),
                den > 0,
        ;
        assert(false);
    }
}

/// A single is the nearest to itself.
pub proof fn lemma_nearest_exact(bits: int)
    requires
        0 <= bits <= INFINITY_BITS,
    ensures
        nearest_bits(magnitude_steps(bits), 1) == bits,
{
    let v = magnitude_steps(bits);
    lemma_magnitude_order(bits, 0);
    lemma_nearest_at_least(v, 1, bits);
    lemma_nearest_at_most(v, 1, bits);
    lemma_nearest_bits(v, 1);
    lemma_magnitude_order(nearest_bits(v, 1), bits);
    lemma_magnitude_order(bits, nearest_bits(v, 1));
}

/// The bits of the single nearest to `n`.
fn pack_whole(n: u64) -> (bits: u32)
    requires
        n < 0x10_0000_0000,
    ensures
        bits == nearest_bits(n * one_steps(), 1),
        n == 0 ==> bits == 0,
        n > 0 ==> ONE_BITS <= bits < INFINITY_BITS,
{
    let ghost one = one_steps();
    proof {
        lemma_pow2_pos(149);
        lemma2_to64();
        lemma2_to64_rest();
    }
    if n == 0 {
        proof {
            lemma_nearest_at_most(0, 1, 0);
            lemma_nearest_bits(0, 1);
            lemma_magnitude_order(nearest_bits(0, 1), 0);
        }
        return 0;
    }
    let ghost num = n * one;
    proof {
        lemma_pow2_adds(26, 123);
        lemma_pow2_adds(23, 126);
        lemma_pow2_adds(36, 149);
        lemma_pow2_adds(23, 162);
        assert(pow2(0) == 1);
        assert(num * pow2(0) == (n * 0x400_0000) * (1 * pow2(123))) by (nonlinear_arith)
            requires
                num == n * one,
                one == 0x400_0000 * pow2(123),
                pow2(0) == 1,
        ;
        lemma_pow2_pos(123);
        assert(num >= one) by (nonlinear_arith)
            requires
                num == n * one,
                n >= 1,
                one >= 1,
        ;
        assert(num <= 0x10_0000_0000 * one) by (nonlinear_arith)
            requires
                num == n * one,
                n <= 0x10_0000_0000,
                one >= 1,
        ;
        lemma_nearest_bits(num, 1);
        lemma_nearest_at_least(num, 1, ONE_BITS as int);
        lemma_nearest_at_most(num, 1, 0x5180_0000);
    }
    let bits: u32 = pack(n * 0x400_0000, 123, false, Ghost(num), Ghost(1), Ghost(0), Ghost(123), Ghost(0));
    proof {
        lemma_magnitude_order(bits as int, ONE_BITS as int);
        lemma_magnitude_order(0x5180_0000, bits as int);
    }
    bits
}

/// What the rounding of a magnitude comes to, by the exponent field.
proof fn lemma_rounded_by_exponent(e: int, m: int)
    requires
        1 <= e <= TOP_EXPONENT,
        FRACTION_SPAN <= m < 2 * FRACTION_SPAN,
    ensures
        e <= 125 ==> rounded_half_up(m * pow2((e - 1) as nat)) == 0,
        126 <= e <= 149 ==> rounded_half_up(m * pow2((e - 1) as nat)) == (m + pow2((149 - e) as nat)) / (pow2((150 - e) as nat) as int),
        150 <= e ==> rounded_half_up(m * pow2((e - 1) as nat)) == m * pow2((e - 150) as nat),
{
    let one = one_steps();
    let steps = m * pow2((e - 1) as nat);
    lemma_pow2_pos((e - 1) as nat);
    lemma_pow2_pos(149);
    assert(steps >= 0) by (nonlinear_arith)
        requires
            steps == m * pow2((e - 1) as nat),
            m >= 0,
    ;
    if e <= 125 {
        assert(pow2((e - 1) as nat) <= pow2(124)) by {
            if e - 1 < 124 {
                lemma_pow2_strictly_increases((e - 1) as nat, 124);
            }
        }
        assert(pow2(149) == pow2(124) * pow2(25)) by {
            lemma_pow2_adds(124, 25);
        }
        assert(pow2(25) == 0x200_0000) by {
            lemma2_to64();
        }
        assert(2 * steps < one) by (nonlinear_arith)
            requires
                steps == m * pow2((e - 1) as nat),
                m < 0x100_0000,
                pow2((e - 1) as nat) <= pow2(124),
                one == pow2(124) * 0x200_0000,
                pow2((e - 1) as nat) >= 1,
        ;
        vstd::arithmetic::div_mod::lemma_fundamental_div_mod_converse(2 * steps + one, 2 * one, 0, 2 * steps + one);
    } else if e <= 149 {
        let h = pow2((149 - e) as nat) as int;
        let d = pow2((150 - e) as nat) as int;
        let k = pow2(e as nat) as int;
        lemma_pow2_unfold((150 - e) as nat);
        lemma_pow2_unfold(e as nat);
        lemma_pow2_pos(e as nat);
        lemma_pow2_pos((149 - e) as nat);
        lemma_pow2_adds((149 - e) as nat, e as nat);
        assert(d == 2 * h);
        assert(one == h * k);
        assert(2 * steps == m * k) by (nonlinear_arith)
            requires
                steps == m * pow2((e - 1) as nat),
                k == 2 * pow2((e - 1) as nat),
        ;
        let q = (m + h) / d;
        let r = (m + h) % d;
        vstd::arithmetic::div_mod::lemma_fundamental_div_mod(m + h, d);
        assert(2 * steps + one == q * (2 * one) + r * k) by (nonlinear_arith)
            requires
                2 * steps == m * k,
                one == h * k,
                d == 2 * h,
                m + h == d * q + r,
        ;
        assert(0 <= r * k < 2 * one) by (nonlinear_arith)
            requires
                0 <= r < d,
                d == 2 * h,
                one == h * k,
                k >= 1,
        ;
        vstd::arithmetic::div_mod::lemma_fundamental_div_mod_converse(2 * steps + one, 2 * one, q, r * k);
    } else {
        let v = m * pow2((e - 150) as nat);
        lemma_pow2_adds((e - 150) as nat, 149);
        assert(steps == v * one) by (nonlinear_arith)
            requires
                steps == m * pow2((e - 1) as nat),
                v == m * pow2((e - 150) as nat),
                pow2((e - 1) as nat) == pow2((e - 150) as nat) * one,
        ;
        assert(2 * steps + one == v * (2 * one) + one) by (nonlinear_arith)
            requires
                steps == v * one,
        ;
        vstd::arithmetic::div_mod::lemma_fundamental_div_mod_converse(2 * steps + one, 2 * one, v, one);
    }
}

impl Single {
    /// Whether this is not a number.
    pub fn nan(self) -> (r: bool)
        ensures
            r == self.is_nan(),
    {
        self.bits % SIGN_BIT > INFINITY_BITS
    }

    /// Whether this is a number other than an infinity.
    pub fn finite(self) -> (r: bool)
        ensures
            r == self.is_finite(),
    {
        self.bits % SIGN_BIT < INFINITY_BITS
    }

    /// IEEE order: false as soon as one side is not a number.
    pub fn less_than(self, other: Single) -> (r: bool)
        ensures
            r == (!self.is_nan() && !other.is_nan() && self.steps() < other.steps()),
    {
        let a: u32 = self.bits % SIGN_BIT;
        let b: u32 = other.bits % SIGN_BIT;
        proof {
            lemma_magnitude_order(a as int, b as int);
            lemma_magnitude_order(b as int, a as int);
        }
        if a > INFINITY_BITS || b > INFINITY_BITS {
            return false;
        }
        if self.bits < SIGN_BIT {
            other.bits < SIGN_BIT && a < b
        } else if other.bits < SIGN_BIT {
            a != 0 || b != 0
        } else {
            b < a
        }
    }

    /// The larger of the two; a side that is not a number gives way to the other.
    pub fn larger(self, other: Single) -> (r: Single)
        ensures
            r == self.larger_of(other),
    {
        if self.nan() || self.less_than(other) {
            other
        } else {
            self
        }
    }

    /// The larger of the two; a side that is not a number gives way to the other.
    pub open spec fn larger_of(self, other: Single) -> Single {
        if self.is_nan() || (!other.is_nan() && self.steps() < other.steps()) {
            other
        } else {
            self
        }
    }

    /// The smaller of the two; a side that is not a number gives way to the other.
    pub fn smaller(self, other: Single) -> (r: Single)
        ensures
            r == self.smaller_of(other),
    {
        if self.nan() || other.less_than(self) {
            other
        } else {
            self
        }
    }

    /// The smaller of the two; a side that is not a number gives way to the other.
    pub open spec fn smaller_of(self, other: Single) -> Single {
        if self.is_nan() || (!other.is_nan() && other.steps() < self.steps()) {
            other
        } else {
            self
        }
    }

    /// `round().max(0) as u32`: the nearest whole number, halves away from zero, held to the
    /// range of `u32`; 0 for what is negative or not a number.
    pub fn round_to_u32(self) -> (r: u32)
        ensures
            r == self.nearest_u32(),
    {
        if self.bits >= SIGN_BIT || self.bits > INFINITY_BITS {
            proof {
                lemma_magnitude_order(self.magnitude_bits(), 0);
                lemma_pow2_pos(149);
                vstd::arithmetic::div_mod::lemma_fundamental_div_mod_converse(one_steps(), 2 * one_steps(), 0, one_steps());
            }
            return 0;
        }
        let e: u32 = self.bits / FRACTION_SPAN;
        let m: u32 = FRACTION_SPAN + self.bits % FRACTION_SPAN;
        if e == 0 {
            proof {
                lemma_magnitude_order(self.magnitude_bits(), FRACTION_SPAN as int);
                lemma_rounded_by_exponent(1, FRACTION_SPAN as int);
                lemma2_to64();
                lemma_pow2_pos(149);
                vstd::arithmetic::div_mod::lemma_div_is_ordered(
                    2 * self.steps() + one_steps(),
                    2 * (FRACTION_SPAN * pow2(0)) + one_steps(),
                    2 * one_steps(),
                );
                vstd::arithmetic::div_mod::lemma_div_pos_is_pos(2 * self.steps() + one_steps(), 2 * one_steps());
            }
            return 0;
        }
        proof {
            lemma_rounded_by_exponent(e as int, m as int);
        }
        if e <= 125 {
            0
        } else if e <= 149 {
            let half: u64 = power_of_two(149 - e);
            let span: u64 = power_of_two(150 - e);
            proof {
                lemma_pow2_pos((150 - e) as nat);
                if 149 - e < 24 {
                    lemma_pow2_strictly_increases((149 - e) as nat, 24);
                }
                lemma2_to64();
                vstd::arithmetic::div_mod::lemma_div_is_ordered_by_denominator(m + half, 1, span as int);
            }
            ((m as u64 + half) / span) as u32
        } else if e <= 158 {
            let scale: u64 = power_of_two(e - 150);
            proof {
                if e - 150 < 8 {
                    lemma_pow2_strictly_increases((e - 150) as nat, 8);
                }
                lemma2_to64();
                assert(m * scale < 0x1_0000_0000) by (nonlinear_arith)
                    requires
                        m < 0x100_0000,
                        scale <= 0x100,
                ;
            }
            (m as u64 * scale) as u32
        } else {
            proof {
                if 9 < e - 150 {
                    lemma_pow2_strictly_increases(9, (e - 150) as nat);
                }
                lemma2_to64();
                assert(m * pow2((e - 150) as nat) >= 0x1_0000_0000) by (nonlinear_arith)
                    requires
                        m >= 0x80_0000,
                        pow2((e - 150) as nat) >= 0x200,
                ;
            }
            0xFFFF_FFFF
        }
    }

    /// The single nearest to `n`.
    pub fn from_u32(n: u32) -> (r: Single)
        ensures
            r.bits == nearest_bits(n * one_steps(), 1),
            r.steps() == nearest_steps(n * one_steps(), 1),
            n == 0 ==> r.bits == 0,
            n > 0 ==> ONE_BITS <= r.bits < INFINITY_BITS,
    {
        proof {
            lemma_pow2_pos(149);
            assert(n * one_steps() >= 0) by (nonlinear_arith)
                requires
                    n >= 0,
                    one_steps() >= 0,
            ;
            lemma_nearest_bits(n * one_steps(), 1);
        }
        Single { bits: pack_whole(n as u64) }
    }

    /// Half of the single nearest to `n`: one less in the exponent.
    pub open spec fn half_of(n: u32) -> Single {
        let whole = nearest_bits(n * one_steps(), 1);
        Single { bits: (if n == 0 { 0 } else { whole - FRACTION_SPAN }) as u32 }
    }

    /// Half of the single nearest to `n`.
    pub fn half_of_u32(n: u32) -> (r: Single)
        ensures
            r == Single::half_of(n),
            2 * r.steps() == nearest_steps(n * one_steps(), 1),
            n == 0 ==> r.bits == 0,
            n > 0 ==> HALF_BITS <= r.bits < INFINITY_BITS,
    {
        let whole = Single::from_u32(n);
        if n == 0 {
            return whole;
        }
        let bits: u32 = whole.bits - FRACTION_SPAN;
        proof {
            let e = whole.bits as int / FRACTION_SPAN as int;
            lemma_pow2_unfold((e - 1) as nat);
            assert(bits as int / FRACTION_SPAN as int == e - 1);
            assert(bits as int % FRACTION_SPAN as int == whole.bits as int % FRACTION_SPAN as int);
            let m = FRACTION_SPAN + whole.bits as int % FRACTION_SPAN as int;
            assert(m * pow2((e - 1) as nat) == 2 * (m * pow2((e - 2) as nat))) by (nonlinear_arith)
                requires
                    pow2((e - 1) as nat) == 2 * pow2((e - 2) as nat),
            ;
        }
        Single { bits }
    }

    /// The nearest whole number, halves away from zero, held to the range of `u32`; 0 for what
    /// is negative or not a number.
    pub open spec fn nearest_u32(self) -> int {
        if self.is_nan() || self.steps() < 0 {
            0
        } else if rounded_half_up(self.steps()) > u32::MAX {
            u32::MAX as int
        } else {
            rounded_half_up(self.steps())
        }
    }
}

} // verus!
