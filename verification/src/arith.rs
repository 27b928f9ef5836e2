//! Arithmetic on [`Single`] numbers: every result is the single nearest to the exact one.
//!
//! The operations are those of IEEE 754 with rounding to nearest, ties to even, which is what
//! the host's floating-point unit computes. Stating them over whole numbers of 2^-149 steps
//! keeps the geometry of a surface (its physical pixels, its texture coordinates) inside the
//! contracts.

use vstd::arithmetic::power2::*;
use vstd::prelude::*;

use crate::single::{pack, pack_exact, Single, FRACTION_SPAN, INFINITY_BITS, SIGN_BIT};

verus! {

/// The bits of the NaN that an undefined operation gives.
pub const NAN_BITS: u32 = 0x7FC0_0000;

impl Single {
    /// Whether this is an infinity.
    pub open spec fn is_infinite(self) -> bool {
        self.magnitude_bits() == INFINITY_BITS
    }

    /// The magnitude denoted, in steps of 2^-149.
    pub open spec fn magnitude(self) -> int {
        crate::single::magnitude_steps(self.magnitude_bits())
    }

    /// The number with the given sign and the given exponent and fraction fields.
    pub open spec fn from_parts(negative: bool, bits: int) -> Single {
        Single { bits: (bits + if negative { SIGN_BIT as int } else { 0 }) as u32 }
    }

    /// The product: undefined for zero times infinity, else the nearest single.
    pub open spec fn product(self, other: Single) -> Single {
        let negative = self.negative() != other.negative();
        if self.is_nan() || other.is_nan() || (self.is_infinite() && other.magnitude_bits() == 0) || (
        other.is_infinite() && self.magnitude_bits() == 0) {
            Single { bits: NAN_BITS }
        } else if self.is_infinite() || other.is_infinite() {
            Single::from_parts(negative, INFINITY_BITS as int)
        } else {
            Single::from_parts(
                negative,
                crate::single::nearest_bits(self.magnitude() * other.magnitude(), crate::single::one_steps()),
            )
        }
    }

    /// The quotient: undefined for zero over zero and for infinity over infinity, else the
    /// nearest single.
    pub open spec fn quotient(self, other: Single) -> Single {
        let negative = self.negative() != other.negative();
        if self.is_nan() || other.is_nan() || (self.is_infinite() && other.is_infinite()) || (
        self.magnitude_bits() == 0 && other.magnitude_bits() == 0) {
            Single { bits: NAN_BITS }
        } else if self.is_infinite() || other.magnitude_bits() == 0 {
            Single::from_parts(negative, INFINITY_BITS as int)
        } else if other.is_infinite() {
            Single::from_parts(negative, 0)
        } else {
            Single::from_parts(
                negative,
                crate::single::nearest_bits(self.magnitude() * crate::single::one_steps(), other.magnitude()),
            )
        }
    }

    /// The sum: undefined for infinities of unlike sign, else the nearest single. A sum of
    /// exactly zero is negative only if both sides are.
    pub open spec fn sum(self, other: Single) -> Single {
        let exact = self.steps() + other.steps();
        if self.is_nan() || other.is_nan() || (self.is_infinite() && other.is_infinite()
            && self.negative() != other.negative()) {
            Single { bits: NAN_BITS }
        } else if self.is_infinite() {
            self
        } else if other.is_infinite() {
            other
        } else if exact == 0 {
            Single::from_parts(self.negative() && other.negative(), 0)
        } else {
            Single::from_parts(
                exact < 0,
                crate::single::nearest_bits(if exact < 0 { -exact } else { exact }, 1),
            )
        }
    }

    /// The number with its sign turned.
    pub open spec fn negation(self) -> Single {
        Single::from_parts(!self.negative(), self.magnitude_bits())
    }

    /// The difference: the sum with the other side's sign turned.
    pub open spec fn difference(self, other: Single) -> Single {
        self.sum(other.negation())
    }

    /// Holds a number to `lower..=upper`; what is not a number stays as it is.
    pub open spec fn clamped(self, lower: Single, upper: Single) -> Single {
        if self.is_nan() {
            self
        } else if self.steps() < lower.steps() {
            lower
        } else if self.steps() > upper.steps() {
            upper
        } else {
            self
        }
    }
}

/// A finite, nonzero magnitude as 24 significant bits `m` times `2^(up - down)` steps.
fn decode(bits: u32) -> (r: (u64, u32, u32))
    requires
        0 < bits < INFINITY_BITS,
    ensures
        0x80_0000 <= r.0 < 0x100_0000,
        r.1 <= 253,
        r.2 <= 23,
        crate::single::magnitude_steps(bits as int) * pow2(r.2 as nat) == r.0 * pow2(r.1 as nat),
{
    if bits >= FRACTION_SPAN {
        proof {
            lemma2_to64();
            let steps = crate::single::magnitude_steps(bits as int);
            assert(steps * pow2(0) == steps) by (nonlinear_arith)
                requires
                    pow2(0) == 1,
            ;
        }
        return ((FRACTION_SPAN + bits % FRACTION_SPAN) as u64, bits / FRACTION_SPAN - 1, 0);
    }
    let mut m: u64 = bits as u64;
    let mut down: u32 = 0;
    proof {
        lemma2_to64();
        assert(bits * pow2(0) == bits) by (nonlinear_arith)
            requires
                pow2(0) == 1,
        ;
    }
    while m < 0x80_0000
        invariant
            0 < m < 0x100_0000,
            down <= 23,
            m == bits * pow2(down as nat),
            pow2(down as nat) <= m,
        decreases 23 - down,
    {
        proof {
            lemma2_to64();
            lemma_pow2_unfold((down + 1) as nat);
            assert(bits * pow2((down + 1) as nat) == m * 2) by (nonlinear_arith)
                requires
                    m == bits * pow2(down as nat),
                    pow2((down + 1) as nat) == 2 * pow2(down as nat),
            ;
        }
        m = m * 2;
        down = down + 1;
    }
    proof {
        lemma2_to64();
        assert(m * pow2(0) == m) by (nonlinear_arith)
            requires
                pow2(0) == 1,
        ;
    }
    (m, 0, down)
}

impl Single {
    /// The number whose bit pattern is `bits`.
    pub fn from_bits(bits: u32) -> (r: Single)
        ensures
            r.bits == bits,
    {
        Single { bits }
    }

    /// The bit pattern.
    pub fn to_bits(self) -> (r: u32)
        ensures
            r == self.bits,
    {
        self.bits
    }

    /// Puts a sign on a magnitude.
    fn signed(negative: bool, bits: u32) -> (r: Single)
        requires
            bits <= INFINITY_BITS,
        ensures
            r == Single::from_parts(negative, bits as int),
    {
        if negative {
            Single { bits: bits + SIGN_BIT }
        } else {
            Single { bits }
        }
    }

    /// The product of two numbers.
    pub fn times(self, other: Single) -> (r: Single)
        ensures
            r == self.product(other),
    {
        let a: u32 = self.bits % SIGN_BIT;
        let b: u32 = other.bits % SIGN_BIT;
        let negative: bool = (self.bits >= SIGN_BIT) != (other.bits >= SIGN_BIT);
        if a > INFINITY_BITS || b > INFINITY_BITS || (a == INFINITY_BITS && b == 0) || (b == INFINITY_BITS && a
            == 0) {
            return Single { bits: NAN_BITS };
        }
        if a == INFINITY_BITS || b == INFINITY_BITS {
            return Single::signed(negative, INFINITY_BITS);
        }
        let ghost x = crate::single::magnitude_steps(a as int);
        let ghost y = crate::single::magnitude_steps(b as int);
        let ghost num = x * y;
        let ghost den = crate::single::one_steps();
        proof {
            lemma_pow2_pos(149);
            crate::single::lemma_magnitude_order(a as int, 0);
            crate::single::lemma_magnitude_order(b as int, 0);
        }
        if a == 0 || b == 0 {
            proof {
                assert(num == 0) by (nonlinear_arith)
                    requires
                        num == x * y,
                        x == 0 || y == 0,
                ;
                crate::single::lemma_nearest_at_most(0, den, 0);
                crate::single::lemma_nearest_bits(0, den);
                crate::single::lemma_magnitude_order(crate::single::nearest_bits(0, den), 0);
            }
            return Single::signed(negative, 0);
        }
        let (ma, ua, da) = decode(a);
        let (mb, ub, db) = decode(b);
        let ghost up = (ua + ub) as nat;
        let ghost down = (da + db + 149) as nat;
        proof {
            lemma_pow2_adds(ua as nat, ub as nat);
            lemma_pow2_adds(da as nat, db as nat);
            lemma_pow2_adds((da + db) as nat, 149);
            lemma_pow2_pos(up);
            assert(0x4000_0000_0000 <= ma * mb < 0x1_0000_0000_0000) by (nonlinear_arith)
                requires
                    0x80_0000 <= ma < 0x100_0000,
                    0x80_0000 <= mb < 0x100_0000,
            ;
            assert(num >= 0) by (nonlinear_arith)
                requires
                    num == x * y,
                    x >= 0,
                    y >= 0,
            ;
            assert(num * pow2(down) == (ma * mb) * (den * pow2(up))) by (nonlinear_arith)
                requires
                    num == x * y,
                    x * pow2(da as nat) == ma * pow2(ua as nat),
                    y * pow2(db as nat) == mb * pow2(ub as nat),
                    pow2(up) == pow2(ua as nat) * pow2(ub as nat),
                    pow2((da + db) as nat) == pow2(da as nat) * pow2(db as nat),
                    pow2(down) == pow2((da + db) as nat) * pow2(149),
                    den == pow2(149),
            ;
        }
        let e: i32 = ua as i32 + ub as i32 - da as i32 - db as i32 - 149;
        let bits: u32 = pack_exact(ma * mb, e, Ghost(num), Ghost(den), Ghost(down), Ghost(up));
        proof {
            crate::single::lemma_nearest_bits(num, den);
        }
        Single::signed(negative, bits)
    }

    /// The quotient of two numbers.
    pub fn over(self, other: Single) -> (r: Single)
        ensures
            r == self.quotient(other),
    {
        let a: u32 = self.bits % SIGN_BIT;
        let b: u32 = other.bits % SIGN_BIT;
        let negative: bool = (self.bits >= SIGN_BIT) != (other.bits >= SIGN_BIT);
        if a > INFINITY_BITS || b > INFINITY_BITS || (a == INFINITY_BITS && b == INFINITY_BITS) || (a == 0 && b
            == 0) {
            return Single { bits: NAN_BITS };
        }
        if a == INFINITY_BITS || b == 0 {
            return Single::signed(negative, INFINITY_BITS);
        }
        if b == INFINITY_BITS {
            return Single::signed(negative, 0);
        }
        let ghost x = crate::single::magnitude_steps(a as int);
        let ghost den = crate::single::magnitude_steps(b as int);
        let ghost one = crate::single::one_steps();
        let ghost num = x * one;
        proof {
            lemma_pow2_pos(149);
            crate::single::lemma_magnitude_order(a as int, 0);
            crate::single::lemma_magnitude_order(b as int, 0);
            assert(num >= 0) by (nonlinear_arith)
                requires
                    num == x * one,
                    x >= 0,
                    one >= 0,
            ;
        }
        if a == 0 {
            proof {
                assert(num == 0) by (nonlinear_arith)
                    requires
                        num == x * one,
                        x == 0,
                ;
                assert(crate::single::magnitude_steps(0) * den == 0);
                crate::single::lemma_nearest_at_most(0, den, 0);
                crate::single::lemma_nearest_bits(0, den);
                crate::single::lemma_magnitude_order(crate::single::nearest_bits(0, den), 0);
            }
            return Single::signed(negative, 0);
        }
        let (ma, ua, da) = decode(a);
        let (mb, ub, db) = decode(b);
        let wide: u64 = ma * 0x400_0000;
        let q: u64 = wide / mb;
        let left: u64 = wide % mb;
        let ghost up = (db + ua + 149) as nat;
        let ghost down = (da + 26 + ub) as nat;
        let ghost scale = pow2((ua + 149 + ub) as nat) as int;
        let ghost rest = left * scale;
        proof {
            lemma2_to64();
            lemma_pow2_adds(ua as nat, 149);
            lemma_pow2_adds((ua + 149) as nat, ub as nat);
            lemma_pow2_adds(db as nat, (ua + 149) as nat);
            lemma_pow2_adds(da as nat, 26);
            lemma_pow2_adds((da + 26) as nat, ub as nat);
            lemma_pow2_pos(ub as nat);
            lemma_pow2_pos((ua + 149) as nat);
            lemma_pow2_pos((ua + 149 + ub) as nat);
            vstd::arithmetic::div_mod::lemma_fundamental_div_mod(wide as int, mb as int);
            assert(0x200_0000 <= q <= 0x3_FFFF_FFFF_FFFF) by (nonlinear_arith)
                requires
                    wide == mb * q + left,
                    left < mb,
                    0x80_0000 <= mb < 0x100_0000,
                    0x2_0000_0000_0000 <= wide <= 0x3_FFFF_FFFF_FFFF,
            ;
            // Two to the `ub` counts the units of the divisor.
            assert(mb * scale == den * pow2(up)) by (nonlinear_arith)
                requires
                    den * pow2(db as nat) == mb * pow2(ub as nat),
                    scale == pow2((ua + 149) as nat) * pow2(ub as nat),
                    pow2(up) == pow2(db as nat) * pow2((ua + 149) as nat),
            ;
            assert(num * pow2(down) == wide * scale) by (nonlinear_arith)
                requires
                    num == x * one,
                    x * pow2(da as nat) == ma * pow2(ua as nat),
                    wide == ma * 0x400_0000,
                    pow2((da + 26) as nat) == pow2(da as nat) * 0x400_0000,
                    pow2(down) == pow2((da + 26) as nat) * pow2(ub as nat),
                    pow2((ua + 149) as nat) == pow2(ua as nat) * one,
                    scale == pow2((ua + 149) as nat) * pow2(ub as nat),
            ;
            assert(wide * scale == q * (den * pow2(up)) + rest) by (nonlinear_arith)
                requires
                    wide == mb * q + left,
                    mb * scale == den * pow2(up),
                    rest == left * scale,
            ;
            assert(0 <= rest < den * pow2(up)) by (nonlinear_arith)
                requires
                    rest == left * scale,
                    0 <= left < mb,
                    mb * scale == den * pow2(up),
                    scale >= 1,
            ;
            assert(left > 0 <==> rest > 0) by (nonlinear_arith)
                requires
                    rest == left * scale,
                    left >= 0,
                    scale >= 1,
            ;
        }
        let e: i32 = ua as i32 - da as i32 + 123 + db as i32 - ub as i32;
        let bits: u32 = pack(q, e, left > 0, Ghost(num), Ghost(den), Ghost(down), Ghost(up), Ghost(rest));
        proof {
            crate::single::lemma_nearest_bits(num, den);
        }
        Single::signed(negative, bits)
    }
}

/// The nearest magnitude to `hi + lo` or, with `apart`, to `hi - lo`, for magnitudes with
/// `hi` at least as large in exponent: `hi` is `mh * 2^(uh - dh)` steps and `lo` likewise.
/// The flag tells that `lo` was the larger one.
fn pack_sum(
    mh: u64,
    uh: u32,
    dh: u32,
    ml: u64,
    ul: u32,
    dl: u32,
    apart: bool,
    Ghost(hi): Ghost<int>,
    Ghost(lo): Ghost<int>,
) -> (r: (bool, u32))
    requires
        0x80_0000 <= mh < 0x100_0000,
        0x80_0000 <= ml < 0x100_0000,
        uh <= 253,
        ul <= 253,
        dh <= 23,
        dl <= 23,
        uh + dl >= ul + dh,
        hi >= 0,
        lo >= 0,
        hi * pow2(dh as nat) == mh * pow2(uh as nat),
        lo * pow2(dl as nat) == ml * pow2(ul as nat),
    ensures
        !apart ==> !r.0 && r.1 == crate::single::nearest_bits(hi + lo, 1),
        apart ==> r.0 == (lo > hi),
        apart && hi == lo ==> r.1 == 0,
        apart && hi > lo ==> r.1 == crate::single::nearest_bits(hi - lo, 1),
        apart && hi < lo ==> r.1 == crate::single::nearest_bits(lo - hi, 1),
{
    let diff: u32 = uh + dl - ul - dh;
    let ghost down = (dh + dl) as nat;
    let ghost base = (ul + dh) as nat;
    let ghost unit = pow2(base) as int;
    proof {
        lemma_pow2_adds(dh as nat, dl as nat);
        lemma_pow2_adds(ul as nat, dh as nat);
        lemma_pow2_adds(uh as nat, dl as nat);
        lemma_pow2_adds(diff as nat, base);
        lemma_pow2_pos(base);
        lemma_pow2_pos(down);
        assert(diff + base == uh + dl);
        assert(hi * pow2(down) == (mh * pow2(diff as nat)) * unit) by (nonlinear_arith)
            requires
                hi * pow2(dh as nat) == mh * pow2(uh as nat),
                pow2(down) == pow2(dh as nat) * pow2(dl as nat),
                pow2((uh + dl) as nat) == pow2(uh as nat) * pow2(dl as nat),
                pow2((uh + dl) as nat) == pow2(diff as nat) * unit,
        ;
        assert(lo * pow2(down) == ml * unit) by (nonlinear_arith)
            requires
                lo * pow2(dl as nat) == ml * pow2(ul as nat),
                pow2(down) == pow2(dh as nat) * pow2(dl as nat),
                unit == pow2(ul as nat) * pow2(dh as nat),
        ;
    }
    if diff <= 38 {
        let scale: u64 = crate::single::power_of_two(diff);
        proof {
            lemma2_to64();
            lemma2_to64_rest();
            lemma_pow2_pos(diff as nat);
            if diff < 38 {
                lemma_pow2_strictly_increases(diff as nat, 38);
            }
            assert(mh * scale < 0x4000_0000_0000_0000) by (nonlinear_arith)
                requires
                    mh < 0x100_0000,
                    scale <= 0x40_0000_0000,
            ;
            assert(mh * scale >= mh) by (nonlinear_arith)
                requires
                    scale >= 1,
            ;
        }
        let big: u64 = mh * scale;
        let e: i32 = ul as i32 - dl as i32;
        proof {
            assert((hi + lo) * pow2(down) == (big + ml) * (1 * unit)) by (nonlinear_arith)
                requires
                    hi * pow2(down) == big * unit,
                    lo * pow2(down) == ml * unit,
            ;
            assert((hi - lo) * pow2(down) == (big - ml) * (1 * unit)) by (nonlinear_arith)
                requires
                    hi * pow2(down) == big * unit,
                    lo * pow2(down) == ml * unit,
            ;
            assert((lo - hi) * pow2(down) == (ml - big) * (1 * unit)) by (nonlinear_arith)
                requires
                    hi * pow2(down) == big * unit,
                    lo * pow2(down) == ml * unit,
            ;
            assert(hi > lo <==> big > ml) by (nonlinear_arith)
                requires
                    (hi - lo) * pow2(down) == (big - ml) * (1 * unit),
                    unit >= 1,
                    pow2(down) >= 1,
            ;
            assert(hi < lo <==> big < ml) by (nonlinear_arith)
                requires
                    (hi - lo) * pow2(down) == (big - ml) * (1 * unit),
                    unit >= 1,
                    pow2(down) >= 1,
            ;
        }
        if !apart {
            (false, pack_exact(big + ml, e, Ghost(hi + lo), Ghost(1), Ghost(down), Ghost(base)))
        } else if big > ml {
            (false, pack_exact(big - ml, e, Ghost(hi - lo), Ghost(1), Ghost(down), Ghost(base)))
        } else if big < ml {
            (true, pack_exact(ml - big, e, Ghost(lo - hi), Ghost(1), Ghost(down), Ghost(base)))
        } else {
            (false, 0)
        }
    } else {
        // The smaller side lies below the last bit kept of the larger one.
        let ghost gap = (diff - 3) as nat;
        let ghost span = pow2(gap) as int;
        let ghost up = (base + gap) as nat;
        let e: i32 = uh as i32 - dh as i32 - 3;
        proof {
            lemma2_to64();
            lemma_pow2_adds(3, gap);
            lemma_pow2_adds(base, gap);
            lemma_pow2_pos(gap);
            if 24 < gap {
                lemma_pow2_strictly_increases(24, gap);
            }
            assert(hi * pow2(down) == (mh * 8) * (1 * pow2(up))) by (nonlinear_arith)
                requires
                    hi * pow2(down) == (mh * pow2(diff as nat)) * unit,
                    pow2(diff as nat) == 8 * span,
                    pow2(up) == unit * span,
            ;
            assert((hi + lo) * pow2(down) == (mh * 8) * (1 * pow2(up)) + ml * unit) by (nonlinear_arith)
                requires
                    hi * pow2(down) == (mh * 8) * (1 * pow2(up)),
                    lo * pow2(down) == ml * unit,
            ;
            assert((hi - lo) * pow2(down) == (mh * 8 - 1) * (1 * pow2(up)) + (span - ml) * unit) by (nonlinear_arith)
                requires
                    hi * pow2(down) == (mh * 8) * (1 * pow2(up)),
                    lo * pow2(down) == ml * unit,
                    pow2(up) == unit * span,
            ;
            assert(0 < ml * unit < 1 * pow2(up)) by (nonlinear_arith)
                requires
                    0 < ml < span,
                    unit >= 1,
                    pow2(up) == unit * span,
            ;
            assert(0 < (span - ml) * unit < 1 * pow2(up)) by (nonlinear_arith)
                requires
                    0 < ml < span,
                    unit >= 1,
                    pow2(up) == unit * span,
            ;
            assert((hi - lo) * pow2(down) > 0) by (nonlinear_arith)
                requires
                    (hi - lo) * pow2(down) == (mh * 8 - 1) * (1 * pow2(up)) + (span - ml) * unit,
                    (span - ml) * unit > 0,
                    mh >= 1,
                    pow2(up) >= 0,
            ;
            assert(hi - lo > 0) by (nonlinear_arith)
                requires
                    (hi - lo) * pow2(down) > 0,
                    pow2(down) >= 1,
            ;
        }
        if !apart {
            (false, pack(mh * 8, e, true, Ghost(hi + lo), Ghost(1), Ghost(down), Ghost(up), Ghost(ml * unit)))
        } else {
            (false, pack(mh * 8 - 1, e, true, Ghost(hi - lo), Ghost(1), Ghost(down), Ghost(up), Ghost((span - ml) * unit)))
        }
    }
}

impl Single {
    /// The sum of two numbers.
    pub fn plus(self, other: Single) -> (r: Single)
        ensures
            r == self.sum(other),
    {
        let a: u32 = self.bits % SIGN_BIT;
        let b: u32 = other.bits % SIGN_BIT;
        let below: bool = self.bits >= SIGN_BIT;
        let other_below: bool = other.bits >= SIGN_BIT;
        if a > INFINITY_BITS || b > INFINITY_BITS || (a == INFINITY_BITS && b == INFINITY_BITS && below
            != other_below) {
            return Single { bits: NAN_BITS };
        }
        if a == INFINITY_BITS {
            return self;
        }
        if b == INFINITY_BITS {
            return other;
        }
        let ghost x = crate::single::magnitude_steps(a as int);
        let ghost y = crate::single::magnitude_steps(b as int);
        proof {
            crate::single::lemma_magnitude_order(a as int, 0);
            crate::single::lemma_magnitude_order(b as int, 0);
        }
        if b == 0 {
            if a == 0 {
                return Single::signed(below && other_below, 0);
            }
            proof {
                crate::single::lemma_nearest_exact(a as int);
            }
            return self;
        }
        if a == 0 {
            proof {
                crate::single::lemma_nearest_exact(b as int);
            }
            return other;
        }
        let (ma, ua, da) = decode(a);
        let (mb, ub, db) = decode(b);
        let apart: bool = below != other_below;
        if ua + db >= ub + da {
            let (turned, bits) = pack_sum(ma, ua, da, mb, ub, db, apart, Ghost(x), Ghost(y));
            proof {
                crate::single::lemma_nearest_bits(x + y, 1);
                if x >= y {
                    crate::single::lemma_nearest_bits(x - y, 1);
                } else {
                    crate::single::lemma_nearest_bits(y - x, 1);
                }
            }
            if apart && self.same_magnitude(other) {
                return Single::signed(false, 0);
            }
            Single::signed(below != turned, bits)
        } else {
            let (turned, bits) = pack_sum(mb, ub, db, ma, ua, da, apart, Ghost(y), Ghost(x));
            proof {
                crate::single::lemma_nearest_bits(x + y, 1);
                if x >= y {
                    crate::single::lemma_nearest_bits(x - y, 1);
                } else {
                    crate::single::lemma_nearest_bits(y - x, 1);
                }
            }
            if apart && self.same_magnitude(other) {
                return Single::signed(false, 0);
            }
            Single::signed(other_below != turned, bits)
        }
    }

    /// Whether two numbers differ in sign at most.
    fn same_magnitude(self, other: Single) -> (r: bool)
        ensures
            r == (self.magnitude() == other.magnitude()),
    {
        proof {
            crate::single::lemma_magnitude_order(self.magnitude_bits(), other.magnitude_bits());
            crate::single::lemma_magnitude_order(other.magnitude_bits(), self.magnitude_bits());
        }
        self.bits % SIGN_BIT == other.bits % SIGN_BIT
    }

    /// The difference of two numbers.
    pub fn minus(self, other: Single) -> (r: Single)
        ensures
            r == self.difference(other),
    {
        let turned: u32 = if other.bits >= SIGN_BIT {
            other.bits - SIGN_BIT
        } else {
            other.bits + SIGN_BIT
        };
        self.plus(Single { bits: turned })
    }

    /// The number held to `lower..=upper`; what is not a number stays as it is.
    pub fn clamp(self, lower: Single, upper: Single) -> (r: Single)
        requires
            !lower.is_nan(),
            !upper.is_nan(),
            lower.steps() <= upper.steps(),
        ensures
            r == self.clamped(lower, upper),
    {
        if self.less_than(lower) {
            lower
        } else if upper.less_than(self) {
            upper
        } else {
            self
        }
    }
}

/// IEEE equality: the zeros are equal, what is not a number equals nothing.
impl PartialEq for Single {
    fn eq(&self, other: &Single) -> (r: bool) {
        !self.nan() && !other.nan() && !self.less_than(*other) && !other.less_than(*self)
    }
}

impl vstd::std_specs::cmp::PartialEqSpecImpl for Single {
    open spec fn obeys_eq_spec() -> bool {
        true
    }

    open spec fn eq_spec(&self, other: &Single) -> bool {
        !self.is_nan() && !other.is_nan() && self.steps() == other.steps()
    }
}

} // verus!
