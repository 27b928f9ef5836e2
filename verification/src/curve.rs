//! sRGB decoding as a curve: it grows from black to white, within the unit, and lies below the
//! straight line between its ends.

use vstd::arithmetic::power2::*;
use vstd::prelude::*;

use crate::material::{
    LinearRgba, BYTE_MAX_BITS, SRGB_DIVISOR_BITS, SRGB_KNEE_BITS, SRGB_OFFSET_BITS, SRGB_SLOPE_BITS,
};
use crate::single::{Single, ONE_BITS};

verus! {

/// Whether `v` is a number from 0 to 1.
pub open spec fn in_unit(v: Single) -> bool {
    !v.is_nan() && 0 <= v.steps() <= crate::single::one_steps()
}

/// 2^121 steps, of which every constant of the curve is a whole number.
spec fn tick() -> int {
    pow2(121) as int
}

/// The constants of the curve in ticks.
proof fn lemma_ticks()
    ensures
        tick() > 0,
        crate::single::one_steps() == 0x1000_0000 * tick(),
        pow2(125) == 16 * tick(),
        pow2(126) == 32 * tick(),
        (Single { bits: ONE_BITS }).steps() == 0x1000_0000 * tick(),
        (Single { bits: BYTE_MAX_BITS }).steps() == 0xFF_0000_000 * tick(),
        (Single { bits: SRGB_KNEE_BITS }).steps() == 0xA5_AEE6 * tick(),
        (Single { bits: SRGB_OFFSET_BITS }).steps() == 0xE1_47AE * tick(),
        (Single { bits: SRGB_DIVISOR_BITS }).steps() == 0x10E1_47A0 * tick(),
        (Single { bits: SRGB_SLOPE_BITS }).steps() == 0xCE_B852_00 * tick(),
{
    lemma_pow2_pos(121);
    lemma2_to64();
    lemma_pow2_adds(28, 121);
    lemma_pow2_adds(4, 121);
    lemma_pow2_adds(5, 121);
    lemma_pow2_adds(8, 121);
    lemma_pow2_adds(12, 121);
    lemma_pow2_adds(23, 126);
    assert(crate::single::magnitude_steps(BYTE_MAX_BITS as int) == 0xFF_0000 * pow2(133));
    assert(crate::single::magnitude_steps(SRGB_DIVISOR_BITS as int) == 0x87_0A3D * pow2(126));
    assert(crate::single::magnitude_steps(SRGB_SLOPE_BITS as int) == 0xCE_B852 * pow2(129));
}

/// What the curve needs of a single that came of rounding below 2: it is not negative, and it is
/// finite.
spec fn plain(v: Single) -> bool {
    !v.negative() && v.is_finite() && v.steps() >= 0
}

/// The quotient by a constant of `d` ticks is off by at most 16 ticks.
proof fn lemma_over(a: Single, b: Single, d: int)
    requires
        plain(a),
        plain(b),
        d > 0,
        b.steps() == d * tick(),
        a.steps() < 2 * b.steps(),
    ensures
        plain(a.quotient(b)),
        a.quotient(b).steps() * d <= a.steps() * 0x1000_0000 + 16 * d * tick(),
        a.steps() * 0x1000_0000 <= a.quotient(b).steps() * d + 16 * d * tick(),
{
    lemma_ticks();
    let t = tick();
    let num = a.steps() * crate::single::one_steps();
    let den = b.steps();
    let r = crate::single::nearest_steps(num, den);
    crate::single::lemma_magnitude_order(b.magnitude_bits(), 0);
    assert(den > 0) by (nonlinear_arith)
        requires
            den == d * t,
            d > 0,
            t > 0,
    ;
    assert(0 <= num < 2 * crate::single::one_steps() * den) by (nonlinear_arith)
        requires
            num == a.steps() * crate::single::one_steps(),
            0 <= a.steps() < 2 * den,
            crate::single::one_steps() > 0,
    ;
    crate::single::lemma_nearest_error(num, den);
    lemma_rounded_plain(num, den);
    let slack = 16 * d * t;
    let exact = a.steps() * 0x1000_0000;
    assert(r * den == (r * d) * t) by (nonlinear_arith)
        requires
            den == d * t,
    ;
    assert(num == exact * t) by (nonlinear_arith)
        requires
            num == a.steps() * (0x1000_0000 * t),
            exact == a.steps() * 0x1000_0000,
    ;
    assert(den * (16 * t) == slack * t) by (nonlinear_arith)
        requires
            den == d * t,
            slack == 16 * d * t,
    ;
    assert(r * d <= exact + slack) by (nonlinear_arith)
        requires
            (r * d) * t <= exact * t + slack * t,
            t > 0,
    ;
    assert(exact <= r * d + slack) by (nonlinear_arith)
        requires
            exact * t <= (r * d) * t + slack * t,
            t > 0,
    ;
}

/// What is rounded below 2 is finite.
proof fn lemma_rounded_plain(num: int, den: int)
    requires
        den > 0,
        0 <= num < 2 * crate::single::one_steps() * den,
    ensures
        0 <= crate::single::nearest_bits(num, den) < crate::single::INFINITY_BITS,
        crate::single::magnitude_steps(crate::single::nearest_bits(num, den)) == crate::single::nearest_steps(
            num,
            den,
        ),
{
    let two = 0x4000_0000int;
    lemma_ticks();
    lemma2_to64();
    lemma_pow2_unfold(127);
    assert(crate::single::magnitude_steps(two) == 0x80_0000 * pow2(127));
    crate::single::lemma_nearest_at_most(num, den, two);
    crate::single::lemma_nearest_bits(num, den);
    crate::single::lemma_magnitude_order(two, crate::single::nearest_bits(num, den));
}

/// A sum below 2 is off by at most 16 ticks; from 1 on it is a whole number of 32 ticks.
proof fn lemma_plus(a: Single, b: Single)
    requires
        plain(a),
        plain(b),
        0 < a.steps() + b.steps() < 2 * crate::single::one_steps(),
    ensures
        plain(a.sum(b)),
        a.sum(b).steps() <= a.steps() + b.steps() + 16 * tick(),
        a.steps() + b.steps() <= a.sum(b).steps() + 16 * tick(),
        crate::single::one_steps() <= a.steps() + b.steps() ==> a.sum(b).steps() % (32 * tick()) == 0,
{
    lemma_ticks();
    let num = a.steps() + b.steps();
    crate::single::lemma_nearest_error(num, 1);
    lemma_rounded_plain(num, 1);
    crate::single::lemma_magnitude_order(crate::single::nearest_bits(num, 1), 0);
}

/// A byte as a fraction of the largest: within the unit, its ends exact, off by at most 16 ticks.
proof fn lemma_unit(b: u8)
    ensures
        plain(crate::material::unit_of(b)),
        255 * crate::material::unit_of(b).steps() <= 0x1000_0000 * (b * tick()) + 4080 * tick(),
        0x1000_0000 * (b * tick()) <= 255 * crate::material::unit_of(b).steps() + 4080 * tick(),
        crate::material::unit_of(b).steps() <= crate::single::one_steps(),
        b == 0 ==> crate::material::unit_of(b).steps() == 0,
        b == 255 ==> crate::material::unit_of(b) == (Single { bits: ONE_BITS }),
{
    lemma_ticks();
    let t = tick();
    let one = crate::single::one_steps();
    let max = Single { bits: BYTE_MAX_BITS };
    let bits = crate::single::nearest_bits(b * one, 1);
    let whole = Single { bits: bits as u32 };
    let u = crate::material::unit_of(b);
    assert(0 <= b * one <= 255 * one) by (nonlinear_arith)
        requires
            0 <= b <= 255,
            one > 0,
    ;
    assert(b * one == 0x1000_0000 * (b * t)) by (nonlinear_arith)
        requires
            one == 0x1000_0000 * t,
    ;
    crate::single::lemma_whole_exact(b as int);
    crate::single::lemma_nearest_bits(b * one, 1);
    crate::single::lemma_magnitude_order(bits, 0);
    crate::single::lemma_magnitude_order(BYTE_MAX_BITS as int, bits);
    lemma_over(whole, max, 0xFF_0000_000);
    if b == 255 {
        crate::single::lemma_magnitude_order(bits, BYTE_MAX_BITS as int);
        assert(whole == max);
        crate::algorithm::lemma_self_quotient(max);
    } else {
        assert(b * t <= 254 * t) by (nonlinear_arith)
            requires
                b <= 254,
                t > 0,
        ;
    }
    if b == 0 {
        crate::single::lemma_nearest_at_most(0, max.steps(), 0);
        crate::single::lemma_nearest_bits(0, max.steps());
        assert(whole.magnitude() * one == 0);
    }
}

/// What is raised to a power for a channel `c` above the knee.
pub open spec fn base_of(c: Single) -> Single {
    c.sum(Single { bits: SRGB_OFFSET_BITS }).quotient(Single { bits: SRGB_DIVISOR_BITS })
}

/// The base at the knee.
pub open spec fn knee_base() -> Single {
    base_of(Single { bits: SRGB_KNEE_BITS })
}

/// The decoded value at the knee.
pub open spec fn knee_value() -> Single {
    (Single { bits: SRGB_KNEE_BITS }).quotient(Single { bits: SRGB_SLOPE_BITS })
}

/// The base of a channel is off by at most 32 ticks and a little.
proof fn lemma_base(c: Single)
    requires
        plain(c),
        c.steps() <= crate::single::one_steps(),
    ensures
        plain(base_of(c)),
        base_of(c).steps() * 0x10E1_47A0 <= (c.steps() + 0xE1_47AE * tick() + 16 * tick()) * 0x1000_0000 + 16 * (
        0x10E1_47A0 * tick()),
        (c.steps() + 0xE1_47AE * tick() - 16 * tick()) * 0x1000_0000 <= base_of(c).steps() * 0x10E1_47A0 + 16 * (
        0x10E1_47A0 * tick()),
{
    lemma_ticks();
    lemma_plus(c, Single { bits: SRGB_OFFSET_BITS });
    lemma_over(
        c.sum(Single { bits: SRGB_OFFSET_BITS }),
        Single { bits: SRGB_DIVISOR_BITS },
        0x10E1_47A0,
    );
}

/// The base of white is one.
proof fn lemma_white_base()
    ensures
        base_of(Single { bits: ONE_BITS }) == (Single { bits: ONE_BITS }),
{
    lemma_ticks();
    let t = tick();
    let one = Single { bits: ONE_BITS };
    let offset = Single { bits: SRGB_OFFSET_BITS };
    let divisor = Single { bits: SRGB_DIVISOR_BITS };
    let s = one.sum(offset);
    lemma_plus(one, offset);
    vstd::arithmetic::div_mod::lemma_fundamental_div_mod(s.steps(), 32 * t);
    let m = s.steps() / (32 * t);
    assert(m == 0x87_0A3D) by (nonlinear_arith)
        requires
            s.steps() == (32 * t) * m,
            s.steps() <= 0x10E1_47BE * t,
            0x10E1_479E * t <= s.steps(),
            t > 0,
    ;
    assert(s.steps() == divisor.steps()) by (nonlinear_arith)
        requires
            s.steps() == (32 * t) * m,
            m == 0x87_0A3D,
            divisor.steps() == 0x10E1_47A0 * t,
    ;
    crate::single::lemma_magnitude_order(s.magnitude_bits(), divisor.magnitude_bits());
    crate::single::lemma_magnitude_order(divisor.magnitude_bits(), s.magnitude_bits());
    assert(s == divisor);
    crate::algorithm::lemma_self_quotient(divisor);
}

/// A channel on the straight segment: its byte is at most 10, its value stays below that of the
/// knee, and it is off by at most 16 ticks.
proof fn lemma_below_knee(b: u8)
    requires
        crate::material::unit_of(b).steps() <= (Single { bits: SRGB_KNEE_BITS }).steps(),
    ensures
        ({
            let u = crate::material::unit_of(b);
            let v = u.quotient(Single { bits: SRGB_SLOPE_BITS });
            &&& plain(v)
            &&& v.steps() * 0xCEB8_5200 <= u.steps() * 0x1000_0000 + 16 * (0xCEB8_5200 * tick())
            &&& u.steps() * 0x1000_0000 <= v.steps() * 0xCEB8_5200 + 16 * (0xCEB8_5200 * tick())
            &&& v.steps() < knee_value().steps()
            &&& b > 0 ==> v.steps() < u.steps()
            &&& b == 0 ==> v.steps() == 0
        }),
{
    lemma_ticks();
    lemma_unit(b);
    let t = tick();
    let u = crate::material::unit_of(b);
    let knee = Single { bits: SRGB_KNEE_BITS };
    let slope = Single { bits: SRGB_SLOPE_BITS };
    assert(plain(knee));
    lemma_over(u, slope, 0xCEB8_5200);
    lemma_over(knee, slope, 0xCEB8_5200);
    assert(b <= 10) by {
        if b >= 11 {
            assert(b * t >= 11 * t) by (nonlinear_arith)
                requires
                    b >= 11,
                    t > 0,
            ;
        }
    }
    assert(b * t <= 10 * t) by (nonlinear_arith)
        requires
            b <= 10,
            t > 0,
    ;
    if b > 0 {
        assert(b * t >= t) by (nonlinear_arith)
            requires
                b >= 1,
                t > 0,
        ;
    } else {
        crate::single::lemma_magnitude_order(u.magnitude_bits(), 0);
        crate::single::lemma_nearest_at_most(0, slope.steps(), 0);
        crate::single::lemma_nearest_bits(0, slope.steps());
        assert(u.magnitude() * crate::single::one_steps() == 0) by (nonlinear_arith)
            requires
                u.magnitude() == 0,
        ;
    }
}

/// A channel above the knee: its byte is at least 11, and its base lies between that of the knee
/// and one, close to `(byte + 14.025) / 269.025`.
proof fn lemma_above_knee(b: u8)
    requires
        crate::material::unit_of(b).steps() > (Single { bits: SRGB_KNEE_BITS }).steps(),
    ensures
        b >= 11,
        plain(base_of(crate::material::unit_of(b))),
        knee_base().steps() <= base_of(crate::material::unit_of(b)).steps() <= crate::single::one_steps(),
        269_000 * base_of(crate::material::unit_of(b)).steps() <= 0x1000_0000 * (1000 * (b * tick()) + 14_030
            * tick()),
        0x1000_0000 * (1000 * (b * tick()) + 14_020 * tick()) <= 269_050 * base_of(
            crate::material::unit_of(b),
        ).steps(),
        b == 255 ==> base_of(crate::material::unit_of(b)) == (Single { bits: ONE_BITS }),
{
    lemma_ticks();
    lemma_unit(b);
    let t = tick();
    let u = crate::material::unit_of(b);
    let knee = Single { bits: SRGB_KNEE_BITS };
    assert(plain(knee));
    lemma_base(u);
    lemma_base(knee);
    assert(b >= 11) by {
        if b <= 10 {
            assert(b * t <= 10 * t) by (nonlinear_arith)
                requires
                    b <= 10,
                    t > 0,
            ;
        }
    }
    assert(11 * t <= b * t <= 255 * t) by (nonlinear_arith)
        requires
            11 <= b <= 255,
            t > 0,
    ;
    if b == 255 {
        lemma_white_base();
    } else {
        assert(b * t <= 254 * t) by (nonlinear_arith)
            requires
                b <= 254,
                t > 0,
        ;
    }
}

/// What is known of raising to 2.4, for bases from that of the knee to one: it gives numbers,
/// the same for the same base and larger ones for larger bases; no more than the square of the
/// base; more than the value at the knee; and one for one. How it rounds is left open.
pub open spec fn raises<P: Fn(Single) -> Single>(power: P) -> bool {
    &&& forall|x: Single, v: Single|
        knee_base().steps() <= x.steps() <= crate::single::one_steps() && #[trigger] call_ensures(power, (x,), v)
            ==> !v.is_nan() && v.steps() * crate::single::one_steps() <= x.steps() * x.steps()
            && knee_value().steps() < v.steps()
    &&& forall|x: Single, y: Single, v: Single, w: Single|
        knee_base().steps() <= x.steps() < y.steps() <= crate::single::one_steps() && #[trigger] call_ensures(
            power,
            (x,),
            v,
        ) && #[trigger] call_ensures(power, (y,), w) ==> v.steps() < w.steps()
    &&& forall|x: Single, v: Single, w: Single|
        knee_base().steps() <= x.steps() <= crate::single::one_steps() && #[trigger] call_ensures(power, (x,), v)
            && #[trigger] call_ensures(power, (x,), w) ==> v == w
    &&& forall|v: Single| #[trigger]
        call_ensures(power, (Single { bits: ONE_BITS },), v) ==> v == (Single { bits: ONE_BITS })
}

/// Alpha is the byte over 255: it grows strictly, from 0 to 1.
pub proof fn lemma_alpha_grows(p: u8, q: u8)
    ensures
        in_unit(crate::material::unit_of(p)),
        p < q ==> crate::material::unit_of(p).steps() < crate::material::unit_of(q).steps(),
        p == 0 ==> crate::material::unit_of(p).steps() == 0,
        p == 255 ==> crate::material::unit_of(p) == (Single { bits: ONE_BITS }),
{
    lemma_ticks();
    lemma_unit(p);
    lemma_unit(q);
    if p < q {
        lemma_next_byte(p, q);
    }
}

/// A larger byte is larger by at least one.
proof fn lemma_next_byte(p: u8, q: u8)
    requires
        p < q,
    ensures
        p * tick() + tick() <= q * tick(),
{
    lemma_ticks();
    let t = tick();
    assert(p * t + t <= q * t) by (nonlinear_arith)
        requires
            p + 1 <= q,
            t > 0,
    ;
}

/// The square of the base of a channel lies below the channel, but for white.
proof fn lemma_square_below(b: u8, u: int, x: int, v: int)
    requires
        11 <= b <= 254,
        255 * u + 4080 * tick() >= 0x1000_0000 * (b * tick()),
        269_000 * x <= 0x1000_0000 * (1000 * (b * tick()) + 14_030 * tick()),
        x >= 0,
        v * crate::single::one_steps() <= x * x,
    ensures
        v < u,
{
    lemma_ticks();
    let t = tick();
    let one = crate::single::one_steps();
    let n = 1000 * b + 14_030;
    assert(11 * t <= b * t) by (nonlinear_arith)
        requires
            11 <= b,
            t > 0,
    ;
    assert(b * one == 0x1000_0000 * (b * t)) by (nonlinear_arith)
        requires
            one == 0x1000_0000 * t,
    ;
    assert(269_000 * x <= n * one) by (nonlinear_arith)
        requires
            269_000 * x <= 0x1000_0000 * (1000 * (b * t) + 14_030 * t),
            one == 0x1000_0000 * t,
            n == 1000 * b + 14_030,
    ;
    assert(25_501 * u >= 100 * (b * one));
    assert(n * n * 25_501 < 100 * b * 72_361_000_000) by (nonlinear_arith)
        requires
            n == 1000 * b + 14_030,
            11 <= b <= 254,
    ;
    if v >= u {
        let y = 269_000 * x;
        let z = n * one;
        assert(y * y <= z * z) by (nonlinear_arith)
            requires
                0 <= y <= z,
        ;
        assert(y * y == 72_361_000_000 * (x * x)) by (nonlinear_arith)
            requires
                y == 269_000 * x,
        ;
        assert(z * z == (n * n) * (one * one)) by (nonlinear_arith)
            requires
                z == n * one,
        ;
        assert(25_501 * (v * one) >= (100 * b) * (one * one)) by (nonlinear_arith)
            requires
                25_501 * v >= 100 * (b * one),
                one > 0,
        ;
        assert((n * n * 25_501) * (one * one) < (100 * b * 72_361_000_000) * (one * one)) by (nonlinear_arith)
            requires
                n * n * 25_501 < 100 * b * 72_361_000_000,
                one > 0,
        ;
        assert((n * n * 25_501) * (one * one) == 25_501 * ((n * n) * (one * one))) by (nonlinear_arith);
        assert((100 * b * 72_361_000_000) * (one * one) == 72_361_000_000 * ((100 * b) * (one * one)))
            by (nonlinear_arith);
    }
}

/// One channel of an sRGB color in linear light lies in the unit, with its ends at black and
/// white, and strictly below the byte over 255 between them.
pub proof fn lemma_channel_in_unit<P: Fn(Single) -> Single>(power: P, p: u8, v: Single)
    requires
        raises(power),
        crate::material::decodes(power, p, v),
    ensures
        in_unit(v),
        0 < p < 255 ==> v.steps() < crate::material::unit_of(p).steps(),
        p == 0 ==> v.steps() == 0,
        p == 255 ==> v == (Single { bits: ONE_BITS }),
{
    lemma_ticks();
    lemma_unit(p);
    let u = crate::material::unit_of(p);
    if u.steps() <= (Single { bits: SRGB_KNEE_BITS }).steps() {
        lemma_below_knee(p);
    } else {
        lemma_above_knee(p);
        let x = base_of(u);
        assert(call_ensures(power, (x,), v));
        lemma_knee_value();
        if p < 255 {
            lemma_square_below(p, u.steps(), x.steps(), v.steps());
        }
    }
}

/// One channel of an sRGB color in linear light depends on its own byte alone, by a curve that
/// grows strictly.
pub proof fn lemma_channel_grows<P: Fn(Single) -> Single>(power: P, p: u8, q: u8, v: Single, w: Single)
    requires
        raises(power),
        crate::material::decodes(power, p, v),
        crate::material::decodes(power, q, w),
    ensures
        p == q ==> v == w,
        p < q ==> v.steps() < w.steps(),
{
    lemma_ticks();
    lemma_unit(p);
    lemma_unit(q);
    let knee = Single { bits: SRGB_KNEE_BITS };
    let up = crate::material::unit_of(p);
    let uq = crate::material::unit_of(q);
    if p < q {
        lemma_next_byte(p, q);
    }
    if up.steps() <= knee.steps() {
        lemma_below_knee(p);
    } else {
        lemma_above_knee(p);
        assert(call_ensures(power, (base_of(up),), v));
    }
    if uq.steps() <= knee.steps() {
        lemma_below_knee(q);
    } else {
        lemma_above_knee(q);
        assert(call_ensures(power, (base_of(uq),), w));
    }
}

/// The value at the knee is not negative.
proof fn lemma_knee_value()
    ensures
        knee_value().steps() >= 0,
{
    lemma_ticks();
    lemma_over(Single { bits: SRGB_KNEE_BITS }, Single { bits: SRGB_SLOPE_BITS }, 0xCEB8_5200);
}

/// A channel of a color: red, green, blue, then alpha.
pub open spec fn channel(c: LinearRgba, i: int) -> Single {
    if i == 0 {
        c.r
    } else if i == 1 {
        c.g
    } else if i == 2 {
        c.b
    } else {
        c.a
    }
}

/// Whether `c` is what straight-alpha sRGB bytes decode to, where `power` raises to 2.4.
pub open spec fn decoded<P: Fn(Single) -> Single>(power: P, rgba: [u8; 4], c: LinearRgba) -> bool {
    &&& forall|i: int| 0 <= i < 3 ==> crate::material::decodes(power, #[trigger] rgba[i], channel(c, i))
    &&& c.a == crate::material::unit_of(rgba[3])
}

/// Decoding sRGB bytes: red, green and blue follow one curve, each from its own byte; alpha is
/// its byte over 255. Every channel grows strictly with its byte and lies in the unit; between
/// the ends, red, green and blue lie strictly below the byte over 255.
pub proof fn lemma_srgb_decoding<P: Fn(Single) -> Single>(
    power: P,
    p: [u8; 4],
    q: [u8; 4],
    c: LinearRgba,
    d: LinearRgba,
)
    requires
        raises(power),
        decoded(power, p, c),
        decoded(power, q, d),
    ensures
        forall|i: int| #![trigger channel(c, i)] 0 <= i < 4 ==> in_unit(channel(c, i)),
        forall|i: int, j: int|
            #![trigger channel(c, i), channel(d, j)]
            0 <= i < 3 && 0 <= j < 3 ==> (p[i] < q[j] ==> channel(c, i).steps() < channel(d, j).steps()) && (p[i]
                == q[j] ==> channel(c, i) == channel(d, j)),
        p[0] < q[0] ==> c.r.steps() < d.r.steps(),
        p[0] == q[0] ==> c.r == d.r,
        p[1] < q[1] ==> c.g.steps() < d.g.steps(),
        p[1] == q[1] ==> c.g == d.g,
        p[2] < q[2] ==> c.b.steps() < d.b.steps(),
        p[2] == q[2] ==> c.b == d.b,
        p[3] < q[3] ==> c.a.steps() < d.a.steps(),
        p[3] == q[3] ==> c.a == d.a,
        c.a == crate::material::unit_of(p[3]),
        forall|i: int|
            #![trigger channel(c, i)]
            0 <= i < 3 && 0 < p[i] < 255 ==> channel(c, i).steps() < crate::material::unit_of(p[i]).steps(),
{
    lemma_alpha_grows(p[3], q[3]);
    assert forall|i: int| #![trigger channel(c, i)] 0 <= i < 3 implies in_unit(channel(c, i)) && (0 < p[i] < 255
        ==> channel(c, i).steps() < crate::material::unit_of(p[i]).steps()) by {
        assert(crate::material::decodes(power, p[i], channel(c, i)));
        lemma_channel_in_unit(power, p[i], channel(c, i));
    }
    assert forall|i: int, j: int|
        #![trigger channel(c, i), channel(d, j)]
        0 <= i < 3 && 0 <= j < 3 implies (p[i] < q[j] ==> channel(c, i).steps() < channel(d, j).steps()) && (p[i]
        == q[j] ==> channel(c, i) == channel(d, j)) by {
        assert(crate::material::decodes(power, p[i], channel(c, i)));
        assert(crate::material::decodes(power, q[j], channel(d, j)));
        lemma_channel_grows(power, p[i], q[j], channel(c, i), channel(d, j));
    }
    assert(channel(c, 0) == c.r && channel(c, 1) == c.g && channel(c, 2) == c.b);
    assert(channel(d, 0) == d.r && channel(d, 1) == d.g && channel(d, 2) == d.b);
}

} // verus!
