//! The blur itself, before any GPU: which algorithm a radius takes, its kernel and mip sizes,
//! and how a clipped backdrop stays registered with the surface over it.

use vstd::arithmetic::power2::*;
use vstd::prelude::*;

use crate::geometry::Region;
use crate::single::{Single, HALF_BITS, INFINITY_BITS, ONE_BITS};

verus! {

/// The most taps on each side of the center of a separable Gaussian.
pub const MAX_GAUSSIAN_RADIUS: i32 = 64;

/// The bits of `3.0`: three standard deviations span a radius.
pub const THREE_BITS: u32 = 0x4040_0000;

/// The bits of `16.0`: the physical radius from which the dual-Kawase filter takes over.
pub const KAWASE_THRESHOLD_BITS: u32 = 0x4180_0000;

/// What a chain of scratch textures is keyed by: the size of its largest texture and its depth.
#[derive(Clone, Copy, Debug, PartialEq, Eq, Hash)]
pub struct PingPongKey {
    /// Width and height of the clipped backdrop.
    pub size: [u32; 2],
    /// 1 for the separable Gaussian; the number of halvings for the dual-Kawase filter.
    pub levels: u32,
}

impl PingPongKey {
    /// Whether two keys are the same key.
    pub fn same(&self, other: &PingPongKey) -> (r: bool)
        ensures
            r == (*self == *other),
    {
        proof {
            if self.size[0] == other.size[0] && self.size[1] == other.size[1] {
                assert(self.size@ =~= other.size@);
                assert(self.size =~= other.size);
            }
        }
        self.size[0] == other.size[0] && self.size[1] == other.size[1] && self.levels == other.levels
    }
}

/// A separable Gaussian kernel.
#[derive(Clone, Copy, Debug, PartialEq)]
pub struct GaussianKernel {
    /// The standard deviation, in physical pixels.
    pub sigma: Single,
    /// The taps on each side of the center; none is a pass-through.
    pub tap_radius: i32,
}

/// The kernel of a physical radius.
pub open spec fn gaussian_of(physical_radius: Single) -> GaussianKernel {
    let taps = physical_radius.nearest_u32();
    GaussianKernel {
        sigma: physical_radius.quotient(Single { bits: THREE_BITS }).larger_of(Single { bits: HALF_BITS }),
        tap_radius: if taps <= MAX_GAUSSIAN_RADIUS { taps as i32 } else { MAX_GAUSSIAN_RADIUS },
    }
}

/// Resolves a physical radius to a kernel: a third of the radius as the standard deviation, at
/// least a half; as many taps as the radius has whole pixels, up to the most allowed.
pub fn resolve_gaussian(physical_radius: Single) -> (r: GaussianKernel)
    ensures
        r == gaussian_of(physical_radius),
        0 <= r.tap_radius <= MAX_GAUSSIAN_RADIUS,
        !r.sigma.is_nan(),
        r.sigma.steps() >= (Single { bits: HALF_BITS }).steps() > 0,
{
    let taps: u32 = physical_radius.round_to_u32();
    let tap_radius: i32 = if taps <= 64 { taps as i32 } else { MAX_GAUSSIAN_RADIUS };
    let third = physical_radius.over(Single { bits: THREE_BITS });
    proof {
        crate::single::lemma_magnitude_order(0, HALF_BITS as int);
        lemma_pow2_pos(149);
        if !physical_radius.is_nan() && physical_radius.steps() >= 0 {
            vstd::arithmetic::div_mod::lemma_div_pos_is_pos(
                2 * physical_radius.steps() + crate::single::one_steps(),
                2 * crate::single::one_steps(),
            );
        }
    }
    GaussianKernel { sigma: third.larger(Single { bits: HALF_BITS }), tap_radius }
}

/// A third of a number: the nearest single, of the same sign.
proof fn lemma_third(x: Single)
    requires
        !x.is_nan(),
    ensures
        ({
            let three = Single { bits: THREE_BITS };
            let third = x.quotient(three);
            let one = crate::single::one_steps();
            &&& three.steps() > 0
            &&& !third.is_nan()
            &&& x.steps() < 0 ==> third.steps() <= 0
            &&& x.steps() >= 0 && x.is_finite() ==> third.steps() == crate::single::nearest_steps(
                x.steps() * one,
                three.steps(),
            )
            &&& x.steps() >= 0 && x.is_infinite() ==> third.steps() == crate::single::infinity_steps()
            &&& third.steps() <= crate::single::infinity_steps()
        }),
{
    let three = Single { bits: THREE_BITS };
    let one = crate::single::one_steps();
    let num = x.magnitude() * one;
    let d = three.magnitude();
    let top = crate::single::INFINITY_BITS as int;
    lemma_pow2_pos(149);
    crate::single::lemma_magnitude_order(three.magnitude_bits(), 0);
    crate::single::lemma_magnitude_order(x.magnitude_bits(), 0);
    crate::single::lemma_magnitude_order(top, 0);
    assert(num >= 0) by (nonlinear_arith)
        requires
            num == x.magnitude() * one,
            x.magnitude() >= 0,
            one > 0,
    ;
    crate::single::lemma_nearest_bits(num, d);
    let bits = crate::single::nearest_bits(num, d);
    crate::single::lemma_magnitude_order(bits, 0);
    crate::single::lemma_magnitude_order(top, bits);
    if x.magnitude() == 0 {
        assert(num == 0) by (nonlinear_arith)
            requires
                num == x.magnitude() * one,
                x.magnitude() == 0,
        ;
        crate::single::lemma_nearest_at_most(0, d, 0);
    }
}

/// The kernel is that of the radius: three standard deviations span the radius, up to rounding,
/// from two pixels on, and are one and a half pixels up to one; the taps are the pixels of the
/// radius, to the nearest, up to the most allowed.
pub proof fn lemma_kernel_spans_the_radius(radius: Single)
    requires
        radius.is_finite(),
        0 <= radius.steps() < pow2(200),
    ensures
        ({
            let k = gaussian_of(radius);
            let one = crate::single::one_steps();
            let r = radius.steps();
            &&& r >= 2 * one ==> 0x100_0000 * (3 * k.sigma.steps() - r) <= r + 3 * 0x80_0000
            &&& r >= 2 * one ==> 0x100_0000 * (r - 3 * k.sigma.steps()) <= r + 3 * 0x80_0000
            &&& r <= one ==> 2 * k.sigma.steps() == one
            &&& 2 * r < 129 * one ==> 2 * (k.tap_radius * one - r) <= one && 2 * (r - k.tap_radius * one) <= one
            &&& 2 * r >= 129 * one ==> k.tap_radius == 64
        }),
{
    let one = crate::single::one_steps();
    let r = radius.steps();
    let three = Single { bits: THREE_BITS };
    let half = Single { bits: HALF_BITS };
    lemma_pow2_pos(149);
    lemma2_to64();
    lemma_pow2_adds(23, 127);
    lemma_pow2_adds(23, 125);
    lemma_pow2_adds(24, 125);
    lemma_pow2_unfold(150);
    lemma_pow2_unfold(149);
    lemma_pow2_pos(125);
    assert(crate::single::magnitude_steps(THREE_BITS as int) == 0xC0_0000 * pow2(127));
    lemma_pow2_unfold(127);
    lemma_pow2_unfold(126);
    assert(three.steps() == 3 * one);
    assert(2 * half.steps() == one);
    lemma_third(radius);
    let num = r * one;
    let den = 3 * one;
    assert(0 <= num < pow2(200) * den) by (nonlinear_arith)
        requires
            num == r * one,
            0 <= r < pow2(200),
            den == 3 * one,
            one > 0,
    ;
    crate::single::lemma_nearest_relative(num, den);
    let q = crate::single::nearest_steps(num, den);
    assert(0x100_0000 * (3 * q - r) <= r + 3 * 0x80_0000) by (nonlinear_arith)
        requires
            0x100_0000 * (q * (3 * one) - r * one) <= r * one + 0x80_0000 * (3 * one),
            one > 0,
    ;
    assert(0x100_0000 * (r - 3 * q) <= r + 3 * 0x80_0000) by (nonlinear_arith)
        requires
            0x100_0000 * (r * one - q * (3 * one)) <= r * one + 0x80_0000 * (3 * one),
            one > 0,
    ;
    assert(one >= 0x100_0000);
    // The taps.
    let n = 2 * r + one;
    vstd::arithmetic::div_mod::lemma_fundamental_div_mod(n, 2 * one);
    let w = n / (2 * one);
    assert((2 * one) * w == 2 * (w * one)) by (nonlinear_arith);
    vstd::arithmetic::div_mod::lemma_div_pos_is_pos(n, 2 * one);
    if 2 * r < 129 * one {
        assert(w <= 64) by (nonlinear_arith)
            requires
                n == (2 * one) * w + n % (2 * one),
                n % (2 * one) >= 0,
                n < 130 * one,
                one > 0,
        ;
    } else {
        assert(w >= 65) by (nonlinear_arith)
            requires
                n == (2 * one) * w + n % (2 * one),
                n % (2 * one) < 2 * one,
                n >= 130 * one,
                one > 0,
        ;
    }
}

/// Each mip is half of the one above it, rounded down, at least one pixel; the first is the base.
pub proof fn lemma_mips_halve(length: u32, level: nat)
    ensures
        length > 0 ==> halved(length, 0) == length,
        halved(length, level + 1) == if halved(length, level) / 2 >= 1 {
            halved(length, level) / 2
        } else {
            1
        },
{
    lemma2_to64();
    lemma_pow2_pos(level);
    lemma_pow2_unfold(level + 1);
    let p = pow2(level) as int;
    vstd::arithmetic::div_mod::lemma_div_denominator(length as int, p, 2);
    assert(p * 2 == pow2(level + 1));
    vstd::arithmetic::div_mod::lemma_div_pos_is_pos(length as int, p);
}

/// The kernel grows with the radius: a larger radius has no smaller a standard deviation and no
/// fewer taps.
pub proof fn lemma_kernel_grows(a: Single, b: Single)
    requires
        !a.is_nan(),
        !b.is_nan(),
        a.steps() <= b.steps(),
    ensures
        gaussian_of(a).sigma.steps() <= gaussian_of(b).sigma.steps(),
        gaussian_of(a).tap_radius <= gaussian_of(b).tap_radius,
{
    let one = crate::single::one_steps();
    let d = (Single { bits: THREE_BITS }).steps();
    lemma_pow2_pos(149);
    lemma_third(a);
    lemma_third(b);
    crate::single::lemma_magnitude_order(0, HALF_BITS as int);
    crate::single::lemma_magnitude_order(b.magnitude_bits(), crate::single::INFINITY_BITS as int);
    crate::single::lemma_magnitude_order(a.magnitude_bits(), 0);
    if a.steps() >= 0 {
        assert(0 <= a.steps() * one <= b.steps() * one) by (nonlinear_arith)
            requires
                0 <= a.steps() <= b.steps(),
                one > 0,
        ;
        crate::single::lemma_nearest_monotone(a.steps() * one, b.steps() * one, d);
        vstd::arithmetic::div_mod::lemma_div_is_ordered(2 * a.steps() + one, 2 * b.steps() + one, 2 * one);
        vstd::arithmetic::div_mod::lemma_div_pos_is_pos(2 * a.steps() + one, 2 * one);
    } else if b.steps() >= 0 {
        vstd::arithmetic::div_mod::lemma_div_pos_is_pos(2 * b.steps() + one, 2 * one);
    }
}

/// Whether a physical radius takes the dual-Kawase filter instead of the separable Gaussian.
pub open spec fn takes_dual_kawase(physical_radius: Single) -> bool {
    !physical_radius.is_nan() && physical_radius.steps() >= (Single { bits: KAWASE_THRESHOLD_BITS }).steps()
}

/// Whether a physical radius takes the dual-Kawase filter instead of the separable Gaussian.
pub fn use_dual_kawase(physical_radius: Single) -> (r: bool)
    ensures
        r == takes_dual_kawase(physical_radius),
{
    !physical_radius.nan() && !physical_radius.less_than(Single { bits: KAWASE_THRESHOLD_BITS })
}

/// A length halved `level` times, at least one pixel.
pub open spec fn halved(length: u32, level: nat) -> int {
    let h = length as int / (pow2(level) as int);
    if h >= 1 {
        h
    } else {
        1
    }
}

/// A length halved `level` times, at least one pixel.
fn halve(length: u32, level: u32) -> (r: u32)
    ensures
        r == halved(length, level as nat),
{
    proof {
        lemma_pow2_pos(level as nat);
    }
    if level >= 32 {
        proof {
            lemma2_to64();
            if level > 32 {
                lemma_pow2_strictly_increases(32, level as nat);
            }
            vstd::arithmetic::div_mod::lemma_fundamental_div_mod_converse(
                length as int,
                pow2(level as nat) as int,
                0,
                length as int,
            );
        }
        return 1;
    }
    let span: u64 = crate::single::power_of_two(level);
    proof {
        vstd::arithmetic::div_mod::lemma_div_is_ordered_by_denominator(length as int, 1, span as int);
    }
    let h: u64 = length as u64 / span;
    if h >= 1 {
        h as u32
    } else {
        1
    }
}

/// The size of mip `level` of a pyramid whose base has the given size.
pub fn kawase_level_size(size: [u32; 2], level: u32) -> (r: [u32; 2])
    ensures
        r[0] == halved(size[0], level as nat),
        r[1] == halved(size[1], level as nat),
        r[0] >= 1,
        r[1] >= 1,
{
    [halve(size[0], level), halve(size[1], level)]
}

/// A whole number as the nearest single.
pub open spec fn single_of(n: u32) -> Single {
    Single { bits: crate::single::nearest_bits(n * crate::single::one_steps(), 1) as u32 }
}

/// Half a texel of a texture of the given size, in texture coordinates.
pub fn kawase_halfpixel(size: [u32; 2]) -> (r: [Single; 2])
    ensures
        r[0] == (Single { bits: HALF_BITS }).quotient(single_of(size[0])),
        r[1] == (Single { bits: HALF_BITS }).quotient(single_of(size[1])),
{
    [
        Single::from_bits(HALF_BITS).over(Single::from_u32(size[0])),
        Single::from_bits(HALF_BITS).over(Single::from_u32(size[1])),
    ]
}

/// How a texture coordinate of the target rect maps to one of the blurred scratch.
#[derive(Clone, Copy, Debug, PartialEq)]
pub struct UvRemap {
    /// What to add.
    pub offset: [Single; 2],
    /// What to multiply by first.
    pub scale: [Single; 2],
}

/// The remap of one axis: how far the clipped origin is from the source's, and how much longer
/// the source is, both in clipped lengths.
pub open spec fn axis_remap(source_origin: u32, source_size: u32, clipped_origin: u32, clipped_size: u32) -> (
    Single,
    Single,
) {
    (
        single_of(source_origin).difference(single_of(clipped_origin)).quotient(single_of(clipped_size)),
        single_of(source_size).quotient(single_of(clipped_size)),
    )
}

/// Maps target coordinates onto the blurred scratch, which holds the clipped source region, so
/// that a source clipped at an edge of the screen stays registered with what is behind the
/// glass instead of being stretched.
pub fn backdrop_uv_remap(source_region: &Region, clipped: &Region) -> (r: UvRemap)
    ensures
        (r.offset[0], r.scale[0]) == axis_remap(
            source_region.origin[0],
            source_region.size[0],
            clipped.origin[0],
            clipped.size[0],
        ),
        (r.offset[1], r.scale[1]) == axis_remap(
            source_region.origin[1],
            source_region.size[1],
            clipped.origin[1],
            clipped.size[1],
        ),
{
    let sx = Single::from_u32(source_region.origin[0]);
    let sy = Single::from_u32(source_region.origin[1]);
    let sw = Single::from_u32(source_region.size[0]);
    let sh = Single::from_u32(source_region.size[1]);
    let cx = Single::from_u32(clipped.origin[0]);
    let cy = Single::from_u32(clipped.origin[1]);
    let cw = Single::from_u32(clipped.size[0]);
    let ch = Single::from_u32(clipped.size[1]);
    UvRemap {
        offset: [sx.minus(cx).over(cw), sy.minus(cy).over(ch)],
        scale: [sw.over(cw), sh.over(ch)],
    }
}

/// A number over itself is one.
pub proof fn lemma_self_quotient(x: Single)
    requires
        x.is_finite(),
        x.steps() != 0,
    ensures
        x.quotient(x) == (Single { bits: ONE_BITS }),
{
    let m = x.magnitude();
    let one = crate::single::one_steps();
    crate::single::lemma_magnitude_order(x.magnitude_bits(), 0);
    assert(m > 0);
    lemma_pow2_pos(149);
    lemma_pow2_adds(23, 126);
    lemma2_to64();
    assert(crate::single::magnitude_steps(ONE_BITS as int) == one);
    assert(m * one == one * m) by (nonlinear_arith);
    assert(m * one >= 0) by (nonlinear_arith)
        requires
            m > 0,
            one > 0,
    ;
    crate::single::lemma_nearest_at_least(m * one, m, ONE_BITS as int);
    crate::single::lemma_nearest_at_most(m * one, m, ONE_BITS as int);
    crate::single::lemma_nearest_bits(m * one, m);
    let bits = crate::single::nearest_bits(m * one, m);
    crate::single::lemma_magnitude_order(bits, ONE_BITS as int);
    crate::single::lemma_magnitude_order(ONE_BITS as int, bits);
}

/// What is known of a positive whole number as a single.
proof fn lemma_single_of(n: u32)
    ensures
        single_of(n).is_finite(),
        !single_of(n).negative(),
        single_of(n).bits == crate::single::nearest_bits(n * crate::single::one_steps(), 1),
        n > 0 ==> single_of(n).steps() > 0,
        n == 0 ==> single_of(n).bits == 0,
{
    let one = crate::single::one_steps();
    let num = n * one;
    lemma_pow2_pos(149);
    assert(0 <= num <= 0x1_0000_0000 * one) by (nonlinear_arith)
        requires
            num == n * one,
            0 <= n <= 0x1_0000_0000,
            one >= 1,
    ;
    lemma2_to64();
    lemma_pow2_adds(32, 149);
    lemma_pow2_adds(23, 158);
    lemma_pow2_adds(23, 126);
    crate::single::lemma_nearest_bits(num, 1);
    crate::single::lemma_nearest_at_most(num, 1, 0x4F80_0000);
    let bits = crate::single::nearest_bits(num, 1);
    crate::single::lemma_magnitude_order(0x4F80_0000, bits);
    crate::single::lemma_magnitude_order(bits, 0);
    if n > 0 {
        assert(num >= one) by (nonlinear_arith)
            requires
                num == n * one,
                n >= 1,
                one >= 1,
        ;
        crate::single::lemma_nearest_at_least(num, 1, ONE_BITS as int);
    } else {
        assert(num == 0) by (nonlinear_arith)
            requires
                num == n * one,
                n == 0,
        ;
        crate::single::lemma_nearest_at_most(0, 1, 0);
    }
}

/// A clip that keeps the origin moves nothing: the offset of the remap is zero.
pub proof fn lemma_uv_offset_vanishes(origin: u32, source_size: u32, clipped_size: u32)
    requires
        clipped_size > 0,
    ensures
        axis_remap(origin, source_size, origin, clipped_size).0 == (Single { bits: 0 }),
{
    lemma_single_of(origin);
    lemma_single_of(clipped_size);
    let x = single_of(origin);
    let w = single_of(clipped_size);
    let zero = x.difference(x);
    assert(x.negation().steps() == -x.steps());
    assert(zero == (Single { bits: 0 }));
    crate::single::lemma_magnitude_order(w.magnitude_bits(), 0);
    let one = crate::single::one_steps();
    assert(crate::single::magnitude_steps(0) * one == 0) by (nonlinear_arith)
        requires
            crate::single::magnitude_steps(0) == 0,
    ;
    crate::single::lemma_nearest_at_most(0, w.magnitude(), 0);
    crate::single::lemma_nearest_bits(0, w.magnitude());
    crate::single::lemma_magnitude_order(crate::single::nearest_bits(0, w.magnitude()), 0);
}

/// The remap is the identity where nothing was clipped.
pub proof fn lemma_uv_identity_when_unclipped(origin: u32, size: u32)
    requires
        size > 0,
    ensures
        axis_remap(origin, size, origin, size) == (Single { bits: 0 }, Single { bits: ONE_BITS }),
{
    lemma_uv_offset_vanishes(origin, size, size);
    lemma_single_of(size);
    lemma_self_quotient(single_of(size));
}

/// The scale of the remap is the single nearest to the ratio of the source length to the
/// clipped length, for lengths that are singles themselves. So the far edge of a target maps as
/// far past the scratch as the source reaches past the clip, up to that one rounding.
pub proof fn lemma_uv_scale_is_ratio(origin: u32, source_size: u32, clipped_size: u32)
    requires
        source_size < 0x100_0000,
        0 < clipped_size < 0x100_0000,
    ensures
        axis_remap(origin, source_size, origin, clipped_size).1.bits == crate::single::nearest_bits(
            source_size * crate::single::one_steps(),
            clipped_size as int,
        ),
{
    let one = crate::single::one_steps();
    let s = single_of(source_size);
    let c = single_of(clipped_size);
    let num = source_size * one;
    let den = clipped_size * one;
    lemma_pow2_pos(149);
    assert(num >= 0) by (nonlinear_arith)
        requires
            num == source_size * one,
            source_size >= 0,
            one >= 1,
    ;
    assert(s.magnitude() == num && s.is_finite() && !s.negative()) by {
        lemma_single_of(source_size);
        crate::single::lemma_whole_exact(source_size as int);
    }
    assert(c.magnitude() == den && c.is_finite() && !c.negative() && c.magnitude_bits() != 0) by {
        lemma_single_of(clipped_size);
        crate::single::lemma_whole_exact(clipped_size as int);
        crate::single::lemma_magnitude_order(c.magnitude_bits(), 0);
    }
    let bits = crate::single::nearest_bits(num * one, den);
    assert(s.quotient(c) == Single::from_parts(false, bits));
    assert(bits == crate::single::nearest_bits(num, clipped_size as int)) by {
        crate::single::lemma_nearest_scaled(num, clipped_size as int, one);
    }
    assert(0 <= bits <= INFINITY_BITS) by {
        crate::single::lemma_nearest_bits(num, clipped_size as int);
    }
}

} // verus!
