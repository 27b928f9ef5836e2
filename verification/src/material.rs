//! The material: what kind of glass a surface is. How much blur, what tint film, how round the
//! corners, how present the whole. All lengths are logical points; a region's [`Scale`] resolves
//! them to physical pixels.

use vstd::prelude::*;

use crate::geometry::Scale;
use crate::single::{Single, INFINITY_BITS, ONE_BITS};

verus! {

/// The bits of `0.04045`, the knee of the sRGB transfer function.
pub const SRGB_KNEE_BITS: u32 = 0x3D25_AEE6;

/// The bits of `12.92`, the slope below the knee.
pub const SRGB_SLOPE_BITS: u32 = 0x414E_B852;

/// The bits of `0.055`, the offset above the knee.
pub const SRGB_OFFSET_BITS: u32 = 0x3D61_47AE;

/// The bits of `1.055`, the divisor above the knee.
pub const SRGB_DIVISOR_BITS: u32 = 0x3F87_0A3D;

/// The bits of `255.0`, the largest byte.
pub const BYTE_MAX_BITS: u32 = 0x437F_0000;

/// Blur radius in logical points, never negative and always a number.
#[derive(Clone, Copy, Debug, PartialEq)]
pub struct BlurStrength {
    points: Single,
}

impl BlurStrength {
    #[verifier::type_invariant]
    spec fn nonnegative(self) -> bool {
        !self.points.is_nan() && self.points.steps() >= 0
    }

    /// The radius in logical points.
    pub closed spec fn radius(self) -> Single {
        self.points
    }

    /// A radius from logical points; what is negative or not a number becomes 0.
    pub fn new(points: Single) -> (r: BlurStrength)
        ensures
            r.radius() == points.larger_of(Single { bits: 0 }),
    {
        BlurStrength { points: points.larger(Single { bits: 0 }) }
    }

    /// The radius in logical points.
    pub fn points(self) -> (r: Single)
        ensures
            r == self.radius(),
            !r.is_nan(),
            r.steps() >= 0,
    {
        proof {
            use_type_invariant(&self);
        }
        self.points
    }

    /// The radius in physical pixels: logical points times the region's scale.
    pub fn to_physical_radius(self, scale: Scale) -> (r: Single)
        ensures
            r == self.radius().product(scale.value()),
    {
        self.points.times(scale.factor())
    }
}

/// A physical radius is a number that is not negative, except that no radius comes of scaling
/// nothing by infinity.
pub proof fn lemma_physical_radius_nonnegative(points: Single, factor: Single)
    requires
        !points.is_nan(),
        points.steps() >= 0,
        !factor.is_nan(),
        factor.steps() > 0,
        !(points.steps() == 0 && factor.is_infinite()),
    ensures
        !points.product(factor).is_nan(),
        points.product(factor).steps() >= 0,
{
    crate::single::lemma_magnitude_order(points.magnitude_bits(), 0);
    crate::single::lemma_magnitude_order(factor.magnitude_bits(), 0);
    let num = points.magnitude() * factor.magnitude();
    let den = crate::single::one_steps();
    assert(num >= 0) by (nonlinear_arith)
        requires
            num == points.magnitude() * factor.magnitude(),
            points.magnitude() >= 0,
            factor.magnitude() >= 0,
    ;
    vstd::arithmetic::power2::lemma_pow2_pos(149);
    crate::single::lemma_nearest_bits(num, den);
    crate::single::lemma_magnitude_order(points.product(factor).magnitude_bits(), 0);
    if points.magnitude_bits() == 0 {
        assert(num == 0) by (nonlinear_arith)
            requires
                num == points.magnitude() * factor.magnitude(),
                points.magnitude() == 0,
        ;
        crate::single::lemma_nearest_at_most(0, den, 0);
        crate::single::lemma_magnitude_order(crate::single::nearest_bits(0, den), 0);
    }
}

/// A scale of one leaves a radius as it is: logical points are physical pixels.
pub proof fn lemma_unit_scale_keeps_radius(points: Single)
    requires
        !points.is_nan(),
        points.steps() >= 0,
    ensures
        points.product(Single { bits: ONE_BITS }).steps() == points.steps(),
{
    let unit = Single { bits: ONE_BITS };
    let m = points.magnitude();
    let one = crate::single::one_steps();
    vstd::arithmetic::power2::lemma_pow2_pos(149);
    vstd::arithmetic::power2::lemma_pow2_adds(23, 126);
    vstd::arithmetic::power2::lemma2_to64();
    crate::single::lemma_magnitude_order(points.magnitude_bits(), 0);
    assert(unit.magnitude() == one);
    if points.is_finite() {
        assert(crate::single::nearest_bits(m * one, one) == points.magnitude_bits()) by {
            assert(1 * one == one);
            crate::single::lemma_nearest_scaled(m, 1, one);
            crate::single::lemma_nearest_exact(points.magnitude_bits());
        }
    }
}

/// One channel of an sRGB color on its way to linear light: on the straight segment near black
/// it is decoded already; above the knee it is the base of a power of 2.4.
#[derive(Clone, Copy, Debug, PartialEq)]
pub enum SrgbSegment {
    /// The decoded value.
    Linear(Single),
    /// What has yet to be raised to 2.4.
    Power(Single),
}

/// Which segment of the sRGB transfer function `c` lies on, and what is known of its value.
pub open spec fn srgb_segment_of(c: Single) -> SrgbSegment {
    if !c.is_nan() && c.steps() <= (Single { bits: SRGB_KNEE_BITS }).steps() {
        SrgbSegment::Linear(c.quotient(Single { bits: SRGB_SLOPE_BITS }))
    } else {
        SrgbSegment::Power(c.sum(Single { bits: SRGB_OFFSET_BITS }).quotient(Single { bits: SRGB_DIVISOR_BITS }))
    }
}

/// A byte as a fraction of the largest byte.
pub open spec fn unit_of(byte: u8) -> Single {
    (Single { bits: crate::single::nearest_bits(byte * crate::single::one_steps(), 1) as u32 }).quotient(
        Single { bits: BYTE_MAX_BITS },
    )
}

/// A byte as a fraction of the largest byte.
fn unit(byte: u8) -> (r: Single)
    ensures
        r == unit_of(byte),
{
    Single::from_u32(byte as u32).over(Single { bits: BYTE_MAX_BITS })
}

/// Whether `value` is channel `byte` in linear light, where `power` raises to 2.4.
pub open spec fn decodes<P: Fn(Single) -> Single>(power: P, byte: u8, value: Single) -> bool {
    match srgb_segment_of(unit_of(byte)) {
        SrgbSegment::Linear(v) => value == v,
        SrgbSegment::Power(base) => call_ensures(power, (base,), value),
    }
}

/// The sRGB transfer function for one normalized channel, up to the power.
pub fn srgb_segment(c: Single) -> (r: SrgbSegment)
    ensures
        r == srgb_segment_of(c),
{
    let knee = Single { bits: SRGB_KNEE_BITS };
    if !c.nan() && !knee.less_than(c) {
        SrgbSegment::Linear(c.over(Single { bits: SRGB_SLOPE_BITS }))
    } else {
        SrgbSegment::Power(c.plus(Single { bits: SRGB_OFFSET_BITS }).over(Single { bits: SRGB_DIVISOR_BITS }))
    }
}

/// The sRGB transfer function for one byte, given how to raise to 2.4.
fn srgb_to_linear<P: Fn(Single) -> Single>(byte: u8, power: &P) -> (r: Single)
    requires
        forall|base: Single| #[trigger] call_requires(*power, (base,)),
    ensures
        decodes(*power, byte, r),
{
    match srgb_segment(unit(byte)) {
        SrgbSegment::Linear(v) => v,
        SrgbSegment::Power(base) => power(base),
    }
}

/// A straight-alpha color in linear light. The channels are linear; alpha is coverage.
#[derive(Clone, Copy, Debug, PartialEq)]
pub struct LinearRgba {
    /// Red, linear.
    pub r: Single,
    /// Green, linear.
    pub g: Single,
    /// Blue, linear.
    pub b: Single,
    /// Coverage.
    pub a: Single,
}

impl LinearRgba {
    /// A color from channels that are linear already.
    pub fn new(r: Single, g: Single, b: Single, a: Single) -> (c: LinearRgba)
        ensures
            c == (LinearRgba { r, g, b, a }),
    {
        LinearRgba { r, g, b, a }
    }

    /// Decodes straight-alpha sRGB bytes: the channels through the sRGB transfer function, alpha
    /// as it stands. `power` raises a number to 2.4; its rounding is the host's.
    pub fn from_srgb_unmultiplied<P: Fn(Single) -> Single>(rgba: [u8; 4], power: P) -> (c: LinearRgba)
        requires
            forall|base: Single| #[trigger] call_requires(power, (base,)),
        ensures
            decodes(power, rgba[0], c.r),
            decodes(power, rgba[1], c.g),
            decodes(power, rgba[2], c.b),
            c.a == unit_of(rgba[3]),
            crate::curve::decoded(power, rgba, c),
    {
        LinearRgba {
            r: srgb_to_linear(rgba[0], &power),
            g: srgb_to_linear(rgba[1], &power),
            b: srgb_to_linear(rgba[2], &power),
            a: unit(rgba[3]),
        }
    }
}

/// The glass film over the blurred backdrop; its alpha is how much of the film shows.
#[derive(Clone, Copy, Debug, PartialEq)]
pub struct Tint {
    film: LinearRgba,
}

impl Tint {
    /// The film in linear light.
    pub closed spec fn linear(self) -> LinearRgba {
        self.film
    }

    /// A film of a linear color.
    pub fn new(color: LinearRgba) -> (r: Tint)
        ensures
            r.linear() == color,
    {
        Tint { film: color }
    }

    /// A film authored as straight-alpha sRGB bytes.
    pub fn from_srgb_unmultiplied<P: Fn(Single) -> Single>(rgba: [u8; 4], power: P) -> (t: Tint)
        requires
            forall|base: Single| #[trigger] call_requires(power, (base,)),
        ensures
            decodes(power, rgba[0], t.linear().r),
            decodes(power, rgba[1], t.linear().g),
            decodes(power, rgba[2], t.linear().b),
            t.linear().a == unit_of(rgba[3]),
            crate::curve::decoded(power, rgba, t.linear()),
    {
        Tint { film: LinearRgba::from_srgb_unmultiplied(rgba, power) }
    }

    /// The film in linear light.
    pub fn color(self) -> (r: LinearRgba)
        ensures
            r == self.linear(),
    {
        self.film
    }
}

/// Corner radius in logical points, never negative and always a number.
#[derive(Clone, Copy, Debug, PartialEq)]
pub struct CornerRadius {
    points: Single,
}

impl CornerRadius {
    #[verifier::type_invariant]
    spec fn nonnegative(self) -> bool {
        !self.points.is_nan() && self.points.steps() >= 0
    }

    /// The radius in logical points.
    pub closed spec fn radius(self) -> Single {
        self.points
    }

    /// A radius from logical points; what is negative or not a number gives square corners.
    pub fn new(points: Single) -> (r: CornerRadius)
        ensures
            r.radius() == points.larger_of(Single { bits: 0 }),
    {
        CornerRadius { points: points.larger(Single { bits: 0 }) }
    }

    /// The radius in logical points.
    pub fn points(self) -> (r: Single)
        ensures
            r == self.radius(),
            !r.is_nan(),
            r.steps() >= 0,
    {
        proof {
            use_type_invariant(&self);
        }
        self.points
    }
}

/// The surface-global fade: the weight in `[0, 1]` by which the whole frosted result is blended
/// over its destination. It is distinct from the tint's alpha, which mixes film and blur.
#[derive(Clone, Copy, Debug, PartialEq)]
pub struct Opacity {
    weight: Single,
}

/// What a fade is made of: fully present where the input is no finite number.
pub open spec fn faded(v: Single) -> Single {
    if v.is_finite() {
        v.clamped(Single { bits: 0 }, Single { bits: ONE_BITS })
    } else {
        Single { bits: ONE_BITS }
    }
}

impl Opacity {
    #[verifier::type_invariant]
    spec fn within_unit(self) -> bool {
        !self.weight.is_nan() && 0 <= self.weight.steps() <= (Single { bits: ONE_BITS }).steps()
    }

    /// The blend weight.
    pub closed spec fn fade(self) -> Single {
        self.weight
    }

    /// A fade from a weight: held to `[0, 1]`, and fully present for what is not finite.
    pub fn new(v: Single) -> (r: Opacity)
        ensures
            r.fade() == faded(v),
    {
        proof {
            crate::single::lemma_magnitude_order(ONE_BITS as int, 0);
        }
        if v.finite() {
            Opacity { weight: v.clamp(Single { bits: 0 }, Single { bits: ONE_BITS }) }
        } else {
            Opacity { weight: Single { bits: ONE_BITS } }
        }
    }

    /// Fully present.
    pub fn full() -> (r: Opacity)
        ensures
            r.fade() == (Single { bits: ONE_BITS }),
    {
        proof {
            crate::single::lemma_magnitude_order(ONE_BITS as int, 0);
        }
        Opacity { weight: Single { bits: ONE_BITS } }
    }

    /// The blend weight, in `[0, 1]`.
    pub fn value(self) -> (r: Single)
        ensures
            r == self.fade(),
            !r.is_nan(),
            0 <= r.steps() <= (Single { bits: ONE_BITS }).steps(),
    {
        proof {
            use_type_invariant(&self);
        }
        self.weight
    }
}

impl Default for Opacity {
    /// Fully present.
    fn default() -> (r: Opacity)
        ensures
            r.fade() == (Single { bits: ONE_BITS }),
    {
        Opacity::full()
    }
}

/// A fade within the unit is kept; what is below is gone, what is above or no finite number is
/// fully there.
pub proof fn lemma_fade_is_kept_within_the_unit(v: Single)
    ensures
        v.is_finite() && 0 <= v.steps() <= crate::single::one_steps() ==> faded(v) == v,
        v.is_finite() && v.steps() < 0 ==> faded(v).steps() == 0,
        v.is_finite() && v.steps() > crate::single::one_steps() ==> faded(v).steps() == crate::single::one_steps(),
        !v.is_finite() ==> faded(v).steps() == crate::single::one_steps(),
{
    vstd::arithmetic::power2::lemma_pow2_adds(23, 126);
    vstd::arithmetic::power2::lemma2_to64();
}

} // verus!
