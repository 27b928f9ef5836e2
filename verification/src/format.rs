//! The color formats a composite target can have.

use vstd::prelude::*;

use crate::text::ends_with_text;

verus! {

/// A texture's color format, as far as the blur tells formats apart.
#[derive(Debug, PartialEq, Eq)]
pub enum TextureFormat {
    /// Eight-bit RGBA, stored as given.
    Rgba8Unorm,
    /// Eight-bit RGBA, encoded to sRGB by the hardware.
    Rgba8UnormSrgb,
    /// Eight-bit BGRA, stored as given.
    Bgra8Unorm,
    /// Eight-bit BGRA, encoded to sRGB by the hardware.
    Bgra8UnormSrgb,
    /// Half-float RGBA: linear and filterable. The scratch of every blur chain has this format.
    Rgba16Float,
    /// Any other format, by its name, which ends in the way the format stores its channels.
    Other {
        /// The name.
        name: String,
    },
}

/// A format the composite supports.
#[derive(Clone, Copy, Debug, PartialEq, Eq, Hash, Structural)]
pub enum CompositeFormat {
    /// Eight-bit RGBA, stored as given.
    Rgba8Unorm,
    /// Eight-bit RGBA, encoded to sRGB by the hardware.
    Rgba8UnormSrgb,
    /// Eight-bit BGRA, stored as given.
    Bgra8Unorm,
    /// Eight-bit BGRA, encoded to sRGB by the hardware.
    Bgra8UnormSrgb,
    /// Half-float RGBA, linear.
    Rgba16Float,
}

/// The format as one the composite supports, if it is one.
pub open spec fn supported(format: TextureFormat) -> Option<CompositeFormat> {
    match format {
        TextureFormat::Rgba8Unorm => Some(CompositeFormat::Rgba8Unorm),
        TextureFormat::Rgba8UnormSrgb => Some(CompositeFormat::Rgba8UnormSrgb),
        TextureFormat::Bgra8Unorm => Some(CompositeFormat::Bgra8Unorm),
        TextureFormat::Bgra8UnormSrgb => Some(CompositeFormat::Bgra8UnormSrgb),
        TextureFormat::Rgba16Float => Some(CompositeFormat::Rgba16Float),
        TextureFormat::Other { name } => None,
    }
}

/// The name of a format.
pub open spec fn format_name(format: TextureFormat) -> Seq<char> {
    match format {
        TextureFormat::Rgba8Unorm => "Rgba8Unorm"@,
        TextureFormat::Rgba8UnormSrgb => "Rgba8UnormSrgb"@,
        TextureFormat::Bgra8Unorm => "Bgra8Unorm"@,
        TextureFormat::Bgra8UnormSrgb => "Bgra8UnormSrgb"@,
        TextureFormat::Rgba16Float => "Rgba16Float"@,
        TextureFormat::Other { name } => name@,
    }
}

/// Whether the composite must encode to sRGB itself, for a format it supports.
pub open spec fn encodes_in_shader(format: TextureFormat) -> Option<bool> {
    match format {
        TextureFormat::Rgba8UnormSrgb => Some(false),
        TextureFormat::Bgra8UnormSrgb => Some(false),
        TextureFormat::Rgba8Unorm => Some(true),
        TextureFormat::Bgra8Unorm => Some(true),
        TextureFormat::Rgba16Float => Some(false),
        TextureFormat::Other { name } => None,
    }
}

/// Whether a format stores its channels as fractions of their largest value, with no encoding.
pub open spec fn stores_plainly(format: TextureFormat) -> bool {
    crate::text::ends_in(format_name(format), "Unorm"@)
}

/// Which of the formats told apart store their channels plainly.
proof fn lemma_plain_formats(format: TextureFormat)
    ensures
        !(format is Other) ==> stores_plainly(format) == (encodes_in_shader(format) == Some(true)),
{
    reveal_strlit("Unorm");
    reveal_strlit("Rgba8Unorm");
    reveal_strlit("Rgba8UnormSrgb");
    reveal_strlit("Bgra8Unorm");
    reveal_strlit("Bgra8UnormSrgb");
    reveal_strlit("Rgba16Float");
    match format {
        TextureFormat::Rgba8Unorm => {
            assert("Rgba8Unorm"@.skip(5) =~= "Unorm"@);
        },
        TextureFormat::Bgra8Unorm => {
            assert("Bgra8Unorm"@.skip(5) =~= "Unorm"@);
        },
        TextureFormat::Rgba8UnormSrgb => {
            assert("Rgba8UnormSrgb"@.skip(9)[0] != "Unorm"@[0]);
        },
        TextureFormat::Bgra8UnormSrgb => {
            assert("Bgra8UnormSrgb"@.skip(9)[0] != "Unorm"@[0]);
        },
        TextureFormat::Rgba16Float => {
            assert("Rgba16Float"@.skip(6)[0] != "Unorm"@[0]);
        },
        TextureFormat::Other { name } => {},
    }
}

/// A target that the composite supports and the own-loop adapter accepts is one that the shader
/// encodes for, and such a target is always accepted.
pub proof fn lemma_shader_encodes_for_plain_targets(format: TextureFormat)
    ensures
        encodes_in_shader(format) == Some(true) <==> supported(format) is Some && stores_plainly(format),
{
    lemma_plain_formats(format);
}

/// A supported format is taken as itself: it keeps its name, and the other formats are taken as
/// none.
pub proof fn lemma_supported_formats_keep_their_names(format: TextureFormat)
    ensures
        supported(format) matches Some(c) ==> format_name(format) == (match c {
            CompositeFormat::Rgba8Unorm => "Rgba8Unorm"@,
            CompositeFormat::Rgba8UnormSrgb => "Rgba8UnormSrgb"@,
            CompositeFormat::Bgra8Unorm => "Bgra8Unorm"@,
            CompositeFormat::Bgra8UnormSrgb => "Bgra8UnormSrgb"@,
            CompositeFormat::Rgba16Float => "Rgba16Float"@,
        }),
        supported(format) is None <==> format is Other,
        supported(format) is None <==> encodes_in_shader(format) is None,
{
}

/// Whether the composite shader must encode linear to sRGB for `format`, or `None` if `format`
/// is not a supported composite target. An sRGB target encodes in hardware; a gamma target of
/// plain bytes needs the shader to; a float target stays linear.
pub fn composite_encode_srgb(format: &TextureFormat) -> (r: Option<bool>)
    ensures
        r == encodes_in_shader(*format),
{
    match format {
        TextureFormat::Rgba8UnormSrgb => Some(false),
        TextureFormat::Bgra8UnormSrgb => Some(false),
        TextureFormat::Rgba8Unorm => Some(true),
        TextureFormat::Bgra8Unorm => Some(true),
        TextureFormat::Rgba16Float => Some(false),
        TextureFormat::Other { name: _ } => None,
    }
}

/// Whether surfaces can be frosted in a target of this format by the own-loop adapter: the
/// adapter accepts it, and the composite supports it.
pub fn is_supported_target(format: &TextureFormat) -> (r: bool)
    ensures
        r == (encodes_in_shader(*format) == Some(true)),
{
    match format {
        TextureFormat::Rgba8Unorm => true,
        TextureFormat::Bgra8Unorm => true,
        _ => false,
    }
}

impl TextureFormat {
    /// The format as one the composite supports, if it is one.
    pub fn composite_format(&self) -> (r: Option<CompositeFormat>)
        ensures
            r == supported(*self),
            r is Some <==> encodes_in_shader(*self) is Some,
    {
        match self {
            TextureFormat::Rgba8Unorm => Some(CompositeFormat::Rgba8Unorm),
            TextureFormat::Rgba8UnormSrgb => Some(CompositeFormat::Rgba8UnormSrgb),
            TextureFormat::Bgra8Unorm => Some(CompositeFormat::Bgra8Unorm),
            TextureFormat::Bgra8UnormSrgb => Some(CompositeFormat::Bgra8UnormSrgb),
            TextureFormat::Rgba16Float => Some(CompositeFormat::Rgba16Float),
            TextureFormat::Other { name: _ } => None,
        }
    }

    /// Whether the format stores its channels plainly. Formats that encode to sRGB, and those of
    /// floats, do not.
    pub fn is_plain(&self) -> (r: bool)
        ensures
            r == stores_plainly(*self),
            !(self is Other) ==> r == (encodes_in_shader(*self) == Some(true)),
    {
        proof {
            lemma_plain_formats(*self);
        }
        match self {
            TextureFormat::Other { name } => ends_with_text(name.as_str(), "Unorm"),
            _ => is_supported_target(self),
        }
    }

    /// The name of the format.
    pub fn name(&self) -> (s: String)
        ensures
            s@ == format_name(*self),
    {
        match self {
            TextureFormat::Rgba8Unorm => String::from_str("Rgba8Unorm"),
            TextureFormat::Rgba8UnormSrgb => String::from_str("Rgba8UnormSrgb"),
            TextureFormat::Bgra8Unorm => String::from_str("Bgra8Unorm"),
            TextureFormat::Bgra8UnormSrgb => String::from_str("Bgra8UnormSrgb"),
            TextureFormat::Rgba16Float => String::from_str("Rgba16Float"),
            TextureFormat::Other { name } => String::from_str(name.as_str()),
        }
    }
}

} // verus!
