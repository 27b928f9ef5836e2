//! The contents of uniform buffers, word by word as the shaders read them.

use vstd::prelude::*;

use crate::material::LinearRgba;
use crate::plan::{CompositeParams, GaussianParams, KawaseParams, Pair, UniformValue};
use crate::scope::uniform_buffer_size;
use crate::single::Single;

verus! {

/// A flag as a word.
pub open spec fn flag_word(flag: bool) -> u32 {
    if flag {
        1
    } else {
        0
    }
}

/// A signed number as a word, in two's complement.
pub open spec fn signed_word(n: i32) -> u32 {
    (if n >= 0 {
        n as int
    } else {
        n + 0x1_0000_0000
    }) as u32
}

/// The words of a uniform buffer. Every struct is padded to a multiple of four words.
pub open spec fn uniform_words(value: UniformValue) -> Seq<u32> {
    match value {
        UniformValue::Composite(p) => seq![
            p.rect_origin_px.x.bits,
            p.rect_origin_px.y.bits,
            p.rect_size_px.x.bits,
            p.rect_size_px.y.bits,
            p.tint.r.bits,
            p.tint.g.bits,
            p.tint.b.bits,
            p.tint.a.bits,
            p.backdrop_uv_offset.x.bits,
            p.backdrop_uv_offset.y.bits,
            p.backdrop_uv_scale.x.bits,
            p.backdrop_uv_scale.y.bits,
            p.corner_radius_px.bits,
            flag_word(p.encode_srgb),
            p.opacity.bits,
            0,
        ],
        UniformValue::Gaussian(p) => seq![
            p.uv_offset.x.bits,
            p.uv_offset.y.bits,
            p.uv_scale.x.bits,
            p.uv_scale.y.bits,
            p.texel.x.bits,
            p.texel.y.bits,
            p.direction.x.bits,
            p.direction.y.bits,
            p.sigma.bits,
            signed_word(p.tap_radius),
            flag_word(p.decode_srgb),
            0,
        ],
        UniformValue::Kawase(p) => seq![p.halfpixel.x.bits, p.halfpixel.y.bits, 0, 0],
    }
}

/// A flag as a word.
fn flag(value: bool) -> (r: u32)
    ensures
        r == flag_word(value),
{
    if value {
        1
    } else {
        0
    }
}

/// A signed number as a word.
fn signed(n: i32) -> (r: u32)
    ensures
        r == signed_word(n),
{
    if n >= 0 {
        n as u32
    } else {
        (n as i64 + 0x1_0000_0000) as u32
    }
}

impl UniformValue {
    /// The words of the buffer.
    pub fn words(&self) -> (r: Vec<u32>)
        ensures
            r@ == uniform_words(*self),
    {
        let words: Vec<u32> = match self {
            UniformValue::Composite(p) => vec![
                p.rect_origin_px.x.bits,
                p.rect_origin_px.y.bits,
                p.rect_size_px.x.bits,
                p.rect_size_px.y.bits,
                p.tint.r.bits,
                p.tint.g.bits,
                p.tint.b.bits,
                p.tint.a.bits,
                p.backdrop_uv_offset.x.bits,
                p.backdrop_uv_offset.y.bits,
                p.backdrop_uv_scale.x.bits,
                p.backdrop_uv_scale.y.bits,
                p.corner_radius_px.bits,
                flag(p.encode_srgb),
                p.opacity.bits,
                0,
            ],
            UniformValue::Gaussian(p) => vec![
                p.uv_offset.x.bits,
                p.uv_offset.y.bits,
                p.uv_scale.x.bits,
                p.uv_scale.y.bits,
                p.texel.x.bits,
                p.texel.y.bits,
                p.direction.x.bits,
                p.direction.y.bits,
                p.sigma.bits,
                signed(p.tap_radius),
                flag(p.decode_srgb),
                0,
            ],
            UniformValue::Kawase(p) => vec![p.halfpixel.x.bits, p.halfpixel.y.bits, 0, 0],
        };
        assert(words@ =~= uniform_words(*self));
        words
    }
}

/// The bytes of a word, from the lowest to the highest.
pub open spec fn word_bytes(word: u32) -> Seq<u8> {
    seq![
        (word % 0x100) as u8,
        (word / 0x100 % 0x100) as u8,
        (word / 0x1_0000 % 0x100) as u8,
        (word / 0x100_0000) as u8,
    ]
}

/// The bytes of words in order, those of each word from the lowest up or from the highest down.
pub open spec fn words_bytes(words: Seq<u32>, lowest_first: bool) -> Seq<u8>
    decreases words.len(),
{
    if words.len() == 0 {
        seq![]
    } else {
        let bytes = word_bytes(words.last());
        words_bytes(words.drop_last(), lowest_first) + if lowest_first {
            bytes
        } else {
            bytes.reverse()
        }
    }
}

/// Reinterprets words as bytes with `bytemuck::cast_slice`: the bytes of the words in order, in
/// the byte order of the machine.
#[verifier::external_body]
fn bytes_of_words(words: &Vec<u32>) -> (r: Vec<u8>)
    ensures
        r@ == words_bytes(words@, true) || r@ == words_bytes(words@, false),
{
    bytemuck::cast_slice::<u32, u8>(words.as_slice()).to_vec()
}

/// Whether `contents` came of reinterpreting `words` as bytes on this machine.
pub closed spec fn machine_bytes(words: Seq<u32>, contents: Vec<u8>) -> bool {
    exists|w: Vec<u32>| w@ == words && #[trigger] call_ensures(bytes_of_words, (&w,), contents)
}

/// There are four bytes to a word.
proof fn lemma_words_bytes_len(words: Seq<u32>, lowest_first: bool)
    ensures
        words_bytes(words, lowest_first).len() == 4 * words.len(),
    decreases words.len(),
{
    if words.len() > 0 {
        lemma_words_bytes_len(words.drop_last(), lowest_first);
        assert(word_bytes(words.last()).reverse().len() == 4);
    }
}

/// A uniform buffer to create: its size, and the bytes to fill it with.
#[derive(Debug, PartialEq, Eq)]
pub struct UniformBuffer {
    /// The bytes.
    pub contents: Vec<u8>,
    /// The size of the buffer.
    pub size: u64,
}

/// The uniform buffer of a value, in the byte order of the machine: as large as its contents, which no shader struct leaves
/// unaligned.
pub fn uniform_buffer(value: &UniformValue) -> (r: UniformBuffer)
    ensures
        machine_bytes(uniform_words(*value), r.contents),
        r.contents@ == words_bytes(uniform_words(*value), true) || r.contents@ == words_bytes(
            uniform_words(*value),
            false,
        ),
        r.size == r.contents@.len(),
        r.size == 4 * uniform_words(*value).len(),
        r.size % 16 == 0,
{
    let words = value.words();
    let contents = bytes_of_words(&words);
    proof {
        lemma_words_bytes_len(uniform_words(*value), true);
        lemma_words_bytes_len(uniform_words(*value), false);
    }
    let size: u64 = uniform_buffer_size(contents.len() as u64);
    UniformBuffer { contents, size }
}

/// The word of a flag as a flag.
pub open spec fn word_flag(word: u32) -> bool {
    word != 0
}

/// The word of a signed number as that number, in two's complement.
pub open spec fn word_signed(word: u32) -> int {
    if word < 0x8000_0000 {
        word as int
    } else {
        word - 0x1_0000_0000
    }
}

/// A single at position `i` of a buffer.
pub open spec fn single_at(words: Seq<u32>, i: int) -> Single {
    Single { bits: words[i] }
}

/// Two singles from position `i` of a buffer on.
pub open spec fn pair_at(words: Seq<u32>, i: int) -> Pair {
    Pair { x: single_at(words, i), y: single_at(words, i + 1) }
}

/// A buffer of 16 words as the composite shader reads it.
pub open spec fn read_composite(words: Seq<u32>) -> CompositeParams {
    CompositeParams {
        rect_origin_px: pair_at(words, 0),
        rect_size_px: pair_at(words, 2),
        tint: LinearRgba {
            r: single_at(words, 4),
            g: single_at(words, 5),
            b: single_at(words, 6),
            a: single_at(words, 7),
        },
        backdrop_uv_offset: pair_at(words, 8),
        backdrop_uv_scale: pair_at(words, 10),
        corner_radius_px: single_at(words, 12),
        encode_srgb: word_flag(words[13]),
        opacity: single_at(words, 14),
    }
}

/// A buffer of 12 words as the Gaussian shader reads it.
pub open spec fn read_gaussian(words: Seq<u32>) -> GaussianParams {
    GaussianParams {
        uv_offset: pair_at(words, 0),
        uv_scale: pair_at(words, 2),
        texel: pair_at(words, 4),
        direction: pair_at(words, 6),
        sigma: single_at(words, 8),
        tap_radius: word_signed(words[9]) as i32,
        decode_srgb: word_flag(words[10]),
    }
}

/// A buffer of 4 words as the sampling shaders read it.
pub open spec fn read_kawase(words: Seq<u32>) -> KawaseParams {
    KawaseParams { halfpixel: pair_at(words, 0) }
}

/// A shader reads back from its buffer the very parameters that were written, whatever they are;
/// the buffers have 64, 48 and 16 bytes.
pub proof fn lemma_shaders_read_what_was_written(value: UniformValue)
    ensures
        match value {
            UniformValue::Composite(p) => uniform_words(value).len() == 16 && read_composite(uniform_words(value))
                == p,
            UniformValue::Gaussian(p) => uniform_words(value).len() == 12 && read_gaussian(uniform_words(value)) == p,
            UniformValue::Kawase(p) => uniform_words(value).len() == 4 && read_kawase(uniform_words(value)) == p,
        },
{
}

/// Whether two values are for the same kind of shader.
pub open spec fn same_kind(a: UniformValue, b: UniformValue) -> bool {
    ||| a is Composite && b is Composite
    ||| a is Gaussian && b is Gaussian
    ||| a is Kawase && b is Kawase
}

/// Two values of the same kind with the same words are the same value: no field is lost.
pub proof fn lemma_words_tell_the_value(a: UniformValue, b: UniformValue)
    requires
        same_kind(a, b),
        uniform_words(a) == uniform_words(b),
    ensures
        a == b,
{
    lemma_shaders_read_what_was_written(a);
    lemma_shaders_read_what_was_written(b);
}

/// Word `i` stands in bytes `4 * i` to `4 * i + 3`, its lowest byte first or last.
pub proof fn lemma_words_stand_in_their_bytes(words: Seq<u32>, i: int)
    requires
        0 <= i < words.len(),
    ensures
        ({
            let b = words_bytes(words, true);
            b.len() == 4 * words.len() && b[4 * i] + 0x100 * b[4 * i + 1] + 0x1_0000 * b[4 * i + 2] + 0x100_0000 * b[4
                * i + 3] == words[i]
        }),
        ({
            let b = words_bytes(words, false);
            b.len() == 4 * words.len() && b[4 * i + 3] + 0x100 * b[4 * i + 2] + 0x1_0000 * b[4 * i + 1] + 0x100_0000
                * b[4 * i] == words[i]
        }),
    decreases words.len(),
{
    let rest = words.drop_last();
    lemma_words_bytes_len(words, true);
    lemma_words_bytes_len(words, false);
    lemma_words_bytes_len(rest, true);
    lemma_words_bytes_len(rest, false);
    let bytes = word_bytes(words.last());
    assert(bytes.reverse() =~= seq![bytes[3], bytes[2], bytes[1], bytes[0]]);
    if i < rest.len() {
        lemma_words_stand_in_their_bytes(rest, i);
        assert(rest[i] == words[i]);
    }
}

} // verus!
