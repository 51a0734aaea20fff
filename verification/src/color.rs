//! Colors in byte form, the packed pixel layout, and the "over" operator.
//!
//! A channel byte `c` stands for the fraction `c / 255`: `0` is none of the
//! channel and `255` is all of it. Alpha and glyph coverage are read the same
//! way, so every product of two fractions is an exact rational number that is
//! rounded to the nearest byte once, at the end.

use vstd::prelude::*;

verus! {

/// Bytes that one pixel occupies in a buffer.
pub const BYTES_PER_PIXEL: usize = 4;

/// Place of the blue channel within the bytes of a pixel.
pub const BLUE_AT: usize = 0;

/// Place of the green channel within the bytes of a pixel.
pub const GREEN_AT: usize = 1;

/// Place of the red channel within the bytes of a pixel.
pub const RED_AT: usize = 2;

/// Place of the alpha channel within the bytes of a pixel.
pub const ALPHA_AT: usize = 3;

/// The alpha byte of a fully opaque color.
pub const OPAQUE: u8 = 255;

/// A color with red, green, blue and alpha channels, one byte each.
#[derive(Clone, Copy, PartialEq, Eq, Structural, Debug)]
pub struct Color {
    pub r: u8,
    pub g: u8,
    pub b: u8,
    pub a: u8,
}

/// `value * weight / 255`, rounded to the nearest integer.
///
/// The divisor is odd, so no quotient lies halfway between two integers and
/// adding `127` before the division rounds to the nearest one.
pub open spec fn weighted(value: int, weight: int) -> int {
    (value * weight + 127) / 255
}

/// `existing * (1 - a) + incoming * a` for `a = alpha / 255`, rounded to the
/// nearest integer.
pub open spec fn blended(existing: int, incoming: int, alpha: int) -> int {
    (existing * (255 - alpha) + incoming * alpha + 127) / 255
}

/// The pixel that results from laying `color` over the pixel `existing`.
///
/// Red, green and blue are blended by the alpha of `color`; the result is
/// always opaque.
pub open spec fn composited(existing: Color, color: Color) -> Color {
    Color {
        r: blended(existing.r as int, color.r as int, color.a as int) as u8,
        g: blended(existing.g as int, color.g as int, color.a as int) as u8,
        b: blended(existing.b as int, color.b as int, color.a as int) as u8,
        a: OPAQUE,
    }
}

/// `composited` applied `times` times with the same color.
pub open spec fn composited_times(existing: Color, color: Color, times: nat) -> Color
    decreases times,
{
    if times == 0 {
        existing
    } else {
        composited(composited_times(existing, color, (times - 1) as nat), color)
    }
}

/// The pixel whose bytes start at `offset` in `bytes`.
pub open spec fn decoded(bytes: Seq<u8>, offset: int) -> Color {
    Color {
        r: bytes[offset + RED_AT as int],
        g: bytes[offset + GREEN_AT as int],
        b: bytes[offset + BLUE_AT as int],
        a: bytes[offset + ALPHA_AT as int],
    }
}

/// Products of two bytes stay within the square of the largest byte.
proof fn lemma_byte_product(x: int, y: int)
    by (nonlinear_arith)
    requires
        0 <= x <= 255,
        0 <= y <= 255,
    ensures
        0 <= x * y <= 255 * y,
        x * y <= 65025,
{
}

/// A blend of two bytes is a byte, and it is the integer nearest to the exact
/// weighted mean.
pub proof fn lemma_blended_is_nearest(existing: int, incoming: int, alpha: int)
    requires
        0 <= existing <= 255,
        0 <= incoming <= 255,
        0 <= alpha <= 255,
    ensures
        0 <= blended(existing, incoming, alpha) <= 255,
        -127 <= 255 * blended(existing, incoming, alpha) - (existing * (255 - alpha) + incoming
            * alpha) <= 127,
{
    lemma_byte_product(existing, 255 - alpha);
    lemma_byte_product(incoming, alpha);
}

/// A weighted byte is a byte no larger than the value it was taken from, and
/// it is the integer nearest to the exact product.
pub proof fn lemma_weighted_is_nearest(value: int, weight: int)
    requires
        0 <= value <= 255,
        0 <= weight <= 255,
    ensures
        0 <= weighted(value, weight) <= value,
        -127 <= 255 * weighted(value, weight) - value * weight <= 127,
{
    lemma_byte_product(value, weight);
    lemma_byte_product(weight, value);
    assert(value * weight == weight * value) by (nonlinear_arith);
}

/// Blends one channel: `existing` seen through `incoming` at opacity `alpha`.
pub fn blend_channel(existing: u8, incoming: u8, alpha: u8) -> (out: u8)
    ensures
        out == blended(existing as int, incoming as int, alpha as int),
        -127 <= 255 * out - (existing * (255 - alpha) + incoming * alpha) <= 127,
        alpha == 255 ==> out == incoming,
        alpha == 0 ==> out == existing,
{
    proof {
        lemma_blended_is_nearest(existing as int, incoming as int, alpha as int);
        lemma_byte_product(existing as int, 255 - alpha);
        lemma_byte_product(incoming as int, alpha as int);
        if alpha == 0 {
            assert(existing * (255 - alpha) == existing * 255);
            assert(incoming * alpha == 0);
        }
    }
    let kept: u32 = existing as u32 * (255 - alpha as u32);
    let added: u32 = incoming as u32 * alpha as u32;
    ((kept + added + 127) / 255) as u8
}

/// Scales one channel by a coverage value.
pub fn weigh_channel(value: u8, weight: u8) -> (out: u8)
    ensures
        out == weighted(value as int, weight as int),
        -127 <= 255 * out - value * weight <= 127,
        out <= value,
        weight == 255 ==> out == value,
        weight == 0 ==> out == 0,
{
    proof {
        lemma_weighted_is_nearest(value as int, weight as int);
        lemma_byte_product(value as int, weight as int);
        if weight == 255 {
            assert(value * weight == value * 255);
        }
    }
    ((value as u32 * weight as u32 + 127) / 255) as u8
}

/// Lays `color` over the pixel `existing` with the "over" operator.
#[verifier::when_used_as_spec(composited)]
pub fn composite(existing: Color, color: Color) -> (out: Color)
    ensures
        out == composited(existing, color),
        out.a == OPAQUE,
{
    Color {
        r: blend_channel(existing.r, color.r, color.a),
        g: blend_channel(existing.g, color.g, color.a),
        b: blend_channel(existing.b, color.b, color.a),
        a: OPAQUE,
    }
}

impl Color {
    /// This color with all four channels scaled by `coverage / 255`.
    pub open spec fn scaled_by(self, coverage: u8) -> Color {
        Color {
            r: weighted(self.r as int, coverage as int) as u8,
            g: weighted(self.g as int, coverage as int) as u8,
            b: weighted(self.b as int, coverage as int) as u8,
            a: weighted(self.a as int, coverage as int) as u8,
        }
    }

    /// The four bytes of this color as a buffer stores them.
    pub open spec fn encoded(self) -> Seq<u8> {
        seq![self.b, self.g, self.r, self.a]
    }

    /// The color with these four channels.
    pub fn from_rgba(r: u8, g: u8, b: u8, a: u8) -> (out: Color)
        ensures
            out == (Color { r, g, b, a }),
    {
        Color { r, g, b, a }
    }

    /// The four channels: red, green, blue, alpha.
    pub fn to_rgba(self) -> (out: (u8, u8, u8, u8))
        ensures
            out == (self.r, self.g, self.b, self.a),
    {
        (self.r, self.g, self.b, self.a)
    }

    /// Scales all four channels by a coverage value, as a glyph sample does
    /// with the color of its label.
    #[verifier::when_used_as_spec(scaled_by)]
    pub fn scale(self, coverage: u8) -> (out: Color)
        ensures
            out == self.scaled_by(coverage),
            coverage == 255 ==> out == self,
            coverage == 0 ==> out == (Color { r: 0, g: 0, b: 0, a: 0 }),
    {
        Color {
            r: weigh_channel(self.r, coverage),
            g: weigh_channel(self.g, coverage),
            b: weigh_channel(self.b, coverage),
            a: weigh_channel(self.a, coverage),
        }
    }

    /// Packs this color into the bytes of one pixel.
    pub fn to_bytes(self) -> (out: [u8; 4])
        ensures
            out@ == self.encoded(),
            decoded(out@, 0) == self,
    {
        [self.b, self.g, self.r, self.a]
    }

    /// Reads a color back from the bytes of one pixel.
    pub fn from_bytes(bytes: [u8; 4]) -> (out: Color)
        ensures
            out == decoded(bytes@, 0),
            out.encoded() == bytes@,
    {
        Color { r: bytes[RED_AT], g: bytes[GREEN_AT], b: bytes[BLUE_AT], a: bytes[ALPHA_AT] }
    }
}

/// An opaque color replaces the red, green and blue of whatever lies under it,
/// and the result is opaque.
pub proof fn lemma_composite_opaque(existing: Color, color: Color)
    requires
        color.a == OPAQUE,
    ensures
        composited(existing, color) == (Color { r: color.r, g: color.g, b: color.b, a: OPAQUE }),
{
}

/// A fully transparent color leaves an opaque pixel as it was.
pub proof fn lemma_composite_transparent(existing: Color, color: Color)
    requires
        color.a == 0,
        existing.a == OPAQUE,
    ensures
        composited(existing, color) == existing,
{
}

/// A fully transparent color keeps the red, green and blue of any pixel, and
/// leaves the pixel opaque.
pub proof fn lemma_composite_transparent_channels(existing: Color, color: Color)
    requires
        color.a == 0,
    ensures
        composited(existing, color) == (Color {
            r: existing.r,
            g: existing.g,
            b: existing.b,
            a: OPAQUE,
        }),
{
}

/// Laying an opaque color over a pixel once or many times gives the same
/// pixel.
pub proof fn lemma_opaque_settles(existing: Color, color: Color, times: nat)
    requires
        color.a == OPAQUE,
        times >= 1,
    ensures
        composited_times(existing, color, times) == composited(existing, color),
    decreases times,
{
    if times > 1 {
        lemma_opaque_settles(existing, color, (times - 1) as nat);
    }
    lemma_composite_opaque(composited_times(existing, color, (times - 1) as nat), color);
    lemma_composite_opaque(existing, color);
}

/// Packing a color and reading it back gives the same color, and the other
/// way round for any four bytes.
pub proof fn lemma_pixel_bytes_round_trip(color: Color, bytes: Seq<u8>)
    requires
        bytes.len() == BYTES_PER_PIXEL,
    ensures
        decoded(color.encoded(), 0) == color,
        decoded(bytes, 0).encoded() == bytes,
{
    assert(decoded(bytes, 0).encoded() =~= bytes);
}

} // verus!
