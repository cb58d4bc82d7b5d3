//! Colours with four 8-bit channels, and the levels of a channel that a text
//! file keeps.

use vstd::prelude::*;

verus! {

/// A colour: red, green, blue and alpha, each from 0 (none) to 255 (full).
/// Two colours are equal when all four channels are.
#[derive(Clone, Copy, Debug, PartialEq, Eq, Hash, Structural)]
pub struct Color {
    pub r: u8,
    pub g: u8,
    pub b: u8,
    pub a: u8,
}

/// The hundredth of full intensity that is nearest to the channel value `v`:
/// `100 * v / 255`, rounded.
pub open spec fn hundredths(v: int) -> int {
    (200 * v + 255) / 510
}

/// The channel value that is nearest to `k` hundredths of full intensity:
/// `255 * k / 100`, rounded, a half rounded up.
pub open spec fn from_hundredths(k: int) -> int {
    (255 * k + 50) / 100
}

/// The channel value `v` brought to the nearest of the 101 levels that are a
/// whole number of hundredths of full intensity.
pub open spec fn quantized(v: u8) -> u8 {
    from_hundredths(hundredths(v as int)) as u8
}

impl Color {
    /// The colour of an unpainted cell: opaque black.
    pub open spec fn spec_background() -> Color {
        Color { r: 0, g: 0, b: 0, a: 255 }
    }

    /// The colour of an unpainted cell.
    #[verifier::when_used_as_spec(spec_background)]
    pub fn background() -> (c: Color)
        ensures
            c == Color::spec_background(),
    {
        Color { r: 0, g: 0, b: 0, a: 255 }
    }

    /// The opaque colour with the given red, green and blue.
    pub fn rgb(r: u8, g: u8, b: u8) -> (c: Color)
        ensures
            c == (Color { r, g, b, a: 255 }),
    {
        Color { r, g, b, a: 255 }
    }

    /// The colour whose channels are the given hundredths of full intensity,
    /// each brought to the nearest channel value. There is none where a
    /// channel is more than a hundred hundredths.
    pub fn from_levels(r: u8, g: u8, b: u8, a: u8) -> (c: Option<Color>)
        ensures
            c is Some <==> r <= 100 && g <= 100 && b <= 100 && a <= 100,
            c matches Some(color) ==> color == (Color {
                r: from_hundredths(r as int) as u8,
                g: from_hundredths(g as int) as u8,
                b: from_hundredths(b as int) as u8,
                a: from_hundredths(a as int) as u8,
            }) && color.is_quantized(),
    {
        match (channel_of_level(r), channel_of_level(g), channel_of_level(b), channel_of_level(a)) {
            (Some(r), Some(g), Some(b), Some(a)) => Some(Color { r, g, b, a }),
            _ => None,
        }
    }

    /// Whether the colour is fully opaque.
    pub open spec fn is_opaque(self) -> bool {
        self.a == 255
    }

    /// Whether red, green and blue each lie on one of the 101 levels.
    pub open spec fn is_quantized(self) -> bool {
        quantized(self.r) == self.r && quantized(self.g) == self.g && quantized(self.b) == self.b
    }

    /// The colour with red, green and blue each brought to the nearest level,
    /// and the alpha kept.
    pub open spec fn spec_quantize(self) -> Color {
        Color { r: quantized(self.r), g: quantized(self.g), b: quantized(self.b), a: self.a }
    }

    /// The colour with red, green and blue each brought to the nearest level,
    /// and the alpha kept.
    #[verifier::when_used_as_spec(spec_quantize)]
    pub fn quantize(self) -> (c: Color)
        ensures
            c == self.spec_quantize(),
            c.is_quantized(),
    {
        proof {
            lemma_quantized_is_level(self.r);
            lemma_quantized_is_level(self.g);
            lemma_quantized_is_level(self.b);
        }
        Color {
            r: quantize_channel(self.r),
            g: quantize_channel(self.g),
            b: quantize_channel(self.b),
            a: self.a,
        }
    }

    /// The same colour at four fifths of its opacity.
    pub fn lighten(self) -> (c: Color)
        ensures
            c == (Color { r: self.r, g: self.g, b: self.b, a: (self.a * 4 / 5) as u8 }),
    {
        let alpha: u16 = self.a as u16 * 4 / 5;
        Color { r: self.r, g: self.g, b: self.b, a: alpha as u8 }
    }
}

/// The hundredth of full intensity that is nearest to the channel value `v`.
pub fn level_of_channel(v: u8) -> (k: u8)
    ensures
        k == hundredths(v as int),
        k <= 100,
{
    ((200 * (v as u32) + 255) / 510) as u8
}

/// The channel value that is nearest to `k` hundredths of full intensity, a
/// half rounded up. There is none for more than a hundred hundredths.
pub fn channel_of_level(k: u8) -> (v: Option<u8>)
    ensures
        v is Some <==> k <= 100,
        v matches Some(value) ==> value == from_hundredths(k as int) && quantized(value) == value,
{
    if k <= 100 {
        proof {
            lemma_level_round_trip(k as int);
        }
        Some(((255 * (k as u32) + 50) / 100) as u8)
    } else {
        None
    }
}

/// The channel value `v` brought to the nearest level.
pub fn quantize_channel(v: u8) -> (q: u8)
    ensures
        q == quantized(v),
{
    let k: u32 = (200 * (v as u32) + 255) / 510;
    let q: u32 = (255 * k + 50) / 100;
    q as u8
}

/// A level, taken to its channel value and back, is the same level.
pub proof fn lemma_level_round_trip(k: int)
    requires
        0 <= k <= 100,
    ensures
        0 <= from_hundredths(k) <= 255,
        hundredths(from_hundredths(k)) == k,
{
}

/// Bringing a channel value to its level is idempotent: what comes out lies on
/// a level already.
pub proof fn lemma_quantized_is_level(v: u8)
    ensures
        quantized(quantized(v)) == quantized(v),
{
    let k = hundredths(v as int);
    assert(0 <= k <= 100);
    lemma_level_round_trip(k);
}

} // verus!
