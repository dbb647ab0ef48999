//! Colors for rendering layers built on top of the core.
//!
//! Exact byte arithmetic: blending floors the average channel by channel, and
//! brightness scaling floors the exact product with a rational fraction.

use vstd::prelude::*;

verus! {

use crate::frac::Frac;
use crate::GeomError;

/// An RGB color.
#[derive(Clone, Copy, Debug, PartialEq, Eq, Structural)]
pub struct Color(u8, u8, u8);

/// The value of one hexadecimal digit byte, or `None` for any other byte.
pub open spec fn hex_digit(b: u8) -> Option<u8> {
    if 0x30 <= b <= 0x39 {
        Some((b - 0x30) as u8)
    } else if 0x41 <= b <= 0x46 {
        Some((b - 0x41 + 10) as u8)
    } else if 0x61 <= b <= 0x66 {
        Some((b - 0x61 + 10) as u8)
    } else {
        None
    }
}

/// The channel encoded by two hexadecimal digit bytes.
pub open spec fn hex_pair(hi: u8, lo: u8) -> Option<u8> {
    match (hex_digit(hi), hex_digit(lo)) {
        (Some(h), Some(l)) => Some((h * 16 + l) as u8),
        _ => None,
    }
}

impl Color {
    /// Builds the color from its channels.
    pub fn new(r: u8, g: u8, b: u8) -> (c: Color)
        ensures
            c.r() == r && c.g() == g && c.b() == b,
    {
        Color(r, g, b)
    }

    /// The red channel.
    pub closed spec fn r(self) -> u8 {
        self.0
    }

    /// The green channel.
    pub closed spec fn g(self) -> u8 {
        self.1
    }

    /// The blue channel.
    pub closed spec fn b(self) -> u8 {
        self.2
    }

    /// The red channel.
    pub fn red(&self) -> (r: u8)
        ensures
            r == self.r(),
    {
        self.0
    }

    /// The green channel.
    pub fn green(&self) -> (r: u8)
        ensures
            r == self.g(),
    {
        self.1
    }

    /// The blue channel.
    pub fn blue(&self) -> (r: u8)
        ensures
            r == self.b(),
    {
        self.2
    }

    /// Formats the color as `#RRGGBB` hexadecimal bytes; [`Color::from_hex`]
    /// parses the result back to the same color.
    pub fn to_hex(&self) -> (r: Vec<u8>)
        ensures
            r@.len() == 7,
            r@[0] == 0x23u8,
            hex_pair(r@[1], r@[2]) == Some(self.r()),
            hex_pair(r@[3], r@[4]) == Some(self.g()),
            hex_pair(r@[5], r@[6]) == Some(self.b()),
    {
        let mut out: Vec<u8> = Vec::new();
        out.push(0x23);
        out.push(hex_digit_byte(self.0 / 16));
        out.push(hex_digit_byte(self.0 % 16));
        out.push(hex_digit_byte(self.1 / 16));
        out.push(hex_digit_byte(self.1 % 16));
        out.push(hex_digit_byte(self.2 / 16));
        out.push(hex_digit_byte(self.2 % 16));
        out
    }

    /// Parses `RRGGBB` hexadecimal bytes, with an optional leading `#`.
    pub fn from_hex(s: &[u8]) -> (r: Result<Color, GeomError>)
        ensures
            ({
                let t = if s@.len() > 0 && s@[0] == 0x23 {
                    s@.skip(1)
                } else {
                    s@
                };
                match r {
                    Ok(c) => t.len() == 6 && hex_pair(t[0], t[1]) == Some(c.r()) && hex_pair(
                        t[2],
                        t[3],
                    ) == Some(c.g()) && hex_pair(t[4], t[5]) == Some(c.b()),
                    Err(e) => e == GeomError::OutOfRange && (t.len() != 6 || hex_pair(t[0], t[1])
                        is None || hex_pair(t[2], t[3]) is None || hex_pair(t[4], t[5]) is None),
                }
            }),
    {
        let off: usize = if s.len() > 0 && s[0] == 0x23 {
            1
        } else {
            0
        };
        if s.len() != off + 6 {
            return Err(GeomError::OutOfRange);
        }
        proof {
            if off == 1 {
                assert(s@.skip(1).len() == 6);
                assert forall|i: int| 0 <= i < 6 implies s@.skip(1)[i] == s@[i + 1] by {}
            }
        }
        let r = match hex_pair_exec(s[off], s[off + 1]) {
            Some(v) => v,
            None => {
                return Err(GeomError::OutOfRange);
            },
        };
        let g = match hex_pair_exec(s[off + 2], s[off + 3]) {
            Some(v) => v,
            None => {
                return Err(GeomError::OutOfRange);
            },
        };
        let b = match hex_pair_exec(s[off + 4], s[off + 5]) {
            Some(v) => v,
            None => {
                return Err(GeomError::OutOfRange);
            },
        };
        Ok(Color(r, g, b))
    }
}

/// Exact hexadecimal digit encoding: the byte that [`hex_digit`] decodes back
/// to the value.
fn hex_digit_byte(v: u8) -> (r: u8)
    requires
        v < 16,
    ensures
        hex_digit(r) == Some(v),
{
    if v < 10 {
        0x30 + v
    } else {
        0x41 + v - 10
    }
}

/// Exact hexadecimal digit pair decoding.
fn hex_pair_exec(hi: u8, lo: u8) -> (r: Option<u8>)
    ensures
        r == hex_pair(hi, lo),
{
    let h = match hex_digit_exec(hi) {
        Some(v) => v,
        None => {
            return None;
        },
    };
    let l = match hex_digit_exec(lo) {
        Some(v) => v,
        None => {
            return None;
        },
    };
    Some(h * 16 + l)
}

/// Exact hexadecimal digit decoding.
fn hex_digit_exec(b: u8) -> (r: Option<u8>)
    ensures
        r == hex_digit(b),
{
    if 0x30 <= b && b <= 0x39 {
        Some(b - 0x30)
    } else if 0x41 <= b && b <= 0x46 {
        Some(b - 0x41 + 10)
    } else if 0x61 <= b && b <= 0x66 {
        Some(b - 0x61 + 10)
    } else {
        None
    }
}

/// Blends two colors: each channel is the floored average.
pub fn blend_colors(color_1: Color, color_2: Color) -> (r: Color)
    ensures
        r.r() == ((color_1.r() + color_2.r()) / 2) as u8,
        r.g() == ((color_1.g() + color_2.g()) / 2) as u8,
        r.b() == ((color_1.b() + color_2.b()) / 2) as u8,
{
    let r = ((color_1.0 as u16 + color_2.0 as u16) / 2) as u8;
    let g = ((color_1.1 as u16 + color_2.1 as u16) / 2) as u8;
    let b = ((color_1.2 as u16 + color_2.2 as u16) / 2) as u8;
    Color(r, g, b)
}

/// Scales a color's brightness by a fraction in `[0, 1]`: each channel is the
/// floored exact product.
pub fn change_brightness(color: Color, fraction: Frac) -> (r: Color)
    requires
        fraction.num() >= 0,
        fraction.num() <= fraction.den(),
    ensures
        r.r() == (color.r() * fraction.num()) / fraction.den(),
        r.g() == (color.g() * fraction.num()) / fraction.den(),
        r.b() == (color.b() * fraction.num()) / fraction.den(),
{
    proof {
        use_type_invariant(fraction);
        crate::frac::lemma_abs_mul_le(
            color.r() as int,
            fraction.num(),
            256,
            crate::frac::FRAC_LIM as int,
        );
        crate::frac::lemma_abs_mul_le(
            color.g() as int,
            fraction.num(),
            256,
            crate::frac::FRAC_LIM as int,
        );
        crate::frac::lemma_abs_mul_le(
            color.b() as int,
            fraction.num(),
            256,
            crate::frac::FRAC_LIM as int,
        );
    }
    let num = fraction.numerator();
    let den = fraction.denominator();
    let r = ((color.0 as i128) * num / den) as u8;
    let g = ((color.1 as i128) * num / den) as u8;
    let b = ((color.2 as i128) * num / den) as u8;
    proof {
        lemma_scale_in_range(color.r() as int, fraction.num(), fraction.den());
        lemma_scale_in_range(color.g() as int, fraction.num(), fraction.den());
        lemma_scale_in_range(color.b() as int, fraction.num(), fraction.den());
    }
    Color(r, g, b)
}

/// A channel scaled by a fraction in `[0, 1]` stays a byte.
proof fn lemma_scale_in_range(c: int, num: int, den: int)
    requires
        0 <= c <= 255,
        0 <= num <= den,
        den > 0,
    ensures
        0 <= (c * num) / den <= c,
{
    assert(c * num >= 0) by (nonlinear_arith)
        requires
            c >= 0,
            num >= 0,
    ;
    assert(c * num <= c * den) by (nonlinear_arith)
        requires
            c >= 0,
            num <= den,
    ;
    vstd::arithmetic::div_mod::lemma_div_pos_is_pos(c * num, den);
    vstd::arithmetic::div_mod::lemma_div_is_ordered(c * num, c * den, den);
    assert(c * den == den * c) by (nonlinear_arith);
    vstd::arithmetic::div_mod::lemma_div_multiples_vanish(c, den);
    assert((c * den) / den == c);
}

} // verus!
