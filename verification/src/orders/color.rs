//! Pixel-format conversions for the inner RDP color depth. Drawing orders and
//! cached bitmaps carry colors in the session's depth; the canvas is RGBA32.

use crate::wire::{le16, u16_le};
use vstd::prelude::*;

verus! {

/// A 256-entry color table.
pub type Palette = [[u8; 4]; 256];

/// A pixel as red, green, blue and alpha.
pub type Rgba = (u8, u8, u8, u8);

pub open spec fn rgba(c: [u8; 4]) -> Rgba {
    (c[0], c[1], c[2], c[3])
}

/// A 5-bit channel spread over 8 bits: its bits followed by its top three.
pub open spec fn wide5(v: int) -> int {
    8 * v + v / 4
}

/// A 6-bit channel spread over 8 bits: its bits followed by its top two.
pub open spec fn wide6(v: int) -> int {
    4 * v + v / 16
}

/// Expand a 5-bit channel to 8-bit.
fn x5(v: u16) -> (r: u8)
    requires
        v < 32,
    ensures
        r == wide5(v as int),
{
    (v * 8 + v / 4) as u8
}

/// Expand a 6-bit channel to 8-bit.
fn x6(v: u16) -> (r: u8)
    requires
        v < 64,
    ensures
        r == wide6(v as int),
{
    (v * 4 + v / 16) as u8
}

/// RGB565: five bits of red, six of green, five of blue, red highest.
pub open spec fn rgb565_of(p: u16) -> Rgba {
    (
        wide5((p / 2048) as int) as u8,
        wide6((p / 32 % 64) as int) as u8,
        wide5((p % 32) as int) as u8,
        0xff,
    )
}

/// RGB555: five bits each, red highest; the top bit is ignored.
pub open spec fn rgb555_of(p: u16) -> Rgba {
    (
        wide5((p / 1024 % 32) as int) as u8,
        wide5((p / 32 % 32) as int) as u8,
        wide5((p % 32) as int) as u8,
        0xff,
    )
}

/// RGB565 (16 bpp) little-endian u16 -> RGBA.
pub fn rgb565(p: u16) -> (r: [u8; 4])
    ensures
        rgba(r) == rgb565_of(p),
{
    [x5(p / 2048), x6(p / 32 % 64), x5(p % 32), 0xff]
}

/// RGB555 (15 bpp) little-endian u16 -> RGBA.
pub fn rgb555(p: u16) -> (r: [u8; 4])
    ensures
        rgba(r) == rgb555_of(p),
{
    [x5(p / 1024 % 32), x5(p / 32 % 32), x5(p % 32), 0xff]
}

/// An OpaqueRect / brush color field: three 1-byte components as carried in
/// the order stream (RedOrPaletteIndex, Green, Blue). For >8 bpp these are the
/// red/green/blue intensities directly.
pub fn colorref(red_or_idx: u8, green: u8, blue: u8) -> (r: [u8; 4])
    ensures
        rgba(r) == (red_or_idx, green, blue, 0xffu8),
{
    [red_or_idx, green, blue, 0xff]
}

/// Bits per pixel of the inner RDP session / a cached bitmap.
#[derive(Debug, Clone, Copy, PartialEq, Eq, Structural)]
pub enum ColorDepth {
    Bpp8,
    Bpp15,
    Bpp16,
    Bpp24,
    Bpp32,
}

impl ColorDepth {
    /// The number of bits that a depth stands for.
    pub open spec fn bits(self) -> int {
        match self {
            ColorDepth::Bpp8 => 8,
            ColorDepth::Bpp15 => 15,
            ColorDepth::Bpp16 => 16,
            ColorDepth::Bpp24 => 24,
            ColorDepth::Bpp32 => 32,
        }
    }

    /// Whole bytes per pixel.
    pub open spec fn bytes(self) -> int {
        (self.bits() + 7) / 8
    }

    /// The depth with `bpp` bits, if there is one.
    pub open spec fn of_bits(bpp: int) -> Option<ColorDepth> {
        if bpp == 8 {
            Some(ColorDepth::Bpp8)
        } else if bpp == 15 {
            Some(ColorDepth::Bpp15)
        } else if bpp == 16 {
            Some(ColorDepth::Bpp16)
        } else if bpp == 24 {
            Some(ColorDepth::Bpp24)
        } else if bpp == 32 {
            Some(ColorDepth::Bpp32)
        } else {
            None
        }
    }

    /// The color of one source pixel.
    pub open spec fn color(self, src: Seq<u8>, palette: Option<Palette>) -> Rgba {
        match self {
            ColorDepth::Bpp8 => match palette {
                Some(pal) => rgba(pal[src[0] as int]),
                None => (src[0], src[0], src[0], 0xff),
            },
            ColorDepth::Bpp15 => rgb555_of(le16(src[0], src[1])),
            ColorDepth::Bpp16 => rgb565_of(le16(src[0], src[1])),
            ColorDepth::Bpp24 => (src[2], src[1], src[0], 0xff),
            ColorDepth::Bpp32 => (src[2], src[1], src[0], 0xff),
        }
    }

    pub fn from_bpp(bpp: u16) -> (r: Option<ColorDepth>)
        ensures
            r == ColorDepth::of_bits(bpp as int),
    {
        match bpp {
            8 => Some(ColorDepth::Bpp8),
            15 => Some(ColorDepth::Bpp15),
            16 => Some(ColorDepth::Bpp16),
            24 => Some(ColorDepth::Bpp24),
            32 => Some(ColorDepth::Bpp32),
            _ => None,
        }
    }

    pub fn bytes_per_pixel(self) -> (r: usize)
        ensures
            r == self.bytes(),
            1 <= r <= 4,
    {
        match self {
            ColorDepth::Bpp8 => 1,
            ColorDepth::Bpp15 | ColorDepth::Bpp16 => 2,
            ColorDepth::Bpp24 => 3,
            ColorDepth::Bpp32 => 4,
        }
    }

    /// Convert one source pixel (little-endian, RDP byte order) to RGBA.
    /// `palette` is required for 8 bpp; without it, 8 bpp maps to grayscale.
    pub fn to_rgba(self, src: &[u8], palette: Option<&Palette>) -> (r: [u8; 4])
        requires
            src@.len() >= self.bytes(),
        ensures
            rgba(r) == self.color(
                src@,
                match palette {
                    Some(p) => Some(*p),
                    None => None,
                },
            ),
    {
        match self {
            ColorDepth::Bpp8 => {
                let idx: usize = src[0] as usize;
                match palette {
                    Some(pal) => pal[idx],
                    None => [src[0], src[0], src[0], 0xff],
                }
            },
            ColorDepth::Bpp15 => rgb555(u16_le(src[0], src[1])),
            ColorDepth::Bpp16 => rgb565(u16_le(src[0], src[1])),
            // 24/32 bpp raw bitmaps are stored B, G, R(, X).
            ColorDepth::Bpp24 => [src[2], src[1], src[0], 0xff],
            ColorDepth::Bpp32 => [src[2], src[1], src[0], 0xff],
        }
    }
}

/// A depth is named by its bit count, and `from_bpp` finds it again.
pub proof fn law_depth_of_bits(depth: ColorDepth)
    ensures
        ColorDepth::of_bits(depth.bits()) == Some(depth),
{
}

} // verus!
