//! Decoding cache-bitmap data into an RGBA [`Bitmap`]. RDP bitmaps are stored
//! bottom-up in the session color depth, optionally interleaved-RLE compressed.
//! Decompression is done by `ironrdp-graphics`; raw decoding, the bottom-up to
//! top-down flip and the color conversion are done here.

use crate::orders::canvas::{lemma_cell, Bitmap, BitmapView};
use crate::orders::color::{ColorDepth, Palette, Rgba};
use crate::orders::error::OrderError;
use ironrdp_graphics::rle::RleError;
use vstd::arithmetic::div_mod::lemma_fundamental_div_mod_converse;
use vstd::prelude::*;

verus! {

/// Cache-bitmap tiles are small; larger dimensions are refused before anything
/// is allocated.
pub const MAX_DIM: usize = 4096;

/// The error of `ironrdp_graphics::rle::decompress`, carried through.
#[verifier::external_type_specification]
#[verifier::external_body]
pub struct ExRleError(RleError);

/// What `ironrdp_graphics::rle::decompress` makes of interleaved-RLE data for a
/// bitmap of the given size and bits per pixel: the pixel bytes, or nothing
/// when it reports an error.
pub uninterp spec fn rle_expanded(src: Seq<u8>, width: int, height: int, bpp: int) -> Option<
    Seq<u8>,
>;

/// Calls `ironrdp_graphics::rle::decompress` with an empty destination. The
/// result depends on the arguments alone; on success the destination holds
/// exactly the bytes of `height` rows of `width` pixels.
#[verifier::external_body]
fn rle_decompress(src: &[u8], width: usize, height: usize, bpp: usize) -> (r: Result<
    Vec<u8>,
    RleError,
>)
    requires
        1 <= width <= 4096,
        1 <= height <= 4096,
        bpp == 8 || bpp == 15 || bpp == 16 || bpp == 24,
    ensures
        match r {
            Ok(out) => rle_expanded(src@, width as int, height as int, bpp as int) == Some(out@)
                && out@.len() == width * height * ((bpp + 7) / 8),
            Err(_) => rle_expanded(src@, width as int, height as int, bpp as int) is None,
        },
{
    let mut out = Vec::new();
    ironrdp_graphics::rle::decompress(src, &mut out, width, height, bpp)?;
    Ok(out)
}

pub open spec fn owned(palette: Option<&Palette>) -> Option<Palette> {
    match palette {
        Some(p) => Some(*p),
        None => None,
    }
}

/// The bytes of the pixel shown at `(x, y)`, counted from the top: source rows
/// run from the bottom up.
pub open spec fn source_pixel(
    raw: Seq<u8>,
    width: int,
    height: int,
    depth: ColorDepth,
    x: int,
    y: int,
) -> Seq<u8> {
    let at = ((height - 1 - y) * width + x) * depth.bytes();
    raw.subrange(at, at + depth.bytes())
}

/// Byte `k` of an opaque pixel.
pub open spec fn channel(c: Rgba, k: int) -> u8 {
    if k == 0 {
        c.0
    } else if k == 1 {
        c.1
    } else if k == 2 {
        c.2
    } else {
        0xff
    }
}

/// The top-down RGBA bytes of bottom-up pixels.
pub open spec fn flipped(
    raw: Seq<u8>,
    width: int,
    height: int,
    depth: ColorDepth,
    palette: Option<Palette>,
) -> Seq<u8> {
    Seq::new(
        (width * height * 4) as nat,
        |i: int|
            channel(
                depth.color(
                    source_pixel(raw, width, height, depth, (i / 4) % width, (i / 4) / width),
                    palette,
                ),
                i % 4,
            ),
    )
}

/// The bitmap that raw bottom-up pixels make, or the error when there are too
/// few of them.
pub open spec fn raw_decoded(
    raw: Seq<u8>,
    width: u16,
    height: u16,
    depth: ColorDepth,
    palette: Option<Palette>,
) -> Result<BitmapView, OrderError> {
    let needed = width * depth.bytes() * height;
    if raw.len() < needed {
        Err(OrderError::UnexpectedEof { needed: needed as usize, have: raw.len() as usize })
    } else {
        Ok(
            BitmapView {
                width,
                height,
                data: flipped(raw, width as int, height as int, depth, palette),
            },
        )
    }
}

/// The bitmap that cache-bitmap data makes, or the error. Interleaved RLE does
/// not exist for 32 bits per pixel: such data counts as raw.
pub open spec fn decoded(
    data: Seq<u8>,
    width: u16,
    height: u16,
    depth: ColorDepth,
    compressed: bool,
    palette: Option<Palette>,
) -> Result<BitmapView, OrderError> {
    if width == 0 || height == 0 || width > MAX_DIM || height > MAX_DIM {
        Err(OrderError::Malformed("bitmap dimensions out of range"))
    } else if compressed && depth != ColorDepth::Bpp32 {
        match rle_expanded(data, width as int, height as int, depth.bits()) {
            Some(raw) => raw_decoded(raw, width, height, depth, palette),
            None => Err(OrderError::Malformed("RLE decompression failed")),
        }
    } else {
        raw_decoded(data, width, height, depth, palette)
    }
}

/// Agreement of a decode result with what it should be.
pub open spec fn is_result(r: Result<Bitmap, OrderError>, want: Result<BitmapView, OrderError>) -> bool {
    match r {
        Ok(b) => want == Ok::<BitmapView, OrderError>(b@) && b@.wf(),
        Err(e) => want == Err::<BitmapView, OrderError>(e),
    }
}

/// The pixel at the top left of the decoded bitmap is the one at the bottom left
/// of the source, and so on: decoding turns the rows around and converts colors.
pub proof fn law_decode_flips_rows(
    raw: Seq<u8>,
    width: u16,
    height: u16,
    depth: ColorDepth,
    palette: Option<Palette>,
    x: int,
    y: int,
)
    requires
        0 <= x < width,
        0 <= y < height,
    ensures
        ({
            let c = depth.color(
                source_pixel(raw, width as int, height as int, depth, x, y),
                palette,
            );
            BitmapView {
                width,
                height,
                data: flipped(raw, width as int, height as int, depth, palette),
            }.pixel(x, y) == Some((c.0, c.1, c.2, 0xffu8))
        }),
{
    let p = y * width + x;
    lemma_cell(x, y, width as int, height as int);
    lemma_fundamental_div_mod_converse(p, width as int, y, x);
    assert((p * 4) / 4 == p && (p * 4 + 1) / 4 == p && (p * 4 + 2) / 4 == p && (p * 4 + 3) / 4
        == p);
}

/// Convert raw bottom-up pixels into a top-down RGBA [`Bitmap`].
pub fn decode_raw(
    raw: &[u8],
    width: u16,
    height: u16,
    depth: ColorDepth,
    palette: Option<&Palette>,
) -> (r: Result<Bitmap, OrderError>)
    requires
        1 <= width <= MAX_DIM,
        1 <= height <= MAX_DIM,
    ensures
        is_result(r, raw_decoded(raw@, width, height, depth, owned(palette))),
{
    let bpp: usize = depth.bytes_per_pixel();
    let w: usize = width as usize;
    let h: usize = height as usize;
    proof {
        assert(1 <= w * h <= 4096 * 4096) by (nonlinear_arith)
            requires
                1 <= w <= 4096,
                1 <= h <= 4096,
        ;
        assert(w * bpp * h == (w * h) * bpp) by (nonlinear_arith);
        assert(0 <= w * bpp <= 4096 * 4 && 0 <= (w * h) * bpp <= 4096 * 4096 * 4)
            by (nonlinear_arith)
            requires
                1 <= w <= 4096,
                1 <= bpp <= 4,
                1 <= w * h <= 4096 * 4096,
        ;
    }
    let stride: usize = w * bpp;
    if raw.len() < stride * h {
        return Err(OrderError::UnexpectedEof { needed: stride * h, have: raw.len() });
    }
    let ghost want = flipped(raw@, w as int, h as int, depth, owned(palette));
    let mut out: Vec<u8> = Vec::new();
    let mut dst_row: usize = 0;
    while dst_row < h
        invariant
            1 <= w <= 4096,
            1 <= h <= 4096,
            w == width,
            h == height,
            1 <= w * h <= 4096 * 4096,
            bpp == depth.bytes(),
            1 <= bpp <= 4,
            raw@.len() >= (w * h) * bpp,
            dst_row <= h,
            want == flipped(raw@, w as int, h as int, depth, owned(palette)),
            out@.len() == (dst_row * w) * 4,
            forall|i: int| 0 <= i < out@.len() ==> out@[i] == want[i],
        decreases h - dst_row,
    {
        let src_row: usize = h - 1 - dst_row;  // flip vertical
        let mut x: usize = 0;
        while x < w
            invariant
                1 <= w <= 4096,
                1 <= h <= 4096,
                w == width,
                h == height,
                1 <= w * h <= 4096 * 4096,
                bpp == depth.bytes(),
                1 <= bpp <= 4,
                raw@.len() >= (w * h) * bpp,
                dst_row < h,
                src_row == h - 1 - dst_row,
                x <= w,
                want == flipped(raw@, w as int, h as int, depth, owned(palette)),
                out@.len() == (dst_row * w + x) * 4,
                forall|i: int| 0 <= i < out@.len() ==> out@[i] == want[i],
            decreases w - x,
        {
            proof {
                lemma_cell(x as int, src_row as int, w as int, h as int);
                lemma_cell(x as int, dst_row as int, w as int, h as int);
                assert(0 <= src_row * w) by (nonlinear_arith);
                assert(0 <= (src_row * w + x) * bpp && (src_row * w + x) * bpp + bpp <= (w * h)
                    * bpp) by (nonlinear_arith)
                    requires
                        0 <= src_row * w + x < w * h,
                        1 <= bpp <= 4,
                ;
                assert((w * h) * bpp <= 4096 * 4096 * 4) by (nonlinear_arith)
                    requires
                        1 <= bpp <= 4,
                        1 <= w * h <= 4096 * 4096,
                ;
            }
            let at: usize = (src_row * w + x) * bpp;
            let sp: &[u8] = vstd::slice::slice_subrange(raw, at, at + bpp);
            let c: [u8; 4] = depth.to_rgba(sp, palette);
            let ghost p = dst_row * w + x;
            proof {
                lemma_fundamental_div_mod_converse(p, w as int, dst_row as int, x as int);
                assert((p * 4) / 4 == p && (p * 4 + 1) / 4 == p && (p * 4 + 2) / 4 == p && (p * 4
                    + 3) / 4 == p);
                assert(sp@ =~= source_pixel(
                    raw@,
                    w as int,
                    h as int,
                    depth,
                    x as int,
                    dst_row as int,
                ));
            }
            out.push(c[0]);
            out.push(c[1]);
            out.push(c[2]);
            out.push(0xff);
            x = x + 1;
        }
        assert((dst_row + 1) * w == dst_row * w + w) by (nonlinear_arith);
        dst_row = dst_row + 1;
    }
    assert(h * w == w * h) by (nonlinear_arith);
    assert(out@ =~= want);
    Ok(Bitmap::new(width, height, out))
}

/// Decode bitmap pixel data into a top-down RGBA [`Bitmap`].
///
/// * `data`: the bitmap bits (raw or RLE-compressed), bottom-up.
/// * `compressed`: whether `data` is interleaved-RLE compressed.
/// * `depth`: the source color depth.
/// * `palette`: required for 8 bpp (else grayscale fallback).
pub fn decode(
    data: &[u8],
    width: u16,
    height: u16,
    depth: ColorDepth,
    compressed: bool,
    palette: Option<&Palette>,
) -> (r: Result<Bitmap, OrderError>)
    ensures
        is_result(r, decoded(data@, width, height, depth, compressed, owned(palette))),
{
    if width == 0 || height == 0 || width as usize > MAX_DIM || height as usize > MAX_DIM {
        return Err(OrderError::Malformed("bitmap dimensions out of range"));
    }
    if compressed {
        let bits: usize = match depth {
            ColorDepth::Bpp8 => 8,
            ColorDepth::Bpp15 => 15,
            ColorDepth::Bpp16 => 16,
            ColorDepth::Bpp24 => 24,
            ColorDepth::Bpp32 => 32,
        };
        if bits != 32 {
            return match rle_decompress(data, width as usize, height as usize, bits) {
                Ok(raw) => decode_raw(raw.as_slice(), width, height, depth, palette),
                Err(_) => Err(OrderError::Malformed("RLE decompression failed")),
            };
        }
    }
    decode_raw(data, width, height, depth, palette)
}

} // verus!
