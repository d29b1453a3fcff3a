//! Secondary drawing orders: caches the server populates (bitmaps, glyphs,
//! color tables). The stream stays in sync via the header-declared order length,
//! so secondary orders that are not implemented are skipped.

use crate::orders::bitmap;
use crate::orders::cache::{
    colors, BitmapCache, BitmapCacheView, Glyph, GlyphCache, GlyphCacheView, GlyphView,
    PaletteCache, WAITING_LIST_INDEX,
};
use crate::orders::canvas::min;
use crate::orders::color::{rgba, ColorDepth, Palette, Rgba};
use crate::orders::cursor::{Cursor, Reading};
use crate::orders::error::OrderError;
use vstd::prelude::*;

verus! {

// Secondary order types.
pub const CACHE_BITMAP_UNCOMPRESSED: u8 = 0x00;

pub const CACHE_COLOR_TABLE: u8 = 0x01;

pub const CACHE_BITMAP_COMPRESSED: u8 = 0x02;

pub const CACHE_GLYPH: u8 = 0x03;

pub const CACHE_BITMAP_UNCOMPRESSED_REV2: u8 = 0x04;

pub const CACHE_BITMAP_COMPRESSED_REV2: u8 = 0x05;

pub const CACHE_BRUSH: u8 = 0x07;

pub const CACHE_BITMAP_COMPRESSED_REV3: u8 = 0x08;

pub const NO_BITMAP_COMPRESSION_HDR: u16 = 0x0400;

// CBR2 header flags (already shifted right by 7 from the secondary extraFlags).
pub const CBR2_HEIGHT_SAME_AS_WIDTH: u16 = 0x01;

pub const CBR2_PERSISTENT_KEY_PRESENT: u16 = 0x02;

pub const CBR2_NO_BITMAP_COMPRESSION_HDR: u16 = 0x08;

/// The three caches that secondary orders fill.
#[verifier::ext_equal]
pub struct Caches {
    pub bitmaps: BitmapCacheView,
    pub palettes: Map<int, Seq<Rgba>>,
    pub glyphs: GlyphCacheView,
}

/// Bytes of a glyph bitmap on the wire: rows of whole bytes, the whole padded up
/// to a multiple of four.
pub open spec fn glyph_bytes(cx: u16, cy: u16) -> int {
    ((cx + 7) / 8 * cy + 3) / 4 * 4
}

impl Reading {
    /// One glyph: its cache index and the glyph. Bits that are cut off are left
    /// out.
    pub open spec fn glyph(self) -> (Reading, int, GlyphView) {
        let (d, index) = self.u16();
        let (d, x) = d.i16();
        let (d, y) = d.i16();
        let (d, cx) = d.u16();
        let (d, cy) = d.u16();
        let (d, aj) = d.bytes(min(glyph_bytes(cx, cy), d.remaining()));
        (d, index as int, GlyphView { x, y, cx, cy, aj })
    }

    /// `n` glyphs in a row; those before an error stay cached.
    pub open spec fn glyphs(self, cache_id: int, n: nat, cache: GlyphCacheView) -> (
        Reading,
        GlyphCacheView,
    )
        decreases n,
    {
        if n == 0 {
            (self, cache)
        } else {
            let (d, index, g) = self.glyph();
            if d.ok() {
                d.glyphs(cache_id, (n - 1) as nat, cache.insert(cache_id, index, g))
            } else {
                (d, cache)
            }
        }
    }

    /// A variable-length unsigned of one or two bytes: the high bit of the first
    /// byte announces a second.
    pub open spec fn var2(self) -> (Reading, int) {
        let (d, b0) = self.u8();
        if b0 < 0x80 {
            (d, b0 as int)
        } else {
            let (d, b1) = d.u8();
            (d, (b0 - 0x80) * 256 + b1)
        }
    }

    /// `n` more bytes of a big-endian number that so far is `val`.
    pub open spec fn more(self, n: nat, val: int) -> (Reading, int)
        decreases n,
    {
        if n == 0 || !self.ok() {
            (self, val)
        } else {
            let (d, b) = self.u8();
            d.more((n - 1) as nat, val * 256 + b)
        }
    }

    /// A variable-length unsigned of one to four bytes: the top two bits of the
    /// first byte count the further ones.
    pub open spec fn var4(self) -> (Reading, int) {
        let (d, b0) = self.u8();
        d.more((b0 / 64) as nat, (b0 % 64) as int)
    }

    /// The length of compressed bits, out of the 8-byte header in front of them.
    pub open spec fn compressed_length(self) -> (Reading, int) {
        let (d, _first_row) = self.u16();
        let (d, main_body) = d.u16();
        let (d, _scan_width) = d.u16();
        let (d, _uncompressed) = d.u16();
        (d, main_body as int)
    }
}

/// What a Cache Glyph order (revision 1) does.
pub open spec fn glyph_rev1(payload: Seq<u8>, cache: GlyphCacheView) -> (
    Option<OrderError>,
    GlyphCacheView,
) {
    let (d, cache_id) = Reading::start(payload).u8();
    let (d, n) = d.u8();
    if d.ok() {
        let (d, cache) = d.glyphs(cache_id as int, n as nat, cache);
        (d.err, cache)
    } else {
        (d.err, cache)
    }
}

/// What a Cache Bitmap order (revision 1) does.
pub open spec fn bitmap_rev1(
    extra_flags: u16,
    payload: Seq<u8>,
    compressed: bool,
    cache: BitmapCacheView,
) -> (Option<OrderError>, BitmapCacheView) {
    let (d, cache_id) = Reading::start(payload).u8();
    let (d, _pad) = d.u8();
    let (d, width) = d.u8();
    let (d, height) = d.u8();
    let (d, bpp) = d.u8();
    let (d, length) = d.u16();
    let (d, cache_index) = d.u16();
    if !d.ok() {
        (d.err, cache)
    } else {
        match ColorDepth::of_bits(bpp as int) {
            None => (Some(OrderError::Malformed("bad cache bitmap bpp")), cache),
            Some(depth) => {
                let (d, length) = if compressed && extra_flags & NO_BITMAP_COMPRESSION_HDR == 0 {
                    d.compressed_length()
                } else {
                    (d, length as int)
                };
                let (d, data) = d.bytes(length);
                if !d.ok() {
                    (d.err, cache)
                } else {
                    match bitmap::decoded(
                        data,
                        width as u16,
                        height as u16,
                        depth,
                        compressed,
                        None,
                    ) {
                        Ok(b) => (None, cache.insert(cache_id as int, cache_index as int, b)),
                        Err(e) => (Some(e), cache),
                    }
                }
            },
        }
    }
}

/// The bits per pixel of a revision 2 bitmap. The depth id 3/4/5/6 is
/// 8/16/24/32; the server often sends 0, and the depth then follows from the
/// uncompressed byte count.
pub open spec fn rev2_bpp(extra_flags: u16, compressed: bool, h: Rev2Header) -> u16 {
    let id = (extra_flags >> 3) & 0x07;
    if id == 3 {
        8
    } else if id == 4 {
        16
    } else if id == 5 {
        24
    } else if id == 6 {
        32
    } else if !compressed && h.width * h.height > 0 {
        (h.length * 8 / (h.width * h.height)) as u16
    } else {
        16
    }
}

/// What stands in front of the bits of a revision 2 bitmap.
#[derive(Debug, Clone, Copy)]
pub struct Rev2Header {
    pub width: u16,
    pub height: u16,
    pub length: usize,
    pub cache_index: usize,
}

impl Reading {
    pub open spec fn rev2_header(self, flags: u16, compressed: bool) -> (Reading, Rev2Header) {
        let d = if flags & CBR2_PERSISTENT_KEY_PRESENT != 0 {
            self.skip(8)
        } else {
            self
        };
        let (d, width) = d.var2();
        let (d, height) = if flags & CBR2_HEIGHT_SAME_AS_WIDTH != 0 {
            (d, width)
        } else {
            d.var2()
        };
        let (d, length) = d.var4();
        let (d, cache_index) = d.var2();
        let (d, length) = if compressed && flags & CBR2_NO_BITMAP_COMPRESSION_HDR == 0 {
            d.compressed_length()
        } else {
            (d, length)
        };
        (
            d,
            Rev2Header {
                width: width as u16,
                height: height as u16,
                length: length as usize,
                cache_index: cache_index as usize,
            },
        )
    }
}

/// What a Cache Bitmap order (revision 2) does. `extra_flags` holds the cache id
/// in bits 0-2, the depth id in bits 3-5 and the flags from bit 7 on. A bitmap
/// with the waiting-list index goes to the transient slot.
pub open spec fn bitmap_rev2(
    extra_flags: u16,
    payload: Seq<u8>,
    compressed: bool,
    cache: BitmapCacheView,
) -> (Option<OrderError>, BitmapCacheView) {
    let cache_id = (extra_flags & 0x0007) as int;
    let (d, h) = Reading::start(payload).rev2_header(extra_flags >> 7, compressed);
    if !d.ok() {
        (d.err, cache)
    } else {
        match ColorDepth::of_bits(
            rev2_bpp(extra_flags, compressed, h) as int,
        ) {
            None => (Some(OrderError::Malformed("bad CBR2 bpp")), cache),
            Some(depth) => {
                let (_, data) = d.bytes(min(h.length as int, d.remaining()));
                match bitmap::decoded(data, h.width, h.height, depth, compressed, None) {
                    Ok(b) => (
                        None,
                        if h.cache_index == WAITING_LIST_INDEX {
                            cache.insert_waiting(cache_id, b)
                        } else {
                            cache.insert(cache_id, h.cache_index as int, b)
                        },
                    ),
                    Err(e) => (Some(e), cache),
                }
            },
        }
    }
}

/// What a Cache Color Table order does: 256 entries of blue, green, red and a
/// pad byte.
pub open spec fn color_table(payload: Seq<u8>, cache: Map<int, Seq<Rgba>>) -> (
    Option<OrderError>,
    Map<int, Seq<Rgba>>,
) {
    let (d, index) = Reading::start(payload).u8();
    let (d, count) = d.u16();
    if !d.ok() {
        (d.err, cache)
    } else if count != 256 {
        (Some(OrderError::Malformed("color table not 256 entries")), cache)
    } else if d.remaining() < 4 * 256 {
        (Some(OrderError::UnexpectedEof { needed: 1, have: 0 }), cache)
    } else {
        (
            None,
            cache.insert(
                index as int,
                Seq::new(
                    256,
                    |i: int|
                        (
                            payload[d.pos + 4 * i + 2],
                            payload[d.pos + 4 * i + 1],
                            payload[d.pos + 4 * i],
                            0xffu8,
                        ),
                ),
            ),
        )
    }
}

/// What one secondary order does: its error, if any, and the caches afterwards.
pub open spec fn applied(order_type: u8, extra_flags: u16, payload: Seq<u8>, s: Caches) -> (
    Option<OrderError>,
    Caches,
) {
    if order_type == CACHE_BITMAP_UNCOMPRESSED || order_type == CACHE_BITMAP_COMPRESSED {
        let (err, bitmaps) = bitmap_rev1(
            extra_flags,
            payload,
            order_type == CACHE_BITMAP_COMPRESSED,
            s.bitmaps,
        );
        (err, Caches { bitmaps, ..s })
    } else if order_type == CACHE_COLOR_TABLE {
        let (err, palettes) = color_table(payload, s.palettes);
        (err, Caches { palettes, ..s })
    } else if order_type == CACHE_BITMAP_UNCOMPRESSED_REV2 || order_type
        == CACHE_BITMAP_COMPRESSED_REV2 {
        let (err, bitmaps) = bitmap_rev2(
            extra_flags,
            payload,
            order_type == CACHE_BITMAP_COMPRESSED_REV2,
            s.bitmaps,
        );
        (err, Caches { bitmaps, ..s })
    } else if order_type == CACHE_GLYPH {
        let (err, glyphs) = glyph_rev1(payload, s.glyphs);
        (err, Caches { glyphs, ..s })
    } else if order_type == CACHE_BITMAP_COMPRESSED_REV3 || order_type == CACHE_BRUSH {
        (None, s)
    } else {
        (Some(OrderError::UnsupportedSecondaryOrder(order_type)), s)
    }
}

pub open spec fn as_result(err: Option<OrderError>) -> Result<(), OrderError> {
    match err {
        None => Ok(()),
        Some(e) => Err(e),
    }
}

/// Apply one secondary order (already sliced to its payload).
pub fn apply(
    order_type: u8,
    extra_flags: u16,
    payload: &[u8],
    bitmaps: &mut BitmapCache,
    palettes: &mut PaletteCache,
    glyphs: &mut GlyphCache,
) -> (r: Result<(), OrderError>)
    requires
        old(bitmaps)@.wf(),
    ensures
        final(bitmaps)@.wf(),
        ({
            let (err, s) = applied(
                order_type,
                extra_flags,
                payload@,
                Caches {
                    bitmaps: old(bitmaps)@,
                    palettes: old(palettes)@,
                    glyphs: old(glyphs)@,
                },
            );
            r == as_result(err) && final(bitmaps)@ == s.bitmaps && final(palettes)@ == s.palettes
                && final(glyphs)@ == s.glyphs
        }),
{
    match order_type {
        CACHE_BITMAP_UNCOMPRESSED => cache_bitmap_rev1(extra_flags, payload, false, bitmaps),
        CACHE_BITMAP_COMPRESSED => cache_bitmap_rev1(extra_flags, payload, true, bitmaps),
        CACHE_COLOR_TABLE => cache_color_table(payload, palettes),
        CACHE_BITMAP_UNCOMPRESSED_REV2 => cache_bitmap_rev2(extra_flags, payload, false, bitmaps),
        CACHE_BITMAP_COMPRESSED_REV2 => cache_bitmap_rev2(extra_flags, payload, true, bitmaps),
        CACHE_GLYPH => cache_glyph_rev1(payload, glyphs),
        CACHE_BITMAP_COMPRESSED_REV3 => Ok(()),
        CACHE_BRUSH => Ok(()),
        other => Err(OrderError::UnsupportedSecondaryOrder(other)),
    }
}

/// One glyph of a Cache Glyph order, with its cache index.
fn read_glyph(c: &mut Cursor) -> (r: Result<(usize, Glyph), OrderError>)
    requires
        old(c)@.live(),
    ensures
        final(c)@.live(),
        final(c)@ == (Reading { err: None, ..old(c)@.glyph().0 }),
        match r {
            Ok((index, g)) => old(c)@.glyph() == (final(c)@, index as int, g@) && index <= 0xffff,
            Err(e) => old(c)@.glyph().0.err == Some(e),
        },
{
    let cache_index: usize = c.u16()? as usize;
    let x: i16 = c.i16()?;
    let y: i16 = c.i16()?;
    let cx: u16 = c.u16()?;
    let cy: u16 = c.u16()?;
    let row_bytes: usize = (cx as usize + 7) / 8;
    proof {
        assert(0 <= row_bytes * cy <= 8192 * 65535) by (nonlinear_arith)
            requires
                0 <= row_bytes <= 8192,
                0 <= cy <= 65535,
        ;
    }
    let mut cb: usize = row_bytes * cy as usize;
    if cb % 4 != 0 {
        cb = cb + (4 - (cb % 4));
    }
    let left: usize = c.remaining();
    let take: usize = if cb <= left {
        cb
    } else {
        left
    };
    let aj: Vec<u8> = vstd::slice::slice_to_vec(c.bytes(take)?);
    let glyph = Glyph { x, y, cx, cy, aj };
    Ok((cache_index, glyph))
}

/// TS_CACHE_GLYPH_ORDER (revision 1), MS-RDPEGDI 2.2.2.2.1.2.5: a run of glyph
/// bitmaps cached under one cache id.
fn cache_glyph_rev1(payload: &[u8], glyphs: &mut GlyphCache) -> (r: Result<(), OrderError>)
    ensures
        r == as_result(glyph_rev1(payload@, old(glyphs)@).0),
        final(glyphs)@ == glyph_rev1(payload@, old(glyphs)@).1,
{
    let mut c = Cursor::new(payload);
    let cache_id: usize = c.u8()? as usize;
    let c_glyphs: u8 = c.u8()?;
    let mut i: u8 = 0;
    let ghost d0 = c@;
    while i < c_glyphs
        invariant
            i <= c_glyphs,
            c@.live(),
            cache_id < 256,
            ({
                let (d, id) = Reading::start(payload@).u8();
                let (d, n) = d.u8();
                d0 == d && d.ok() && cache_id == id && c_glyphs == n
            }),
            d0.glyphs(cache_id as int, c_glyphs as nat, old(glyphs)@) == c@.glyphs(
                cache_id as int,
                (c_glyphs - i) as nat,
                glyphs@,
            ),
        decreases c_glyphs - i,
    {
        let (cache_index, glyph) = read_glyph(&mut c)?;
        glyphs.insert(cache_id, cache_index, glyph);
        i = i + 1;
    }
    Ok(())
}

fn read_compressed_length(c: &mut Cursor) -> (r: Result<usize, OrderError>)
    requires
        old(c)@.live(),
    ensures
        final(c)@.live(),
        final(c)@ == (Reading { err: None, ..old(c)@.compressed_length().0 }),
        match r {
            Ok(n) => old(c)@.compressed_length() == (final(c)@, n as int),
            Err(e) => old(c)@.compressed_length().0.err == Some(e),
        },
{
    let _first_row: u16 = c.u16()?;
    let main_body: usize = c.u16()? as usize;
    let _scan_width: u16 = c.u16()?;
    let _uncompressed: u16 = c.u16()?;
    Ok(main_body)
}

/// TS_CACHE_BITMAP_DATA (revision 1), MS-RDPEGDI 2.2.2.2.1.2.2.
fn cache_bitmap_rev1(
    extra_flags: u16,
    payload: &[u8],
    compressed: bool,
    bitmaps: &mut BitmapCache,
) -> (r: Result<(), OrderError>)
    requires
        old(bitmaps)@.wf(),
    ensures
        final(bitmaps)@.wf(),
        r == as_result(bitmap_rev1(extra_flags, payload@, compressed, old(bitmaps)@).0),
        final(bitmaps)@ == bitmap_rev1(extra_flags, payload@, compressed, old(bitmaps)@).1,
{
    let mut c = Cursor::new(payload);
    let cache_id: u8 = c.u8()?;
    let _pad: u8 = c.u8()?;
    let width: u16 = c.u8()? as u16;
    let height: u16 = c.u8()? as u16;
    let bpp: u16 = c.u8()? as u16;
    let mut bitmap_length: usize = c.u16()? as usize;
    let cache_index: u16 = c.u16()?;
    let depth: ColorDepth = match ColorDepth::from_bpp(bpp) {
        Some(d) => d,
        None => return Err(OrderError::Malformed("bad cache bitmap bpp")),
    };
    if compressed && (extra_flags & NO_BITMAP_COMPRESSION_HDR) == 0 {
        bitmap_length = read_compressed_length(&mut c)?;
    }
    let data: &[u8] = c.bytes(bitmap_length)?;
    let bmp = bitmap::decode(data, width, height, depth, compressed, None)?;
    bitmaps.insert(cache_id as usize, cache_index as usize, bmp);
    Ok(())
}

/// MS-RDPEGDI variable-length unsigned (1 or 2 bytes).
fn read_2byte(c: &mut Cursor) -> (r: Result<usize, OrderError>)
    requires
        old(c)@.live(),
    ensures
        final(c)@.live(),
        final(c)@ == (Reading { err: None, ..old(c)@.var2().0 }),
        match r {
            Ok(n) => old(c)@.var2() == (final(c)@, n as int) && n <= 0x7fff,
            Err(e) => old(c)@.var2().0.err == Some(e),
        },
{
    let b0: u8 = c.u8()?;
    if b0 >= 0x80 {
        let b1: u8 = c.u8()?;
        Ok((b0 - 0x80) as usize * 256 + b1 as usize)
    } else {
        Ok(b0 as usize)
    }
}

/// MS-RDPEGDI variable-length unsigned (1-4 bytes).
fn read_4byte(c: &mut Cursor) -> (r: Result<usize, OrderError>)
    requires
        old(c)@.live(),
    ensures
        final(c)@.live(),
        final(c)@ == (Reading { err: None, ..old(c)@.var4().0 }),
        match r {
            Ok(n) => old(c)@.var4() == (final(c)@, n as int) && n <= 0x3fff_ffff,
            Err(e) => old(c)@.var4().0.err == Some(e),
        },
{
    let b0: u8 = c.u8()?;
    let mut val: usize = (b0 % 64) as usize;
    let count: u8 = b0 / 64;
    let mut left: u8 = count;
    while left > 0
        invariant
            left <= count <= 3,
            c@.live(),
            old(c)@.var4() == c@.more(left as nat, val as int),
            val < (if left == count {
                0x40int
            } else if left + 1 == count {
                0x4000int
            } else if left + 2 == count {
                0x40_0000int
            } else {
                0x4000_0000int
            }),
        decreases left,
    {
        proof {
            reveal_with_fuel(Reading::more, 2);
        }
        let b: u8 = c.u8()?;
        val = val * 256 + b as usize;
        left = left - 1;
    }
    Ok(val)
}

fn read_rev2_header(c: &mut Cursor, flags: u16, compressed: bool) -> (r: Result<
    Rev2Header,
    OrderError,
>)
    requires
        old(c)@.live(),
    ensures
        final(c)@.live(),
        final(c)@ == (Reading { err: None, ..old(c)@.rev2_header(flags, compressed).0 }),
        match r {
            Ok(h) => old(c)@.rev2_header(flags, compressed) == (final(c)@, h) && h.width <= 0x7fff
                && h.height <= 0x7fff && h.length <= 0x3fff_ffff && h.cache_index <= 0x7fff,
            Err(e) => old(c)@.rev2_header(flags, compressed).0.err == Some(e),
        },
{
    if flags & CBR2_PERSISTENT_KEY_PRESENT != 0 {
        c.skip(8)?;
    }
    let width: usize = read_2byte(c)?;
    let height: usize = if flags & CBR2_HEIGHT_SAME_AS_WIDTH != 0 {
        width
    } else {
        read_2byte(c)?
    };
    let mut length: usize = read_4byte(c)?;
    let cache_index: usize = read_2byte(c)?;
    if compressed && (flags & CBR2_NO_BITMAP_COMPRESSION_HDR) == 0 {
        length = read_compressed_length(c)?;
    }
    Ok(Rev2Header { width: width as u16, height: height as u16, length, cache_index })
}

/// TS_CACHE_BITMAP_REV2_ORDER, MS-RDPEGDI 2.2.2.2.1.2.3. The server paints the
/// desktop as tiles cached with this order and blitted by MemBlt.
fn cache_bitmap_rev2(
    extra_flags: u16,
    payload: &[u8],
    compressed: bool,
    bitmaps: &mut BitmapCache,
) -> (r: Result<(), OrderError>)
    requires
        old(bitmaps)@.wf(),
    ensures
        final(bitmaps)@.wf(),
        r == as_result(bitmap_rev2(extra_flags, payload@, compressed, old(bitmaps)@).0),
        final(bitmaps)@ == bitmap_rev2(extra_flags, payload@, compressed, old(bitmaps)@).1,
{
    let cache_id: usize = (extra_flags & 0x0007) as usize;
    let bpp_id: u16 = (extra_flags >> 3) & 0x07;
    let mut c = Cursor::new(payload);
    let h = read_rev2_header(&mut c, extra_flags >> 7, compressed)?;
    proof {
        assert(0 <= h.width * h.height <= 0x7fff * 0x7fff) by (nonlinear_arith)
            requires
                0 <= h.width <= 0x7fff,
                0 <= h.height <= 0x7fff,
        ;
        assert(extra_flags & 0x0007 <= 7) by (bit_vector);
    }
    let area: u64 = h.width as u64 * h.height as u64;
    let bpp: u16 = if bpp_id == 3 {
        8
    } else if bpp_id == 4 {
        16
    } else if bpp_id == 5 {
        24
    } else if bpp_id == 6 {
        32
    } else if !compressed && area > 0 {
        (h.length as u64 * 8 / area) as u16
    } else {
        16
    };
    let depth: ColorDepth = match ColorDepth::from_bpp(bpp) {
        Some(d) => d,
        None => return Err(OrderError::Malformed("bad CBR2 bpp")),
    };
    let left: usize = c.remaining();
    let take: usize = if h.length <= left {
        h.length
    } else {
        left
    };
    let data: &[u8] = c.bytes(take)?;
    let bmp = bitmap::decode(data, h.width, h.height, depth, compressed, None)?;
    if h.cache_index == WAITING_LIST_INDEX {
        bitmaps.insert_waiting(cache_id, bmp);
    } else {
        bitmaps.insert(cache_id, h.cache_index, bmp);
    }
    Ok(())
}

/// TS_CACHE_COLOR_TABLE_ORDER, MS-RDPEGDI 2.2.2.2.1.2.4. Populates a palette
/// for 8 bpp sessions.
fn cache_color_table(payload: &[u8], palettes: &mut PaletteCache) -> (r: Result<(), OrderError>)
    ensures
        r == as_result(color_table(payload@, old(palettes)@).0),
        final(palettes)@ == color_table(payload@, old(palettes)@).1,
{
    let mut c = Cursor::new(payload);
    let cache_index: u8 = c.u8()?;
    let number_colors: u16 = c.u16()?;
    if number_colors != 256 {
        return Err(OrderError::Malformed("color table not 256 entries"));
    }
    let mut table: Palette = [[0u8; 4]; 256];
    let mut i: usize = 0;
    let ghost d0 = c@;
    while i < 256
        invariant
            i <= 256,
            d0.live(),
            d0.data == payload@,
            d0 == Reading::start(payload@).u8().0.u16().0,
            Reading::start(payload@).u8().0.u16().1 == 256,
            palettes@ == old(palettes)@,
            c@ == (Reading { pos: d0.pos + 4 * i, ..d0 }),
            c@.live(),
            forall|k: int|
                0 <= k < i ==> rgba(#[trigger] table[k]) == (
                    payload@[d0.pos + 4 * k + 2],
                    payload@[d0.pos + 4 * k + 1],
                    payload@[d0.pos + 4 * k],
                    0xffu8,
                ),
        decreases 256 - i,
    {
        let b: u8 = c.u8()?;
        let g: u8 = c.u8()?;
        let r: u8 = c.u8()?;
        let _pad: u8 = c.u8()?;
        table[i] = [r, g, b, 0xff];
        i = i + 1;
    }
    assert(colors(table) =~= color_table(payload@, old(palettes)@).1[cache_index as int]);
    palettes.insert(cache_index as usize, Box::new(table));
    Ok(())
}

} // verus!
