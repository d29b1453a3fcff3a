//! What the secondary orders put into the caches, byte for byte.

use crate::orders::bitmap::{law_decode_flips_rows, rle_expanded, source_pixel};
use crate::orders::cache::GlyphView;
use crate::orders::canvas::BitmapView;
use crate::orders::color::{ColorDepth, Rgba};
use crate::orders::cursor::Reading;
use crate::orders::layout::{lemma_signs, signed16, unsigned16};
use crate::orders::secondary::{applied, glyph_bytes, Caches, Rev2Header};
use vstd::prelude::*;

verus! {

/// The ways to write a number in one or two bytes: a first byte below 0x80 is the number;
/// else its lower seven bits are followed by eight more.
pub open spec fn short_number(b: Seq<u8>, n: int) -> bool {
    if b.len() == 1 {
        b[0] < 0x80 && n == b[0]
    } else {
        b.len() == 2 && b[0] >= 0x80 && n == (b[0] - 0x80) * 256 + b[1]
    }
}

/// The ways to write a number in one to four bytes: the top two bits of the first byte
/// count the others, and the highest bits stand first.
pub open spec fn long_number(b: Seq<u8>, n: int) -> bool {
    if b.len() == 1 {
        b[0] < 0x40 && n == b[0]
    } else if b.len() == 2 {
        0x40 <= b[0] < 0x80 && n == (b[0] - 0x40) * 0x100 + b[1]
    } else if b.len() == 3 {
        0x80 <= b[0] < 0xC0 && n == (b[0] - 0x80) * 0x10000 + b[1] * 0x100 + b[2]
    } else {
        b.len() == 4 && 0xC0 <= b[0] && n == (b[0] - 0xC0) * 0x1000000 + b[1] * 0x10000 + b[2]
            * 0x100 + b[3]
    }
}

/// Whether `part` stands at `i`.
pub open spec fn stands_at(b: Seq<u8>, i: int, part: Seq<u8>) -> bool {
    0 <= i && i + part.len() <= b.len() && forall|k: int|
        0 <= k < part.len() ==> #[trigger] b[i + k] == part[k]
}

/// Short numbers are read back.
pub proof fn law_short_numbers(d: Reading, b: Seq<u8>, n: int)
    requires
        d.live(),
        stands_at(d.data, d.pos, b),
        short_number(b, n),
    ensures
        d.var2() == (Reading { pos: d.pos + b.len(), ..d }, n),
{
    assert(d.data[d.pos + 0] == b[0]);
    if b.len() == 2 {
        assert(d.data[d.pos + 1] == b[1]);
    }
}

/// Long numbers are read back.
pub proof fn law_long_numbers(d: Reading, b: Seq<u8>, n: int)
    requires
        d.live(),
        stands_at(d.data, d.pos, b),
        long_number(b, n),
    ensures
        d.var4() == (Reading { pos: d.pos + b.len(), ..d }, n),
{
    reveal_with_fuel(Reading::more, 4);
    assert(d.data[d.pos + 0] == b[0]);
    if b.len() >= 2 {
        assert(d.data[d.pos + 1] == b[1]);
    }
    if b.len() >= 3 {
        assert(d.data[d.pos + 2] == b[2]);
    }
    if b.len() >= 4 {
        assert(d.data[d.pos + 3] == b[3]);
    }
}

/// The parts of a revision 2 header.
pub struct Rev2Parts {
    /// Eight bytes, or none.
    pub key: Seq<u8>,
    pub width: Seq<u8>,
    /// None when the height is the width.
    pub height: Seq<u8>,
    pub length: Seq<u8>,
    pub index: Seq<u8>,
    /// Eight bytes in front of compressed bits, or none.
    pub compression: Seq<u8>,
}

impl Rev2Parts {
    pub open spec fn bytes(self) -> Seq<u8> {
        self.key + self.width + self.height + self.length + self.index + self.compression
    }

    /// Whether the parts stand for those numbers under those flags: bit 0 leaves the
    /// height out, bit 1 announces a key, bit 3 leaves the compression header out. That
    /// header gives the length in its second number.
    pub open spec fn spells(
        self,
        flags: u16,
        compressed: bool,
        w: int,
        h: int,
        l: int,
        index: int,
    ) -> bool {
        &&& self.key.len() == (if flags / 2 % 2 == 1 {
            8int
        } else {
            0
        })
        &&& short_number(self.width, w)
        &&& if flags % 2 == 1 {
            self.height.len() == 0 && h == w
        } else {
            short_number(self.height, h)
        }
        &&& short_number(self.index, index)
        &&& if compressed && flags / 8 % 2 == 0 {
            &&& self.compression.len() == 8
            &&& l == unsigned16(self.compression, 2)
            &&& exists|n: int| #[trigger] long_number(self.length, n)
        } else {
            self.compression.len() == 0 && long_number(self.length, l)
        }
    }
}

proof fn lemma_flags(flags: u16, extra: u16)
    ensures
        (flags & 1 != 0) == (flags % 2 == 1),
        (flags & 2 != 0) == (flags / 2 % 2 == 1),
        (flags & 8 != 0) == (flags / 8 % 2 == 1),
        extra >> 7 == extra / 128,
        (extra >> 3) & 7 == extra / 8 % 8,
        extra & 7 == extra % 8,
        (extra & 0x400 != 0) == (extra / 0x400 % 2 == 1),
{
    assert((flags & 1 != 0) == (flags % 2 == 1) && (flags & 2 != 0) == (flags / 2 % 2 == 1) && (
    flags & 8 != 0) == (flags / 8 % 2 == 1) && extra >> 7 == extra / 128 && (extra >> 3) & 7
        == extra / 8 % 8 && extra & 7 == extra % 8 && (extra & 0x400 != 0) == (extra / 0x400 % 2
        == 1)) by (bit_vector);
}

proof fn lemma_short_range(b: Seq<u8>, n: int)
    requires
        short_number(b, n),
    ensures
        0 <= n < 0x8000,
        1 <= b.len() <= 2,
{
}

proof fn lemma_long_range(b: Seq<u8>, n: int)
    requires
        long_number(b, n),
    ensures
        0 <= n < 0x40000000,
        1 <= b.len() <= 4,
{
}

/// A revision 2 header gives the numbers that it spells, the width before the height, and
/// ends behind its parts.
pub proof fn law_rev2_header_layout(
    p: Rev2Parts,
    rest: Seq<u8>,
    flags: u16,
    compressed: bool,
    w: int,
    h: int,
    l: int,
    index: int,
)
    requires
        p.spells(flags, compressed, w, h, l, index),
        p.bytes().len() + rest.len() <= usize::MAX,
    ensures
        ({
            let (d, r) = Reading::start(p.bytes() + rest).rev2_header(flags, compressed);
            &&& d == (Reading { data: p.bytes() + rest, pos: p.bytes().len() as int, err: None })
            &&& r.width == w
            &&& r.height == h
            &&& r.length == l
            &&& r.cache_index == index
        }),
{
    lemma_flags(flags, 0);
    let data = p.bytes() + rest;
    let d0 = Reading::start(data);
    let d1 = Reading { pos: p.key.len() as int, ..d0 };
    assert(d1 == (if flags & 2 != 0 {
        d0.skip(8)
    } else {
        d0
    }));
    assert(stands_at(data, d1.pos, p.width));
    law_short_numbers(d1, p.width, w);
    lemma_short_range(p.width, w);
    let d2 = Reading { pos: d1.pos + p.width.len(), ..d1 };
    let d3 = Reading { pos: d2.pos + p.height.len(), ..d2 };
    if flags % 2 == 1 {
        assert(d3 == d2);
    } else {
        assert(stands_at(data, d2.pos, p.height));
        law_short_numbers(d2, p.height, h);
        lemma_short_range(p.height, h);
    }
    let n = if compressed && flags / 8 % 2 == 0 {
        choose|n: int| #[trigger] long_number(p.length, n)
    } else {
        l
    };
    assert(stands_at(data, d3.pos, p.length));
    law_long_numbers(d3, p.length, n);
    lemma_long_range(p.length, n);
    let d4 = Reading { pos: d3.pos + p.length.len(), ..d3 };
    assert(stands_at(data, d4.pos, p.index));
    law_short_numbers(d4, p.index, index);
    lemma_short_range(p.index, index);
    let d5 = Reading { pos: d4.pos + p.index.len(), ..d4 };
    if compressed && flags / 8 % 2 == 0 {
        assert(data[d5.pos + 2] == p.compression[2]);
        assert(data[d5.pos + 3] == p.compression[3]);
    }
}

/// Whether a color has the red, green and blue of a pixel of `bpp` bits at `at`. A number
/// holds blue lowest; narrow parts keep their bits on top, with their highest ones
/// repeated below. Eight bits are a gray.
pub open spec fn shows(c: Rgba, bpp: int, b: Seq<u8>, at: int) -> bool {
    let n = unsigned16(b, at);
    &&& c.3 == 0xff
    &&& if bpp == 8 {
        c.0 == b[at] && c.1 == b[at] && c.2 == b[at]
    } else if bpp == 15 {
        &&& c.0 / 8 == n / 1024 % 32 && c.0 % 8 == n / 4096 % 8
        &&& c.1 / 8 == n / 32 % 32 && c.1 % 8 == n / 128 % 8
        &&& c.2 / 8 == n % 32 && c.2 % 8 == n / 4 % 8
    } else if bpp == 16 {
        &&& c.0 / 8 == n / 2048 && c.0 % 8 == n / 8192
        &&& c.1 / 4 == n / 32 % 64 && c.1 % 4 == n / 512 % 4
        &&& c.2 / 8 == n % 32 && c.2 % 8 == n / 4 % 8
    } else {
        c.0 == b[at + 2] && c.1 == b[at + 1] && c.2 == b[at]
    }
}

proof fn lemma_narrow15(n: u16)
    ensures
        ({
            let c = crate::orders::color::rgb555_of(n);
            &&& c.0 / 8 == n / 1024 % 32 && c.0 % 8 == n / 4096 % 8
            &&& c.1 / 8 == n / 32 % 32 && c.1 % 8 == n / 128 % 8
            &&& c.2 / 8 == n % 32 && c.2 % 8 == n / 4 % 8
        }),
{
    assert(n / 1024 % 32 / 4 == n / 4096 % 8 && n / 32 % 32 / 4 == n / 128 % 8 && n % 32 / 4 == n
        / 4 % 8) by (bit_vector);
    lemma_spread5(n / 1024 % 32);
    lemma_spread5(n / 32 % 32);
    lemma_spread5(n % 32);
}

proof fn lemma_narrow16(n: u16)
    ensures
        ({
            let c = crate::orders::color::rgb565_of(n);
            &&& c.0 / 8 == n / 2048 && c.0 % 8 == n / 8192
            &&& c.1 / 4 == n / 32 % 64 && c.1 % 4 == n / 512 % 4
            &&& c.2 / 8 == n % 32 && c.2 % 8 == n / 4 % 8
        }),
{
    assert(n / 2048 / 4 == n / 8192 && n / 32 % 64 / 16 == n / 512 % 4 && n % 32 / 4 == n / 4 % 8
        && n / 2048 < 32) by (bit_vector);
    lemma_spread5(n / 2048);
    lemma_spread5(n % 32);
    let v = n / 32 % 64;
    assert(v < 64);
    assert((4 * v + v / 16) / 4 == v && (4 * v + v / 16) % 4 == v / 16);
}

proof fn lemma_spread5(v: u16)
    requires
        v < 32,
    ensures
        crate::orders::color::wide5(v as int) as u8 / 8 == v,
        crate::orders::color::wide5(v as int) as u8 % 8 == v / 4,
{
    assert((8 * v + v / 4) / 8 == v && (8 * v + v / 4) % 8 == v / 4);
}

/// Colors of each depth are read from the bytes of a pixel.
pub proof fn law_colors(depth: ColorDepth, b: Seq<u8>)
    requires
        b.len() >= depth.bytes(),
    ensures
        shows(
            depth.color(b, None),
            match depth {
                ColorDepth::Bpp8 => 8,
                ColorDepth::Bpp15 => 15,
                ColorDepth::Bpp16 => 16,
                ColorDepth::Bpp24 => 24,
                ColorDepth::Bpp32 => 32,
            },
            b,
            0,
        ),
{
    match depth {
        ColorDepth::Bpp15 => lemma_narrow15(crate::wire::le16(b[0], b[1])),
        ColorDepth::Bpp16 => lemma_narrow16(crate::wire::le16(b[0], b[1])),
        _ => {},
    }
}

/// With a palette, an eight-bit pixel has the color of its entry.
pub proof fn law_palette_colors(b: Seq<u8>, palette: crate::orders::color::Palette)
    requires
        b.len() >= 1,
    ensures
        ({
            let e = palette[b[0] as int];
            ColorDepth::Bpp8.color(b, Some(palette)) == (e[0], e[1], e[2], e[3])
        }),
{
}

/// How many bytes a pixel of `bpp` bits takes.
pub open spec fn pixel_size(bpp: int) -> int {
    if bpp == 8 {
        1
    } else if bpp == 15 || bpp == 16 {
        2
    } else if bpp == 24 {
        3
    } else {
        4
    }
}

/// Whether a bitmap is `w` by `h` pixels and shows the bottom-up rows of `raw`.
pub open spec fn tile_of(t: BitmapView, w: int, h: int, bpp: int, raw: Seq<u8>) -> bool {
    &&& t.width == w
    &&& t.height == h
    &&& forall|i: int, j: int|
        0 <= i < w && 0 <= j < h ==> (#[trigger] t.pixel(i, j)) is Some && shows(
            t.pixel(i, j)->0,
            bpp,
            raw,
            ((h - 1 - j) * w + i) * pixel_size(bpp),
        )
}

/// The pixel bytes that tile data stand for: themselves, or what they expand to.
pub open spec fn tile_bytes(
    data: Seq<u8>,
    compressed: bool,
    w: int,
    h: int,
    bpp: int,
    raw: Seq<u8>,
) -> bool {
    &&& raw.len() >= w * h * pixel_size(bpp)
    &&& if compressed && bpp != 32 {
        rle_expanded(data, w, h, bpp) == Some(raw)
    } else {
        data == raw
    }
}

proof fn lemma_tile(
    data: Seq<u8>,
    compressed: bool,
    w: u16,
    h: u16,
    depth: ColorDepth,
    raw: Seq<u8>,
)
    requires
        1 <= w <= 4096,
        1 <= h <= 4096,
        tile_bytes(data, compressed, w as int, h as int, depth.bits(), raw),
    ensures
        crate::orders::bitmap::decoded(data, w, h, depth, compressed, None) is Ok,
        tile_of(
            crate::orders::bitmap::decoded(data, w, h, depth, compressed, None)->Ok_0,
            w as int,
            h as int,
            depth.bits(),
            raw,
        ),
{
    let n = depth.bytes();
    assert(w * n * h == w * h * n) by (nonlinear_arith);
    assert(n == pixel_size(depth.bits()));
    let t = crate::orders::bitmap::decoded(data, w, h, depth, compressed, None)->Ok_0;
    assert forall|i: int, j: int| 0 <= i < w && 0 <= j < h implies (#[trigger] t.pixel(i, j))
        is Some && shows(
        t.pixel(i, j)->0,
        depth.bits(),
        raw,
        ((h - 1 - j) * w + i) * pixel_size(depth.bits()),
    ) by {
        law_decode_flips_rows(raw, w, h, depth, None, i, j);
        let at = ((h - 1 - j) * w + i) * n;
        let b = source_pixel(raw, w as int, h as int, depth, i, j);
        assert(0 <= (h - 1 - j) * w + i < w * h) by (nonlinear_arith)
            requires
                0 <= i < w,
                0 <= j < h,
        ;
        assert(0 <= at && at + n <= w * h * n) by (nonlinear_arith)
            requires
                at == ((h - 1 - j) * w + i) * n,
                0 <= (h - 1 - j) * w + i < w * h,
                1 <= n,
        ;
        assert(b.len() == n);
        assert forall|k: int| 0 <= k < n implies b[k] == raw[at + k] by {}
        law_colors(depth, b);
        assert(b[0] == raw[at + 0]);
        if n >= 2 {
            assert(b[1] == raw[at + 1]);
        }
        if n >= 3 {
            assert(b[2] == raw[at + 2]);
        }
    }
}

/// Whether a cache holds `t` in a cell, and otherwise what it held. The index 0x7FFF is the
/// transient slot.
pub open spec fn only_cell_changed(a: Caches, b: Caches, cache: int, index: int, t: BitmapView) -> bool {
    &&& b.palettes == a.palettes
    &&& b.glyphs == a.glyphs
    &&& if index == 0x7FFF {
        &&& b.bitmaps.cells == a.bitmaps.cells
        &&& b.bitmaps.waiting == a.bitmaps.waiting.insert(cache, t)
    } else {
        &&& b.bitmaps.waiting == a.bitmaps.waiting
        &&& b.bitmaps.cells == a.bitmaps.cells.insert((cache, index), t)
    }
}

/// What a revision 2 bitmap order does.
#[verifier::opaque]
spec fn rev2_after(compressed: bool, extra: u16, payload: Seq<u8>, s: Caches) -> (
    Option<crate::orders::error::OrderError>,
    Caches,
) {
    applied(
        if compressed {
            5
        } else {
            4
        },
        extra,
        payload,
        s,
    )
}

proof fn lemma_rev2_tile(
    s: Caches,
    compressed: bool,
    extra: u16,
    p: Rev2Parts,
    rest: Seq<u8>,
    w: int,
    h: int,
    l: int,
    index: int,
    bpp: int,
    raw: Seq<u8>,
)
    requires
        p.spells((extra / 128) as u16, compressed, w, h, l, index),
        p.bytes().len() + rest.len() <= usize::MAX,
        1 <= w <= 4096,
        1 <= h <= 4096,
        ({
            let id = extra as int / 8 % 8;
            if 3 <= id <= 6 {
                bpp == (if id == 3 {
                    8int
                } else {
                    8 * (id - 2)
                })
            } else if compressed {
                bpp == 16
            } else {
                bpp == l * 8 / (w * h) && (bpp == 8 || bpp == 15 || bpp == 16 || bpp == 24 || bpp
                    == 32)
            }
        }),
        tile_bytes(
            if l <= rest.len() {
                rest.take(l)
            } else {
                rest
            },
            compressed,
            w,
            h,
            bpp,
            raw,
        ),
    ensures
        ({
            let (err, t) = rev2_after(compressed, extra, p.bytes() + rest, s);
            let cache = extra as int % 8;
            let tile = if index == 0x7FFF {
                t.bitmaps.waiting[cache]
            } else {
                t.bitmaps.cells[(cache, index)]
            };
            &&& err is None
            &&& tile_of(tile, w, h, bpp, raw)
            &&& only_cell_changed(s, t, cache, index, tile)
        }),
{
    let flags = (extra / 128) as u16;
    lemma_flags(flags, extra);
    law_rev2_header_layout(p, rest, flags, compressed, w, h, l, index);
    let payload = p.bytes() + rest;
    let (d, r) = Reading::start(payload).rev2_header(flags, compressed);
    assert(1 <= w * h) by (nonlinear_arith)
        requires
            1 <= w,
            1 <= h,
    ;
    assert(l >= 0) by {
        if !(compressed && flags / 8 % 2 == 0) {
            lemma_long_range(p.length, l);
        }
    }
    let data = if l <= rest.len() {
        rest.take(l)
    } else {
        rest
    };
    let n = crate::orders::canvas::min(l, rest.len() as int);
    assert(d.bytes(n).1 =~= data);
    lemma_rev2_bpp(extra, compressed, r, bpp);
    let depth = ColorDepth::of_bits(bpp)->0;
    lemma_tile(data, compressed, r.width, r.height, depth, raw);
    let b = crate::orders::bitmap::decoded(data, r.width, r.height, depth, compressed, None)->Ok_0;
    lemma_rev2_cached(s, extra, payload, compressed, d, r, bpp, data, b);
}

/// A revision 2 bitmap order (type 4, or 5 for compressed bits) caches a tile. The cache is
/// in the low three bits of the flags; the next three give the depth, 3 to 6 for 8, 16, 24
/// and 32 bits; without one, it follows from the number of bytes, or is 16 for compressed
/// bits. The header flags start at bit 7.
pub proof fn law_rev2_orders_cache_tiles(
    s: Caches,
    compressed: bool,
    extra: u16,
    p: Rev2Parts,
    rest: Seq<u8>,
    w: int,
    h: int,
    l: int,
    index: int,
    bpp: int,
    raw: Seq<u8>,
)
    requires
        p.spells((extra / 128) as u16, compressed, w, h, l, index),
        p.bytes().len() + rest.len() <= usize::MAX,
        1 <= w <= 4096,
        1 <= h <= 4096,
        ({
            let id = extra as int / 8 % 8;
            if 3 <= id <= 6 {
                bpp == (if id == 3 {
                    8int
                } else {
                    8 * (id - 2)
                })
            } else if compressed {
                bpp == 16
            } else {
                bpp == l * 8 / (w * h) && (bpp == 8 || bpp == 15 || bpp == 16 || bpp == 24 || bpp
                    == 32)
            }
        }),
        tile_bytes(
            if l <= rest.len() {
                rest.take(l)
            } else {
                rest
            },
            compressed,
            w,
            h,
            bpp,
            raw,
        ),
    ensures
        ({
            let (err, t) = applied(
                if compressed {
                    5
                } else {
                    4
                },
                extra,
                p.bytes() + rest,
                s,
            );
            let cache = extra as int % 8;
            let tile = if index == 0x7FFF {
                t.bitmaps.waiting[cache]
            } else {
                t.bitmaps.cells[(cache, index)]
            };
            &&& err is None
            &&& tile_of(tile, w, h, bpp, raw)
            &&& only_cell_changed(s, t, cache, index, tile)
        }),
{
    lemma_rev2_tile(s, compressed, extra, p, rest, w, h, l, index, bpp, raw);
    reveal(rev2_after);
}

proof fn lemma_rev2_bpp(extra: u16, compressed: bool, r: Rev2Header, bpp: int)
    requires
        1 <= r.width,
        1 <= r.height,
        ({
            let id = extra as int / 8 % 8;
            if 3 <= id <= 6 {
                bpp == (if id == 3 {
                    8int
                } else {
                    8 * (id - 2)
                })
            } else if compressed {
                bpp == 16
            } else {
                bpp == r.length * 8 / (r.width * r.height) && 8 <= bpp <= 32
            }
        }),
    ensures
        crate::orders::secondary::rev2_bpp(extra, compressed, r) == bpp,
{
    lemma_flags(0, extra);
    assert(1 <= r.width * r.height) by (nonlinear_arith)
        requires
            1 <= r.width,
            1 <= r.height,
    ;
}

proof fn lemma_rev2_cached(
    s: Caches,
    extra: u16,
    payload: Seq<u8>,
    compressed: bool,
    d: Reading,
    r: Rev2Header,
    bpp: int,
    data: Seq<u8>,
    b: BitmapView,
)
    requires
        (d, r) == Reading::start(payload).rev2_header(extra >> 7, compressed),
        d.ok(),
        crate::orders::secondary::rev2_bpp(extra, compressed, r) == bpp,
        ColorDepth::of_bits(bpp) is Some,
        data == d.bytes(crate::orders::canvas::min(r.length as int, d.remaining())).1,
        crate::orders::bitmap::decoded(
            data,
            r.width,
            r.height,
            ColorDepth::of_bits(bpp)->0,
            compressed,
            None,
        ) == Ok::<BitmapView, crate::orders::error::OrderError>(b),
    ensures
        ({
            let (err, t) = rev2_after(compressed, extra, payload, s);
            err is None && only_cell_changed(s, t, extra as int % 8, r.cache_index as int, b)
        }),
{
    reveal(rev2_after);
    lemma_flags(0, extra);
}

/// A revision 1 bitmap order (type 0, or 2 for compressed bits) caches a tile. Its header
/// holds the cache, a pad byte, the width, the height and the depth in a byte each, then
/// the length and the index in two. Compressed bits have a header of their own, which
/// gives the length, unless bit 10 of the flags is set.
pub proof fn law_rev1_orders_cache_tiles(
    s: Caches,
    compressed: bool,
    extra: u16,
    head: Seq<u8>,
    compression: Seq<u8>,
    data: Seq<u8>,
    rest: Seq<u8>,
    raw: Seq<u8>,
)
    requires
        head.len() == 9,
        compression.len() == (if compressed && extra / 0x400 % 2 == 0 {
            8int
        } else {
            0
        }),
        head.len() + compression.len() + data.len() + rest.len() <= usize::MAX,
        data.len() == (if compressed && extra / 0x400 % 2 == 0 {
            unsigned16(compression, 2)
        } else {
            unsigned16(head, 5)
        }),
        head[2] > 0,
        head[3] > 0,
        head[4] == 8 || head[4] == 15 || head[4] == 16 || head[4] == 24 || head[4] == 32,
        tile_bytes(data, compressed, head[2] as int, head[3] as int, head[4] as int, raw),
    ensures
        ({
            let (err, t) = applied(
                if compressed {
                    2
                } else {
                    0
                },
                extra,
                head + compression + data + rest,
                s,
            );
            let key = (head[0] as int, unsigned16(head, 7));
            let tile = t.bitmaps.cells[key];
            &&& err is None
            &&& tile_of(tile, head[2] as int, head[3] as int, head[4] as int, raw)
            &&& t.palettes == s.palettes
            &&& t.glyphs == s.glyphs
            &&& t.bitmaps.waiting == s.bitmaps.waiting
            &&& t.bitmaps.cells == s.bitmaps.cells.insert(key, tile)
        }),
{
    lemma_flags(0, extra);
    let payload = head + compression + data + rest;
    assert forall|k: int| 0 <= k < 9 implies payload[k] == head[k] by {}
    let start = 9 + compression.len() as int;
    if compression.len() == 8 {
        assert(payload[11] == compression[2]);
        assert(payload[12] == compression[3]);
    }
    assert(payload.subrange(start, start + data.len()) =~= data);
    let depth = ColorDepth::of_bits(head[4] as int)->0;
    lemma_tile(data, compressed, head[2] as u16, head[3] as u16, depth, raw);
    let b = crate::orders::bitmap::decoded(
        data,
        head[2] as u16,
        head[3] as u16,
        depth,
        compressed,
        None,
    )->Ok_0;
    let t = applied(
        if compressed {
            2
        } else {
            0
        },
        extra,
        payload,
        s,
    ).1;
    assert(t.bitmaps.cells =~= s.bitmaps.cells.insert(
        (head[0] as int, unsigned16(head, 7)),
        b,
    ));
}

/// A bitmap order that is refused leaves all caches alone.
pub proof fn law_refused_tiles_leave_the_caches(order_type: u8, extra: u16, payload: Seq<u8>, s: Caches)
    requires
        order_type == 0 || order_type == 2 || order_type == 4 || order_type == 5,
        applied(order_type, extra, payload, s).0 is Some,
    ensures
        applied(order_type, extra, payload, s).1 == s,
{
    assert(applied(order_type, extra, payload, s).1 =~= s);
}

/// A color table order (type 1) holds the table's number, the count 256 and the entries,
/// each blue, green, red and a pad byte.
pub proof fn law_color_tables(s: Caches, extra: u16, payload: Seq<u8>, i: int)
    requires
        3 + 4 * 256 <= payload.len() <= usize::MAX,
        payload[1] == 0,
        payload[2] == 1,
        0 <= i < 256,
    ensures
        ({
            let (err, t) = applied(1, extra, payload, s);
            let table = t.palettes[payload[0] as int];
            &&& err is None
            &&& t.bitmaps == s.bitmaps
            &&& t.glyphs == s.glyphs
            &&& t.palettes == s.palettes.insert(payload[0] as int, table)
            &&& table.len() == 256
            &&& table[i] == (
                payload[3 + 4 * i + 2],
                payload[3 + 4 * i + 1],
                payload[3 + 4 * i],
                0xffu8,
            )
        }),
{
    let t = applied(1, extra, payload, s).1;
    assert(t.palettes =~= s.palettes.insert(payload[0] as int, t.palettes[payload[0] as int]));
}

/// A color table order with another count, or with entries that are cut off, is refused.
pub proof fn law_bad_color_tables(s: Caches, extra: u16, payload: Seq<u8>)
    requires
        payload.len() <= usize::MAX,
        payload.len() < 3 + 4 * 256 || unsigned16(payload, 1) != 256,
    ensures
        applied(1, extra, payload, s).0 is Some,
        applied(1, extra, payload, s).1 == s,
{
    assert(applied(1, extra, payload, s).1 =~= s);
}

/// A glyph on the wire: index, offsets, size, then rows of whole bytes, filled up to a
/// multiple of four.
pub open spec fn wire_glyph(b: Seq<u8>, index: int, g: GlyphView) -> bool {
    let size = (g.cx as int + 7) / 8 * g.cy;
    &&& b.len() == 10 + g.aj.len()
    &&& unsigned16(b, 0) == index
    &&& signed16(b, 2) == g.x
    &&& signed16(b, 4) == g.y
    &&& unsigned16(b, 6) == g.cx
    &&& unsigned16(b, 8) == g.cy
    &&& b.skip(10) == g.aj
    &&& g.aj.len() % 4 == 0
    &&& size <= g.aj.len() < size + 4
}

/// The bytes of glyphs in a row.
pub open spec fn joined(parts: Seq<Seq<u8>>) -> Seq<u8>
    decreases parts.len(),
{
    if parts.len() == 0 {
        Seq::empty()
    } else {
        parts[0] + joined(parts.skip(1))
    }
}

/// Cells after glyphs went into a cache, one after the other.
pub open spec fn with_glyphs(
    cells: Map<(int, int), GlyphView>,
    cache: int,
    indexes: Seq<int>,
    glyphs: Seq<GlyphView>,
) -> Map<(int, int), GlyphView>
    decreases glyphs.len(),
{
    if glyphs.len() == 0 {
        cells
    } else {
        with_glyphs(
            cells.insert((cache, indexes[0]), glyphs[0]),
            cache,
            indexes.skip(1),
            glyphs.skip(1),
        )
    }
}

proof fn lemma_one_glyph(d: Reading, b: Seq<u8>, index: int, g: GlyphView)
    requires
        d.live(),
        stands_at(d.data, d.pos, b),
        wire_glyph(b, index, g),
    ensures
        d.glyph() == (Reading { pos: d.pos + b.len(), ..d }, index, g),
{
    assert forall|k: int| 0 <= k < 10 implies d.data[d.pos + k] == b[k] by {}
    assert(d.data[d.pos + 0] == b[0] && d.data[d.pos + 1] == b[1] && d.data[d.pos + 2] == b[2]
        && d.data[d.pos + 3] == b[3] && d.data[d.pos + 4] == b[4] && d.data[d.pos + 5] == b[5]
        && d.data[d.pos + 6] == b[6] && d.data[d.pos + 7] == b[7] && d.data[d.pos + 8] == b[8]
        && d.data[d.pos + 9] == b[9]);
    lemma_signs(crate::wire::le16(b[2], b[3]), 0);
    lemma_signs(crate::wire::le16(b[4], b[5]), 0);
    assert(glyph_bytes(g.cx, g.cy) == g.aj.len());
    assert(d.data.subrange(d.pos + 10, d.pos + 10 + g.aj.len()) =~= g.aj) by {
        assert forall|k: int| 0 <= k < g.aj.len() implies d.data[d.pos + 10 + k] == g.aj[k] by {
            assert(g.aj[k] == b[10 + k]);
            assert(d.data[d.pos + (10 + k)] == b[10 + k]);
        }
    }
    assert(d.glyph().2 =~= g);
}

proof fn lemma_glyphs(
    d: Reading,
    cache: int,
    c: crate::orders::cache::GlyphCacheView,
    parts: Seq<Seq<u8>>,
    indexes: Seq<int>,
    glyphs: Seq<GlyphView>,
)
    requires
        d.live(),
        stands_at(d.data, d.pos, joined(parts)),
        parts.len() == indexes.len() == glyphs.len(),
        forall|k: int|
            0 <= k < parts.len() ==> wire_glyph(#[trigger] parts[k], indexes[k], glyphs[k]),
    ensures
        ({
            let (e, t) = d.glyphs(cache, parts.len(), c);
            &&& e.ok()
            &&& t.cells == with_glyphs(c.cells, cache, indexes, glyphs)
            &&& t.fragments == c.fragments
        }),
    decreases parts.len(),
{
    if parts.len() > 0 {
        let b = parts[0];
        let tail = joined(parts.skip(1));
        let whole = joined(parts);
        assert(whole == b + tail);
        assert(stands_at(d.data, d.pos, b)) by {
            assert forall|k: int| 0 <= k < b.len() implies #[trigger] d.data[d.pos + k] == b[k] by {
                assert(whole[k] == b[k]);
            }
        }
        lemma_one_glyph(d, b, indexes[0], glyphs[0]);
        let e = Reading { pos: d.pos + b.len(), ..d };
        assert(stands_at(e.data, e.pos, tail)) by {
            assert forall|k: int| 0 <= k < tail.len() implies #[trigger] e.data[e.pos + k]
                == tail[k] by {
                assert(whole[b.len() + k] == tail[k]);
                assert(d.data[d.pos + (b.len() + k)] == whole[b.len() + k]);
            }
        }
        assert forall|k: int| 0 <= k < parts.skip(1).len() implies wire_glyph(
            #[trigger] parts.skip(1)[k],
            indexes.skip(1)[k],
            glyphs.skip(1)[k],
        ) by {
            assert(parts.skip(1)[k] == parts[k + 1]);
        }
        lemma_glyphs(
            e,
            cache,
            c.insert(cache, indexes[0], glyphs[0]),
            parts.skip(1),
            indexes.skip(1),
            glyphs.skip(1),
        );
    }
}

/// A glyph order (type 3) holds the cache, the count and the glyphs, which go into the
/// cache one after the other.
pub proof fn law_glyph_orders(
    s: Caches,
    extra: u16,
    cache: u8,
    parts: Seq<Seq<u8>>,
    indexes: Seq<int>,
    glyphs: Seq<GlyphView>,
    rest: Seq<u8>,
)
    requires
        2 + joined(parts).len() + rest.len() <= usize::MAX,
        parts.len() == indexes.len() == glyphs.len() < 256,
        forall|k: int|
            0 <= k < parts.len() ==> wire_glyph(#[trigger] parts[k], indexes[k], glyphs[k]),
    ensures
        ({
            let (err, t) = applied(
                3,
                extra,
                seq![cache, parts.len() as u8] + joined(parts) + rest,
                s,
            );
            &&& err is None
            &&& t.bitmaps == s.bitmaps
            &&& t.palettes == s.palettes
            &&& t.glyphs.fragments == s.glyphs.fragments
            &&& t.glyphs.cells == with_glyphs(s.glyphs.cells, cache as int, indexes, glyphs)
        }),
{
    let payload = seq![cache, parts.len() as u8] + joined(parts) + rest;
    let d = Reading { data: payload, pos: 2, err: None };
    assert(stands_at(payload, 2, joined(parts)));
    assert(payload[0] == cache && payload[1] == parts.len());
    lemma_glyphs(d, cache as int, s.glyphs, parts, indexes, glyphs);
}

/// Brush orders (type 7) and revision 3 bitmaps (type 8) are passed over; other types that
/// are not known are an error. Neither changes a cache.
pub proof fn law_other_secondary_orders(s: Caches, order_type: u8, extra: u16, payload: Seq<u8>)
    requires
        order_type > 5,
    ensures
        applied(order_type, extra, payload, s).1 == s,
        applied(order_type, extra, payload, s).0 is None <==> order_type == 7 || order_type == 8,
{
}

} // verus!
