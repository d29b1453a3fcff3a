//! What the primary drawing orders leave on the canvas, pixel by pixel.

use crate::orders::canvas::{BitmapView, CanvasView, Rect};
use crate::orders::color::rgba;
use crate::orders::cursor::Reading;
use crate::orders::processor::ProcessorView;
use vstd::prelude::*;

verus! {

/// Whether the pixel lies in the box from `(left, top)` of the given size.
pub open spec fn in_box(x: int, y: int, left: int, top: int, w: int, h: int) -> bool {
    left <= x < left + w && top <= y < top + h
}

/// Whether a drawing into the box may touch the pixel: it is on the canvas, in the box,
/// and in the clip, if there is one.
pub open spec fn reachable(
    canvas: CanvasView,
    clip: Option<Rect>,
    x: int,
    y: int,
    left: int,
    top: int,
    w: int,
    h: int,
) -> bool {
    &&& in_box(x, y, 0, 0, canvas.width as int, canvas.height as int)
    &&& in_box(x, y, left, top, w, h)
    &&& match clip {
        Some(c) => in_box(x, y, c.x as int, c.y as int, c.w as int, c.h as int),
        None => true,
    }
}

/// The stored bytes of a pixel of a bitmap.
pub open spec fn tile_pixel(b: BitmapView, x: int, y: int) -> (u8, u8, u8) {
    let i = 4 * (y * b.width + x);
    (b.data[i], b.data[i + 1], b.data[i + 2])
}

/// A DstBlt blackens (0x00), whitens (0xFF) or inverts (0x55) the pixels of its box, and
/// no others.
pub proof fn law_dstblt_draws(
    s: ProcessorView,
    d: Reading,
    ff: u32,
    delta: bool,
    clip: Option<Rect>,
    x: int,
    y: int,
)
    requires
        s.dstblt.decoded(d, ff, delta).0.ok(),
    ensures
        ({
            let (e, o) = s.dstblt.decoded(d, ff, delta);
            let (e2, t, r) = s.render(d, 0x00, ff, delta, clip);
            let was = (s.canvas.at)(x, y);
            &&& e2 == e
            &&& t == (ProcessorView { dstblt: o, canvas: t.canvas, ..s })
            &&& (t.canvas.at)(x, y) == (if !reachable(
                s.canvas,
                clip,
                x,
                y,
                o.x as int,
                o.y as int,
                o.w as int,
                o.h as int,
            ) {
                was
            } else if o.rop == 0x00 {
                (0u8, 0u8, 0u8, 0xffu8)
            } else if o.rop == 0xFF {
                (0xffu8, 0xffu8, 0xffu8, 0xffu8)
            } else if o.rop == 0x55 {
                ((255 - was.0) as u8, (255 - was.1) as u8, (255 - was.2) as u8, 0xffu8)
            } else {
                was
            })
        }),
{
    reveal(ProcessorView::render);
    let c = (s.canvas.at)(x, y);
    lemma_inverted(c.0);
    lemma_inverted(c.1);
    lemma_inverted(c.2);
}

proof fn lemma_inverted(v: u8)
    ensures
        !v == 255 - v,
{
    assert(!v == 255 - v) by (bit_vector);
}

/// An OpaqueRect gives the pixels of its box its color, and no others.
pub proof fn law_opaque_rect_draws(
    s: ProcessorView,
    d: Reading,
    ff: u32,
    delta: bool,
    clip: Option<Rect>,
    x: int,
    y: int,
)
    requires
        s.opaque.decoded(d, ff, delta).0.ok(),
    ensures
        ({
            let (e, o) = s.opaque.decoded(d, ff, delta);
            let (e2, t, r) = s.render(d, 0x0A, ff, delta, clip);
            &&& e2 == e
            &&& t == (ProcessorView { opaque: o, canvas: t.canvas, ..s })
            &&& (t.canvas.at)(x, y) == (if reachable(
                s.canvas,
                clip,
                x,
                y,
                o.x as int,
                o.y as int,
                o.w as int,
                o.h as int,
            ) {
                (o.color[0], o.color[1], o.color[2], 0xffu8)
            } else {
                (s.canvas.at)(x, y)
            })
        }),
{
    reveal(ProcessorView::render);
}

/// A PatBlt fills its box with black (0x00), white (0xFF) or else its foreground color.
pub proof fn law_patblt_draws(
    s: ProcessorView,
    d: Reading,
    ff: u32,
    delta: bool,
    clip: Option<Rect>,
    x: int,
    y: int,
)
    requires
        s.patblt.decoded(d, ff, delta).0.ok(),
    ensures
        ({
            let (e, o) = s.patblt.decoded(d, ff, delta);
            let (e2, t, r) = s.render(d, 0x01, ff, delta, clip);
            &&& e2 == e
            &&& t == (ProcessorView { patblt: o, canvas: t.canvas, ..s })
            &&& (t.canvas.at)(x, y) == (if !reachable(
                s.canvas,
                clip,
                x,
                y,
                o.x as int,
                o.y as int,
                o.w as int,
                o.h as int,
            ) {
                (s.canvas.at)(x, y)
            } else if o.rop == 0x00 {
                (0u8, 0u8, 0u8, 0xffu8)
            } else if o.rop == 0xFF {
                (0xffu8, 0xffu8, 0xffu8, 0xffu8)
            } else {
                (o.fore_color[0], o.fore_color[1], o.fore_color[2], 0xffu8)
            })
        }),
{
    reveal(ProcessorView::render);
}

/// A ScrBlt moves what was on the canvas: each pixel of its box takes the color that
/// stood as far from the source corner as the pixel is from the box's. Where the source
/// is off the canvas nothing changes.
pub proof fn law_scrblt_draws(
    s: ProcessorView,
    d: Reading,
    ff: u32,
    delta: bool,
    clip: Option<Rect>,
    x: int,
    y: int,
)
    requires
        s.scrblt.decoded(d, ff, delta).0.ok(),
    ensures
        ({
            let (e, o) = s.scrblt.decoded(d, ff, delta);
            let (e2, t, r) = s.render(d, 0x02, ff, delta, clip);
            let (from_x, from_y) = (o.x_src + (x - o.x), o.y_src + (y - o.y));
            let from = (s.canvas.at)(from_x, from_y);
            &&& e2 == e
            &&& t == (ProcessorView { scrblt: o, canvas: t.canvas, ..s })
            &&& (t.canvas.at)(x, y) == (if reachable(
                s.canvas,
                clip,
                x,
                y,
                o.x as int,
                o.y as int,
                o.w as int,
                o.h as int,
            ) && in_box(
                from_x,
                from_y,
                0,
                0,
                s.canvas.width as int,
                s.canvas.height as int,
            ) {
                (from.0, from.1, from.2, 0xffu8)
            } else {
                (s.canvas.at)(x, y)
            })
        }),
{
    reveal(ProcessorView::render);
    let (e, o) = s.scrblt.decoded(d, ff, delta);
    assert(x - o.x + o.x_src == o.x_src + (x - o.x));
    assert(y - o.y + o.y_src == o.y_src + (y - o.y));
}

/// The bitmap that stands in a cell of a cache. The index 0x7FFF is the transient slot.
pub open spec fn cell_is(s: ProcessorView, cache: int, index: int, b: BitmapView) -> bool {
    if index == 0x7FFF {
        s.caches.bitmaps.waiting.dom().contains(cache) && s.caches.bitmaps.waiting[cache] == b
    } else {
        s.caches.bitmaps.cells.dom().contains((cache, index)) && s.caches.bitmaps.cells[(
            cache,
            index,
        )] == b
    }
}

/// A MemBlt paints a cached tile: the pixel `(x + i, y + j)` takes the color of the
/// tile's pixel `(x_src + i, y_src + j)`, where the tile has one. The cache is the low
/// byte of the cache id.
pub proof fn law_memblt_draws(
    s: ProcessorView,
    d: Reading,
    ff: u32,
    delta: bool,
    clip: Option<Rect>,
    b: BitmapView,
    x: int,
    y: int,
)
    requires
        s.memblt.decoded(d, ff, delta).0.ok(),
        cell_is(
            s,
            s.memblt.decoded(d, ff, delta).1.cache_id as int % 256,
            s.memblt.decoded(d, ff, delta).1.cache_index as int,
            b,
        ),
    ensures
        ({
            let (e, o) = s.memblt.decoded(d, ff, delta);
            let (e2, t, r) = s.render(d, 0x0D, ff, delta, clip);
            let (from_x, from_y) = (o.x_src + (x - o.x), o.y_src + (y - o.y));
            let from = tile_pixel(b, from_x, from_y);
            &&& e2 == e
            &&& t == (ProcessorView { memblt: o, canvas: t.canvas, ..s })
            &&& (t.canvas.at)(x, y) == (if reachable(
                s.canvas,
                clip,
                x,
                y,
                o.x as int,
                o.y as int,
                o.w as int,
                o.h as int,
            ) && in_box(from_x, from_y, 0, 0, b.width as int, b.height as int) {
                (from.0, from.1, from.2, 0xffu8)
            } else {
                (s.canvas.at)(x, y)
            })
        }),
{
    reveal(ProcessorView::render);
    let (e, o) = s.memblt.decoded(d, ff, delta);
    assert(x - o.x + o.x_src == o.x_src + (x - o.x));
    assert(y - o.y + o.y_src == o.y_src + (y - o.y));
}

/// A MemBlt of a tile that is not cached draws nothing.
pub proof fn law_memblt_without_tile(
    s: ProcessorView,
    d: Reading,
    ff: u32,
    delta: bool,
    clip: Option<Rect>,
)
    requires
        s.memblt.decoded(d, ff, delta).0.ok(),
        forall|b: BitmapView|
            !#[trigger] cell_is(
                s,
                s.memblt.decoded(d, ff, delta).1.cache_id as int % 256,
                s.memblt.decoded(d, ff, delta).1.cache_index as int,
                b,
            ),
    ensures
        s.render(d, 0x0D, ff, delta, clip).0.ok(),
        s.render(d, 0x0D, ff, delta, clip).1.canvas == s.canvas,
        s.render(d, 0x0D, ff, delta, clip).2.empty(),
{
    reveal(ProcessorView::render);
    let (e, o) = s.memblt.decoded(d, ff, delta);
    let key = (o.cache_id as int % 256, o.cache_index as int);
    assert(!cell_is(s, key.0, key.1, s.caches.bitmaps.cells[key]));
    assert(!cell_is(s, key.0, key.1, s.caches.bitmaps.waiting[key.0]));
}

/// A LineTo paints, in its pen color, the pixels between its two ends that its walk
/// comes to.
pub proof fn law_lineto_draws(
    s: ProcessorView,
    d: Reading,
    ff: u32,
    delta: bool,
    clip: Option<Rect>,
    x: int,
    y: int,
)
    requires
        s.lineto.decoded(d, ff, delta).0.ok(),
    ensures
        ({
            let (e, o) = s.lineto.decoded(d, ff, delta);
            let (e2, t, r) = s.render(d, 0x09, ff, delta, clip);
            let l = o.line();
            &&& e2 == e
            &&& t == (ProcessorView { lineto: o, canvas: t.canvas, ..s })
            &&& (l.x0, l.y0, l.x1, l.y1) == (
                o.x_start as int,
                o.y_start as int,
                o.x_end as int,
                o.y_end as int,
            )
            &&& (l.a, l.b) == (0int, 0int)
            &&& (t.canvas.at)(x, y) == (if l.passes(x, y) && reachable(
                s.canvas,
                clip,
                x,
                y,
                x,
                y,
                1,
                1,
            ) {
                (o.pen_color[0], o.pen_color[1], o.pen_color[2], 0xffu8)
            } else {
                (s.canvas.at)(x, y)
            })
        }),
{
    reveal(ProcessorView::render);
    let (e, o) = s.lineto.decoded(d, ff, delta);
    crate::orders::primary::law_line_paints_its_pixels(
        o.line(),
        s.canvas,
        clip,
        rgba(o.pen_color),
    );
    let after = o.line().drawn(s.canvas, clip, rgba(o.pen_color));
    assert((after.at)(x, y) == (after.at)(x, y));
}

} // verus!
