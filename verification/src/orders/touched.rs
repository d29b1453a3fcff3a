//! Which boxes orders report, what a fresh state holds, and how readings fail.

use crate::orders::cache::GlyphView;
use crate::orders::canvas::{BitmapView, CanvasView, Rect};
use crate::orders::color::ColorDepth;
use crate::orders::cursor::Reading;
use crate::orders::effects::{cell_is, reachable};
use crate::orders::error::OrderError;
use crate::orders::glyph::{glyph_delta, text_drawn, Pen, Run};
use crate::orders::processor::ProcessorView;
use crate::orders::runs::{
    advance_bytes, behind_text, drawable, pen_at, run_bytes, step, Placed,
};
use crate::orders::stream::law_clip_is_what_is_shared;
use vstd::prelude::*;

verus! {

/// Whether a box is of a size that orders can have.
pub open spec fn moderate(x: int, y: int, w: int, h: int) -> bool {
    0 <= w && 0 <= h && -0x3fff_ffff <= x && x + w <= 0x3fff_ffff && -0x3fff_ffff <= y && y + h
        <= 0x3fff_ffff
}

/// Whether the clip, if there is one, is such a box.
pub open spec fn moderate_clip(clip: Option<Rect>) -> bool {
    clip matches Some(b) ==> moderate(b.x as int, b.y as int, b.w as int, b.h as int)
}

/// Filling and copying orders report the part of their box that lies on the canvas and in
/// the clip.
pub proof fn law_reported_boxes(
    s: ProcessorView,
    d: Reading,
    ff: u32,
    delta: bool,
    clip: Option<Rect>,
    x: int,
    y: int,
)
    requires
        moderate_clip(clip),
    ensures
        ({
            let (e, o) = s.dstblt.decoded(d, ff, delta);
            let r = s.render(d, 0x00, ff, delta, clip).2;
            e.ok() && moderate(o.x as int, o.y as int, o.w as int, o.h as int) ==> (r.contains(x, y)
                <==> reachable(
                s.canvas,
                clip,
                x,
                y,
                o.x as int,
                o.y as int,
                o.w as int,
                o.h as int,
            ))
        }),
        ({
            let (e, o) = s.opaque.decoded(d, ff, delta);
            let r = s.render(d, 0x0A, ff, delta, clip).2;
            e.ok() && moderate(o.x as int, o.y as int, o.w as int, o.h as int) ==> (r.contains(x, y)
                <==> reachable(
                s.canvas,
                clip,
                x,
                y,
                o.x as int,
                o.y as int,
                o.w as int,
                o.h as int,
            ))
        }),
        ({
            let (e, o) = s.patblt.decoded(d, ff, delta);
            let r = s.render(d, 0x01, ff, delta, clip).2;
            e.ok() && moderate(o.x as int, o.y as int, o.w as int, o.h as int) ==> (r.contains(x, y)
                <==> reachable(
                s.canvas,
                clip,
                x,
                y,
                o.x as int,
                o.y as int,
                o.w as int,
                o.h as int,
            ))
        }),
        ({
            let (e, o) = s.scrblt.decoded(d, ff, delta);
            let r = s.render(d, 0x02, ff, delta, clip).2;
            e.ok() && moderate(o.x as int, o.y as int, o.w as int, o.h as int) ==> (r.contains(x, y)
                <==> reachable(
                s.canvas,
                clip,
                x,
                y,
                o.x as int,
                o.y as int,
                o.w as int,
                o.h as int,
            ))
        }),
{
    reveal(ProcessorView::render);
    let a = s.dstblt.decoded(d, ff, delta).1;
    let b = s.opaque.decoded(d, ff, delta).1;
    let p = s.patblt.decoded(d, ff, delta).1;
    let c = s.scrblt.decoded(d, ff, delta).1;
    if moderate(a.x as int, a.y as int, a.w as int, a.h as int) {
        law_clip_is_what_is_shared(s.canvas, a.rect(), clip, x, y);
    }
    if moderate(b.x as int, b.y as int, b.w as int, b.h as int) {
        law_clip_is_what_is_shared(s.canvas, b.rect(), clip, x, y);
    }
    if moderate(p.x as int, p.y as int, p.w as int, p.h as int) {
        law_clip_is_what_is_shared(s.canvas, p.rect(), clip, x, y);
    }
    if moderate(c.x as int, c.y as int, c.w as int, c.h as int) {
        law_clip_is_what_is_shared(s.canvas, c.rect(), clip, x, y);
    }
}

/// A MemBlt with a tile reports that part of its box too; without one it reports nothing.
pub proof fn law_reported_tiles(
    s: ProcessorView,
    d: Reading,
    ff: u32,
    delta: bool,
    clip: Option<Rect>,
    b: BitmapView,
    x: int,
    y: int,
)
    requires
        moderate_clip(clip),
        s.memblt.decoded(d, ff, delta).0.ok(),
        ({
            let o = s.memblt.decoded(d, ff, delta).1;
            moderate(o.x as int, o.y as int, o.w as int, o.h as int)
        }),
    ensures
        ({
            let o = s.memblt.decoded(d, ff, delta).1;
            let r = s.render(d, 0x0D, ff, delta, clip).2;
            cell_is(s, o.cache_id as int % 256, o.cache_index as int, b) ==> (r.contains(x, y)
                <==> reachable(
                s.canvas,
                clip,
                x,
                y,
                o.x as int,
                o.y as int,
                o.w as int,
                o.h as int,
            ))
        }),
{
    reveal(ProcessorView::render);
    let o = s.memblt.decoded(d, ff, delta).1;
    law_clip_is_what_is_shared(s.canvas, o.rect(), clip, x, y);
    let c = o.cache_id;
    assert(c & 0xff == c % 256) by (bit_vector);
}

/// Whether a box is empty or lies between the edges.
pub open spec fn inside(r: Rect, left: int, top: int, right: int, bottom: int) -> bool {
    r.w <= 0 || r.h <= 0 || (left <= r.x && r.x + r.w <= right && top <= r.y && r.y + r.h <= bottom)
}

/// Whether glyph `k` of a run lies between the edges.
pub open spec fn glyph_inside(
    run: Seq<Placed>,
    inc: u8,
    glyphs: Seq<GlyphView>,
    x: int,
    y: int,
    k: int,
    left: int,
    top: int,
    right: int,
    bottom: int,
) -> bool {
    let at = x + pen_at(run, inc, k) + glyphs[k].x;
    &&& left <= at && at + glyphs[k].cx <= right
    &&& top <= y + glyphs[k].y && y + glyphs[k].y + glyphs[k].cy <= bottom
}

/// Whether all glyphs of a run lie between the edges.
pub open spec fn glyphs_inside(
    run: Seq<Placed>,
    inc: u8,
    glyphs: Seq<GlyphView>,
    x: int,
    y: int,
    left: int,
    top: int,
    right: int,
    bottom: int,
) -> bool {
    forall|k: int|
        0 <= k < run.len() ==> #[trigger] glyph_inside(
            run,
            inc,
            glyphs,
            x,
            y,
            k,
            left,
            top,
            right,
            bottom,
        )
}

proof fn lemma_glyph_touches(
    s: Run,
    pen: Pen,
    g: GlyphView,
    left: int,
    top: int,
    right: int,
    bottom: int,
)
    requires
        -0x2000_0000 <= s.gx <= 0x2000_0000,
        -0x2000_0000 <= pen.y <= 0x2000_0000,
        moderate_clip(pen.clip),
        inside(s.dirty, left, top, right, bottom),
        -0x3fff_ffff <= left && right <= 0x3fff_ffff && -0x3fff_ffff <= top && bottom
            <= 0x3fff_ffff,
        left <= s.gx + g.x && s.gx + g.x + g.cx <= right,
        top <= pen.y + g.y && pen.y + g.y + g.cy <= bottom,
    ensures
        inside(s.glyph(pen, g).dirty, left, top, right, bottom),
        s.glyph(pen, g).gx == s.gx,
        s.glyph(pen, g).cache == s.cache,
{
}

proof fn lemma_play_touches(
    s: Run,
    pen: Pen,
    data: Seq<u8>,
    i: int,
    run: Seq<Placed>,
    glyphs: Seq<GlyphView>,
    left: int,
    top: int,
    right: int,
    bottom: int,
)
    requires
        0 <= i <= data.len(),
        data.skip(i) == run_bytes(run, pen.ul_char_inc),
        drawable(run, pen.ul_char_inc, glyphs, s.cache.cells, pen.cache_id as int),
        -0x1000_0000 <= s.gx,
        s.gx + 0x10000 * run.len() <= 0x2000_0000,
        -0x2000_0000 <= pen.y <= 0x2000_0000,
        moderate_clip(pen.clip),
        inside(s.dirty, left, top, right, bottom),
        -0x3fff_ffff <= left && right <= 0x3fff_ffff && -0x3fff_ffff <= top && bottom
            <= 0x3fff_ffff,
        glyphs_inside(
            run,
            pen.ul_char_inc,
            glyphs,
            s.gx as int,
            pen.y as int,
            left,
            top,
            right,
            bottom,
        ),
    ensures
        inside(s.play(pen, data, i, 0).dirty, left, top, right, bottom),
    decreases run.len(),
{
    let inc = pen.ul_char_inc;
    if run.len() == 0 {
        assert(data.skip(i).len() == 0);
    } else {
        let p = run[0];
        let g = glyphs[0];
        let rest = run.skip(1);
        let adv = if inc == 0 {
            advance_bytes(p.advance)
        } else {
            Seq::empty()
        };
        let tail = data.skip(i);
        assert(tail =~= seq![p.index] + adv + run_bytes(rest, inc));
        assert(data[i] == tail[0]);
        let j = i + 1 + adv.len();
        assert(data.skip(j) =~= run_bytes(rest, inc)) by {
            assert(data.skip(j) =~= tail.skip(1 + adv.len() as int));
        }
        let delta = step(p, inc) as i32;
        if inc == 0 {
            assert(data[i + 1] == tail[1] && tail[1] == adv[0]);
            if adv.len() == 3 {
                assert(data[i + 2] == tail[2] && tail[2] == adv[1]);
                assert(data[i + 3] == tail[3] && tail[3] == adv[2]);
            }
            assert(glyph_delta(data, i + 1) == (delta, j));
        }
        assert(pen_at(run, inc, 0) == 0);
        assert(glyph_inside(
            run,
            inc,
            glyphs,
            s.gx as int,
            pen.y as int,
            0,
            left,
            top,
            right,
            bottom,
        ));
        lemma_glyph_touches(s, pen, g, left, top, right, bottom);
        let next = s.glyph(pen, g).advance(delta);
        assert(next.gx == s.gx + step(p, inc));
        let more = glyphs.skip(1);
        assert(drawable(rest, inc, more, next.cache.cells, pen.cache_id as int)) by {
            assert forall|k: int|
                #![trigger rest[k]]
                0 <= k < rest.len() implies rest[k].index < 0xFE && rest[k].advance < 65536
                && s.cache.cells.dom().contains((pen.cache_id as int, rest[k].index as int))
                && s.cache.cells[(pen.cache_id as int, rest[k].index as int)] == more[k] by {
                assert(rest[k] == run[k + 1]);
            }
        }
        assert(glyphs_inside(
            rest,
            inc,
            more,
            next.gx as int,
            pen.y as int,
            left,
            top,
            right,
            bottom,
        )) by {
            assert forall|k: int| 0 <= k < rest.len() implies #[trigger] glyph_inside(
                rest,
                inc,
                more,
                next.gx as int,
                pen.y as int,
                k,
                left,
                top,
                right,
                bottom,
            ) by {
                assert(glyph_inside(
                    run,
                    inc,
                    glyphs,
                    s.gx as int,
                    pen.y as int,
                    k + 1,
                    left,
                    top,
                    right,
                    bottom,
                ));
                assert(more[k] == glyphs[k + 1]);
                crate::orders::runs::lemma_pen_at(run, inc, k + 1);
            }
        }
        lemma_play_touches(next, pen, data, j, rest, more, left, top, right, bottom);
        assert(s.cache.get(pen.cache_id as int, data[i] as int) == Some(g));
        assert(s.play(pen, data, i, 0) == next.play(pen, data, j, 0));
    }
}

/// A text reports no more than the box around its background and its glyphs.
pub proof fn law_reported_text(
    canvas: CanvasView,
    cache: crate::orders::cache::GlyphCacheView,
    pen: Pen,
    bk: [i32; 4],
    back: [u8; 4],
    x: i32,
    run: Seq<Placed>,
    glyphs: Seq<GlyphView>,
    left: int,
    top: int,
    right: int,
    bottom: int,
)
    requires
        drawable(run, pen.ul_char_inc, glyphs, cache.cells, pen.cache_id as int),
        -0x1000_0000 <= x,
        x + 0x10000 * run.len() <= 0x2000_0000,
        -0x2000_0000 <= pen.y <= 0x2000_0000,
        moderate_clip(pen.clip),
        -0x3fff_ffff <= left && right <= 0x3fff_ffff && -0x3fff_ffff <= top && bottom
            <= 0x3fff_ffff,
        left <= bk[0] && bk[2] < right && top <= bk[1] && bk[3] < bottom,
        glyphs_inside(
            run,
            pen.ul_char_inc,
            glyphs,
            x as int,
            pen.y as int,
            left,
            top,
            right,
            bottom,
        ),
    ensures
        inside(
            text_drawn(
                canvas,
                cache,
                pen,
                bk,
                back,
                x,
                run_bytes(run, pen.ul_char_inc),
            ).2,
            left,
            top,
            right,
            bottom,
        ),
{
    let (filled, bg) = crate::orders::glyph::text_background(canvas, pen.clip, bk, back);
    let start = Run { canvas: filled, cache, gx: x, dirty: Rect { x: 0, y: 0, w: 0, h: 0 } };
    let data = run_bytes(run, pen.ul_char_inc);
    assert(data.skip(0) =~= data);
    assert(inside(bg, left, top, right, bottom));
    lemma_play_touches(start, pen, data, 0, run, glyphs, left, top, right, bottom);
}

/// A FastGlyph without data, or whose glyph is not cached, draws its background alone.
pub proof fn law_fast_glyph_without_a_glyph(
    s: ProcessorView,
    d: Reading,
    ff: u32,
    delta: bool,
    clip: Option<Rect>,
    px: int,
    py: int,
)
    requires
        ({
            let (e, o) = s.fast_glyph.decoded(d, ff, delta);
            &&& e.ok()
            &&& o.data.len() == 0 || o.data.len() < 9 && !s.caches.glyphs.cells.dom().contains(
                (o.cache_id as int, o.data[0] as int),
            )
            &&& -0x4000_0000 <= o.bk[0] && o.bk[2] <= 0x3fff_ffff
            &&& -0x4000_0000 <= o.bk[1] && o.bk[3] <= 0x3fff_ffff
        }),
    ensures
        ({
            let (e, o) = s.fast_glyph.decoded(d, ff, delta);
            let (e2, t, r) = s.render(d, 0x18, ff, delta, clip);
            &&& e2 == e
            &&& t.caches == s.caches
            &&& (t.canvas.at)(px, py) == behind_text(
                s.canvas,
                clip,
                o.bk,
                o.back_color,
                px,
                py,
            )
        }),
{
    reveal(ProcessorView::render);
    let t = s.render(d, 0x18, ff, delta, clip).1;
    assert(t.caches =~= s.caches);
}

/// Deep replays end: beyond eight fragments inside each other nothing is played.
pub proof fn law_fragments_end(s: Run, pen: Pen, data: Seq<u8>, i: int, depth: nat)
    requires
        depth > 8,
    ensures
        s.play(pen, data, i, depth) == s,
{
}

/// A fresh state: a blank canvas of the given size, empty caches, no order type, and every
/// field of every order zero.
pub proof fn law_fresh_state(width: u16, height: u16, depth: ColorDepth, x: int, y: int)
    requires
        0 <= x < width,
        0 <= y < height,
    ensures
        ({
            let s = ProcessorView::fresh(width, height, depth);
            &&& s.canvas.width == width && s.canvas.height == height
            &&& (s.canvas.at)(x, y) == (0u8, 0u8, 0u8, 0u8)
            &&& s.depth == depth
            &&& s.order_type is None
            &&& s.caches.bitmaps.cells == Map::<(int, int), BitmapView>::empty()
            &&& s.caches.bitmaps.waiting == Map::<int, BitmapView>::empty()
            &&& s.caches.glyphs.cells == Map::<(int, int), GlyphView>::empty()
            &&& s.caches.glyphs.fragments.len() == 0
            &&& s.bounds.left == 0 && s.bounds.top == 0 && s.bounds.right == 0 && s.bounds.bottom
                == 0
            &&& s.memblt.x == 0 && s.memblt.y == 0 && s.memblt.w == 0 && s.memblt.h == 0
            &&& s.memblt.x_src == 0 && s.memblt.y_src == 0 && s.memblt.cache_id == 0
                && s.memblt.cache_index == 0
            &&& s.scrblt.x == 0 && s.scrblt.y == 0 && s.scrblt.w == 0 && s.scrblt.h == 0
                && s.scrblt.x_src == 0 && s.scrblt.y_src == 0
            &&& s.dstblt.x == 0 && s.dstblt.y == 0 && s.dstblt.w == 0 && s.dstblt.h == 0
            &&& s.opaque.x == 0 && s.opaque.y == 0 && s.opaque.w == 0 && s.opaque.h == 0
            &&& s.patblt.x == 0 && s.patblt.y == 0 && s.patblt.w == 0 && s.patblt.h == 0
            &&& s.glyph_index.x == 0 && s.glyph_index.y == 0 && s.glyph_index.data.len() == 0
            &&& s.fast_index.x == 0 && s.fast_index.y == 0 && s.fast_index.data.len() == 0
            &&& s.fast_glyph.x == 0 && s.fast_glyph.y == 0 && s.fast_glyph.data.len() == 0
            &&& s.opaque.color[0] == 0 && s.opaque.color[1] == 0 && s.opaque.color[2] == 0
            &&& s.patblt.fore_color[0] == 0 && s.patblt.fore_color[1] == 0 && s.patblt.fore_color[2]
                == 0
            &&& s.glyph_index.fore_color[0] == 0 && s.glyph_index.fore_color[1] == 0
                && s.glyph_index.fore_color[2] == 0
            &&& s.fast_index.fore_color[0] == 0 && s.fast_index.fore_color[1] == 0
                && s.fast_index.fore_color[2] == 0
            &&& s.fast_glyph.fore_color[0] == 0 && s.fast_glyph.fore_color[1] == 0
                && s.fast_glyph.fore_color[2] == 0
            &&& s.lineto.pen_color[0] == 0 && s.lineto.pen_color[1] == 0 && s.lineto.pen_color[2]
                == 0
        }),
{
}

/// A reading beyond the end fails, says how much was wanted and how much was left, and
/// stays where it is; a failed reading stays failed.
pub proof fn law_readings_fail(d: Reading, n: int, more: int)
    requires
        d.live(),
        0 <= n <= usize::MAX,
    ensures
        d.remaining() >= n ==> d.skip(n) == (Reading { pos: d.pos + n, ..d }),
        d.remaining() < n ==> d.skip(n).err == Some(
            OrderError::UnexpectedEof {
                needed: n as usize,
                have: (d.data.len() - d.pos) as usize,
            },
        ) && d.skip(n).pos == d.pos && d.skip(n).skip(more) == d.skip(n),
        d.u8().0 == d.skip(1),
        d.i8().0 == d.skip(1),
        d.u16().0 == d.skip(2),
        d.i16().0 == d.skip(2),
        d.u32().0 == d.skip(4),
        d.bytes(n).0 == d.skip(n),
{
}

/// Numbers are read with the lowest byte first, signed ones in two's complement.
pub proof fn law_readings_of_numbers(d: Reading)
    requires
        d.live(),
        d.remaining() >= 4,
    ensures
        ({
            let b = d.data;
            let p = d.pos;
            &&& d.u8().1 == b[p]
            &&& d.i8().1 == crate::orders::layout::signed8(b, p)
            &&& d.u16().1 == crate::orders::layout::unsigned16(b, p)
            &&& d.i16().1 == crate::orders::layout::signed16(b, p)
            &&& d.u32().1 == crate::wire::number32(b, p)
        }),
{
    crate::orders::layout::lemma_signs(
        crate::wire::le16(d.data[d.pos], d.data[d.pos + 1]),
        d.data[d.pos],
    );
}

} // verus!
