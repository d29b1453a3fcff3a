//! What holds of the order stream as a whole.

use crate::orders::cache::{GlyphCacheView, GlyphView};
use crate::orders::canvas::{
    blank_or_opaque_pixel, stored_pixel, within, BitmapView, CanvasView, Rect,
};
use crate::orders::color::{rgba, Rgba};
use crate::orders::cursor::Reading;
use crate::orders::glyph::{
    glyph_delta, law_text_stays_in_clip, text_background, text_drawn, FastTextView, GlyphIndexView,
    Pen, Run, MAX_FRAGMENT_DEPTH,
};
use crate::orders::header::{flag_set, present, Field, TS_BOUNDS, TS_SECONDARY, TS_STANDARD};
use crate::orders::primary::{law_line_box_is_smallest, law_line_paints_its_pixels, LineTo};
use crate::orders::processor::{ProcessOutcome, ProcessorView};
use crate::orders::rop::Rop3;
use vstd::prelude::*;

verus! {

/// Fields are sticky: one whose flag is absent keeps its value and takes no
/// bytes of the stream.
pub proof fn law_absent_fields_persist<T: Field>(
    d: Reading,
    ff: u32,
    bit: u32,
    delta: bool,
    value: T,
    coordinate: i32,
)
    requires
        !present(ff, bit),
    ensures
        d.field(ff, bit, value) == (d, value),
        d.coord(ff, bit, delta, coordinate) == (d, coordinate),
{
}

/// Secondary orders fill caches; they never draw.
pub proof fn law_secondary_orders_do_not_draw(s: ProcessorView, d: Reading)
    ensures
        s.secondary(d).1.canvas == s.canvas,
{
}

/// One change to a canvas.
pub enum CanvasStep {
    Resize { width: u16, height: u16 },
    Fill { dst: Rect, bounds: Option<Rect>, color: Rgba },
    Glyph {
        x: i32,
        y: i32,
        cx: u16,
        cy: u16,
        aj: Seq<u8>,
        bounds: Option<Rect>,
        color: Rgba,
    },
    Rop { dst: Rect, bounds: Option<Rect>, rop: Rop3 },
    Copy { dst: Rect, bounds: Option<Rect>, src_x: i32, src_y: i32 },
    Blit { dst: Rect, bounds: Option<Rect>, src: BitmapView, src_x: i32, src_y: i32 },
}

impl CanvasStep {
    pub open spec fn applied(self, canvas: CanvasView) -> CanvasView {
        match self {
            CanvasStep::Resize { width, height } => CanvasView::blank(width, height),
            CanvasStep::Fill { dst, bounds, color } => canvas.fill(dst, bounds, color),
            CanvasStep::Glyph { x, y, cx, cy, aj, bounds, color } => canvas.glyph(
                x,
                y,
                cx,
                cy,
                aj,
                bounds,
                color,
            ),
            CanvasStep::Rop { dst, bounds, rop } => canvas.rop(dst, bounds, rop),
            CanvasStep::Copy { dst, bounds, src_x, src_y } => canvas.copy(
                dst,
                bounds,
                src_x,
                src_y,
            ),
            CanvasStep::Blit { dst, bounds, src, src_x, src_y } => canvas.blit(
                dst,
                bounds,
                src,
                src_x,
                src_y,
            ),
        }
    }
}

/// The canvas after the steps, one after the other.
pub open spec fn canvas_after(canvas: CanvasView, steps: Seq<CanvasStep>) -> CanvasView
    decreases steps.len(),
{
    if steps.len() == 0 {
        canvas
    } else {
        steps.last().applied(canvas_after(canvas, steps.drop_last()))
    }
}

/// Whatever is drawn, and whatever alpha is passed in, each pixel of the buffer is
/// all zero (not painted since the canvas was made or resized) or has full alpha,
/// and the buffer holds four bytes for each pixel.
pub proof fn law_pixels_are_blank_or_opaque(
    width: u16,
    height: u16,
    steps: Seq<CanvasStep>,
    data: Seq<u8>,
)
    requires
        canvas_after(CanvasView::blank(width, height), steps).stored(data),
    ensures
        ({
            let canvas = canvas_after(CanvasView::blank(width, height), steps);
            &&& canvas.blank_or_opaque()
            &&& data.len() == canvas.width * canvas.height * 4
            &&& forall|i: int|
                0 <= i < canvas.width * canvas.height ==> blank_or_opaque_pixel(
                    #[trigger] stored_pixel(data, i),
                )
        }),
{
    let canvas = canvas_after(CanvasView::blank(width, height), steps);
    lemma_steps_keep_opacity(CanvasView::blank(width, height), steps);
    assert forall|i: int| 0 <= i < canvas.width * canvas.height implies blank_or_opaque_pixel(
        #[trigger] stored_pixel(data, i),
    ) by {
        canvas.lemma_stored_pixel(data, i);
    }
}

proof fn lemma_steps_keep_opacity(canvas: CanvasView, steps: Seq<CanvasStep>)
    requires
        canvas.blank_or_opaque(),
    ensures
        canvas_after(canvas, steps).blank_or_opaque(),
    decreases steps.len(),
{
    if steps.len() > 0 {
        lemma_steps_keep_opacity(canvas, steps.drop_last());
    }
}

/// The canvases differ only at pixels of the rectangle.
pub open spec fn covers(r: Rect, a: CanvasView, b: CanvasView) -> bool {
    &&& a.width == b.width
    &&& a.height == b.height
    &&& forall|x: int, y: int|
        #![trigger (a.at)(x, y)]
        #![trigger (b.at)(x, y)]
        (a.at)(x, y) != (b.at)(x, y) ==> r.contains(x, y)
}

/// The canvases differ only at pixels inside the clip.
pub open spec fn confined(clip: Option<Rect>, a: CanvasView, b: CanvasView) -> bool {
    &&& a.width == b.width
    &&& a.height == b.height
    &&& forall|x: int, y: int|
        #![trigger (a.at)(x, y)]
        #![trigger (b.at)(x, y)]
        (a.at)(x, y) != (b.at)(x, y) ==> within(clip, x, y)
}

/// A rectangle that is empty or lies on the canvas.
pub open spec fn on_canvas(r: Rect, canvas: CanvasView) -> bool {
    r.empty() || r.on_canvas(canvas)
}

proof fn lemma_join(canvas: CanvasView, a: Rect, b: Rect)
    requires
        on_canvas(a, canvas),
        on_canvas(b, canvas),
    ensures
        on_canvas(a.join(b), canvas),
        forall|x: int, y: int|
            (#[trigger] a.contains(x, y) || #[trigger] b.contains(x, y)) ==> a.join(b).contains(
                x,
                y,
            ),
{
}

proof fn lemma_clip_on_canvas(canvas: CanvasView, dst: Rect, clip: Option<Rect>)
    ensures
        on_canvas(canvas.clip(dst, clip), canvas),
        forall|x: int, y: int|
            (#[trigger] canvas.on(x, y) && dst.contains(x, y) && within(clip, x, y))
                ==> canvas.clip(dst, clip).contains(x, y),
{
}

/// Painting inside a destination and a clip changes only pixels of both.
proof fn lemma_paint_in(
    canvas: CanvasView,
    dst: Rect,
    clip: Option<Rect>,
    f: spec_fn(int, int) -> Option<Rgba>,
)
    ensures
        covers(canvas.clip(dst, clip), canvas, canvas.paint_in(dst, clip, f)),
        confined(clip, canvas, canvas.paint_in(dst, clip, f)),
{
    lemma_clip_on_canvas(canvas, dst, clip);
    assert forall|x: int, y: int|
        (canvas.at)(x, y) != (canvas.paint_in(dst, clip, f).at)(x, y) implies canvas.clip(
        dst,
        clip,
    ).contains(x, y) by {
        assert(canvas.on(x, y));
    }
}

proof fn lemma_glyph(run: Run, pen: Pen, g: GlyphView)
    requires
        on_canvas(run.dirty, run.canvas),
    ensures
        on_canvas(run.glyph(pen, g).dirty, run.canvas),
        confined(pen.clip, run.canvas, run.glyph(pen, g).canvas),
        forall|c0: CanvasView|
            covers(run.dirty, c0, run.canvas) ==> #[trigger] covers(
                run.glyph(pen, g).dirty,
                c0,
                run.glyph(pen, g).canvas,
            ),
{
    let x = run.gx.wrapping_add(g.x as i32);
    let y = pen.y.wrapping_add(g.y as i32);
    let dst = Rect { x, y, w: g.cx as i32, h: g.cy as i32 };
    let r = run.canvas.clip(dst, pen.clip);
    let f = |px: int, py: int|
        if crate::orders::canvas::glyph_bit(g.aj, g.cx as int, px - x, py - y) {
            Some(rgba(pen.fore))
        } else {
            None
        };
    lemma_paint_in(run.canvas, dst, pen.clip, f);
    assert(run.glyph(pen, g).canvas == run.canvas.paint_in(dst, pen.clip, f));
    lemma_clip_on_canvas(run.canvas, dst, pen.clip);
    lemma_join(run.canvas, run.dirty, r);
    assert forall|c0: CanvasView| covers(run.dirty, c0, run.canvas) implies #[trigger] covers(
        run.glyph(pen, g).dirty,
        c0,
        run.glyph(pen, g).canvas,
    ) by {
        let after = run.glyph(pen, g);
        assert forall|px: int, py: int|
            #![trigger (c0.at)(px, py)]
            #![trigger (after.canvas.at)(px, py)]
            (c0.at)(px, py) != (after.canvas.at)(px, py) implies after.dirty.contains(px, py) by {
            if (c0.at)(px, py) != (run.canvas.at)(px, py) {
                assert(run.dirty.contains(px, py));
            } else {
                assert(r.contains(px, py));
            }
        }
    }
}

/// The box of a text run covers every pixel the run changed.
proof fn lemma_play(c0: CanvasView, run: Run, pen: Pen, data: Seq<u8>, i: int, depth: nat)
    requires
        on_canvas(run.dirty, run.canvas),
        covers(run.dirty, c0, run.canvas),
    ensures
        on_canvas(run.play(pen, data, i, depth).dirty, run.canvas),
        covers(
            run.play(pen, data, i, depth).dirty,
            c0,
            run.play(pen, data, i, depth).canvas,
        ),
    decreases MAX_FRAGMENT_DEPTH + 1 - depth, data.len() - i,
{
    if depth > MAX_FRAGMENT_DEPTH || i >= data.len() {
    } else if data[i] == 0xFF {
        if i + 2 < data.len() {
            let frag = data.subrange(crate::orders::canvas::max(i - data[i + 2], 0), i);
            let next = Run { cache: run.cache.put_fragment(data[i + 1] as int, frag), ..run };
            lemma_play(c0, next, pen, data, i + 3, depth);
        }
    } else if data[i] == 0xFE {
        if i + 1 < data.len() {
            let (delta, j) = if pen.ul_char_inc == 0 {
                glyph_delta(data, i + 2)
            } else {
                (0i32, i + 2)
            };
            match run.cache.fragment(data[i + 1] as int) {
                Some(frag) => {
                    lemma_play(c0, run, pen, frag, 0, depth + 1);
                    let replayed = run.play(pen, frag, 0, depth + 1);
                    lemma_play(c0, replayed.advance(delta), pen, data, j, depth);
                },
                None => {
                    lemma_play(c0, run.advance(delta), pen, data, j, depth);
                },
            }
        }
    } else {
        let (delta, j) = if pen.ul_char_inc == 0 {
            glyph_delta(data, i + 1)
        } else {
            (pen.ul_char_inc as i32, i + 1)
        };
        match run.cache.get(pen.cache_id as int, data[i] as int) {
            Some(g) => {
                lemma_glyph(run, pen, g);
                assert(covers(run.glyph(pen, g).dirty, c0, run.glyph(pen, g).canvas));
                lemma_play(c0, run.glyph(pen, g).advance(delta), pen, data, j, depth);
            },
            None => {
                lemma_play(c0, run, pen, data, j, depth);
            },
        }
    }
}

proof fn lemma_background(canvas: CanvasView, clip: Option<Rect>, bk: [i32; 4], color: [u8; 4])
    ensures
        ({
            let (after, r) = text_background(canvas, clip, bk, color);
            on_canvas(r, canvas) && covers(r, canvas, after) && confined(clip, canvas, after)
        }),
{
    if bk[2] > bk[0] && bk[3] > bk[1] {
        let rect = Rect::inclusive(bk[0], bk[1], bk[2], bk[3]);
        lemma_paint_in(canvas, rect, clip, |x: int, y: int| Some(rgba(color)));
        lemma_clip_on_canvas(canvas, rect, clip);
    }
}

proof fn lemma_text(
    canvas: CanvasView,
    cache: GlyphCacheView,
    pen: Pen,
    bk: [i32; 4],
    back: [u8; 4],
    x: i32,
    data: Seq<u8>,
)
    ensures
        ({
            let (after, _, r) = text_drawn(canvas, cache, pen, bk, back, x, data);
            on_canvas(r, canvas) && covers(r, canvas, after) && confined(pen.clip, canvas, after)
        }),
{
    let (filled, bg) = text_background(canvas, pen.clip, bk, back);
    lemma_background(canvas, pen.clip, bk, back);
    let start = Run { canvas: filled, cache, gx: x, dirty: Rect { x: 0, y: 0, w: 0, h: 0 } };
    let run = start.play(pen, data, 0, 0);
    lemma_play(filled, start, pen, data, 0, 0);
    lemma_join(canvas, bg, run.dirty);
    let r = bg.join(run.dirty);
    law_text_stays_in_clip(start, pen, data, 0, 0, 0, 0);
    assert forall|px: int, py: int|
        #![trigger (canvas.at)(px, py)]
        #![trigger (run.canvas.at)(px, py)]
        (canvas.at)(px, py) != (run.canvas.at)(px, py) implies r.contains(px, py) && within(
        pen.clip,
        px,
        py,
    ) by {
        law_text_stays_in_clip(start, pen, data, 0, 0, px, py);
        if (canvas.at)(px, py) != (filled.at)(px, py) {
            assert(bg.contains(px, py));
        } else {
            assert(run.dirty.contains(px, py));
        }
    }
}

proof fn lemma_line(l: LineTo, canvas: CanvasView, clip: Option<Rect>)
    ensures
        ({
            let after = l.line().drawn(canvas, clip, rgba(l.pen_color));
            reported(clip, l.line().touched(canvas, clip), canvas, after)
        }),
{
    reveal(reported);
    let line = l.line();
    let r = line.touched(canvas, clip);
    let after = line.drawn(canvas, clip, rgba(l.pen_color));
    law_line_paints_its_pixels(line, canvas, clip, rgba(l.pen_color));
    law_line_box_is_smallest(line, canvas, clip);
    assert forall|x: int, y: int|
        #![trigger (canvas.at)(x, y)]
        #![trigger (after.at)(x, y)]
        (canvas.at)(x, y) != (after.at)(x, y) implies r.contains(x, y) && within(clip, x, y) by {
        assert((after.at)(x, y) == (after.at)(x, y));
        assert(line.paints(canvas, clip, x, y));
    }
}

proof fn lemma_inline(
    o: FastTextView,
    canvas: CanvasView,
    clip: Option<Rect>,
    glyphs: GlyphCacheView,
)
    ensures
        ({
            let (after, _, r) = o.inline_drawn(canvas, clip, glyphs);
            reported(clip, r, canvas, after)
        }),
{
    reveal(reported);
    let (filled, bg) = text_background(canvas, clip, o.bk, o.back_color);
    lemma_background(canvas, clip, o.bk, o.back_color);
    let pen = Pen {
        clip,
        cache_id: o.cache_id as usize,
        ul_char_inc: o.ul_char_inc,
        fore: o.fore_color,
        y: o.y,
    };
    let run = Run { canvas: filled, cache: glyphs, gx: o.x, dirty: bg };
    assert forall|g: GlyphView| ({
        let after = #[trigger] run.glyph(pen, g);
        on_canvas(after.dirty, canvas) && covers(after.dirty, canvas, after.canvas) && confined(
            clip,
            canvas,
            after.canvas,
        )
    }) by {
        lemma_glyph(run, pen, g);
        let after = run.glyph(pen, g);
        assert(covers(after.dirty, canvas, after.canvas));
        assert forall|x: int, y: int|
            #![trigger (canvas.at)(x, y)]
            #![trigger (after.canvas.at)(x, y)]
            (canvas.at)(x, y) != (after.canvas.at)(x, y) implies within(clip, x, y) by {
            assert((filled.at)(x, y) == (filled.at)(x, y));
        }
    }
}

/// A drawing that turned canvas `a` into `b` and reported `r`: it changed only pixels
/// that the clip lets through and that lie in `r`, which is on the canvas.
#[verifier::opaque]
pub open spec fn reported(clip: Option<Rect>, r: Rect, a: CanvasView, b: CanvasView) -> bool {
    confined(clip, a, b) && on_canvas(r, a) && covers(r, a, b)
}

/// Nothing drawn, nothing reported.
proof fn lemma_untouched(clip: Option<Rect>, canvas: CanvasView)
    ensures
        reported(clip, Rect { x: 0, y: 0, w: 0, h: 0 }, canvas, canvas),
{
    reveal(reported);
}

proof fn lemma_painted(
    canvas: CanvasView,
    dst: Rect,
    clip: Option<Rect>,
    f: spec_fn(int, int) -> Option<Rgba>,
)
    ensures
        reported(clip, canvas.clip(dst, clip), canvas, canvas.paint_in(dst, clip, f)),
{
    reveal(reported);
    lemma_paint_in(canvas, dst, clip, f);
    lemma_clip_on_canvas(canvas, dst, clip);
}

/// One primary order, drawn, keeps to its clip and to the rectangle it reports.
proof fn lemma_render(
    s: ProcessorView,
    d: Reading,
    order_type: u8,
    ff: u32,
    delta: bool,
    clip: Option<Rect>,
)
    ensures
        ({
            let (e, t, r) = s.render(d, order_type, ff, delta, clip);
            reported(clip, r, s.canvas, t.canvas)
        }),
{
    reveal(ProcessorView::render);
    lemma_untouched(clip, s.canvas);
    let (_, o1) = s.dstblt.decoded(d, ff, delta);
    lemma_rop(s.canvas, o1.rect(), clip, o1.rop);
    let (_, o2) = s.opaque.decoded(d, ff, delta);
    lemma_painted(s.canvas, o2.rect(), clip, |x: int, y: int| Some(rgba(o2.color)));
    let (_, o3) = s.patblt.decoded(d, ff, delta);
    lemma_painted(s.canvas, o3.rect(), clip, |x: int, y: int| Some(o3.fill_color()));
    let (_, o4) = s.scrblt.decoded(d, ff, delta);
    lemma_copy(s.canvas, o4.rect(), clip, o4.x_src, o4.y_src);
    let (_, o5) = s.memblt.decoded(d, ff, delta);
    if let Some(m) = o5.source(s.caches.bitmaps) {
        lemma_blit(s.canvas, o5.rect(), clip, m, o5.x_src, o5.y_src);
    }
    let (_, o6) = s.lineto.decoded(d, ff, delta);
    lemma_line(o6, s.canvas, clip);
    let (_, o7) = s.glyph_index.decoded(d, ff, delta);
    lemma_glyph_index(o7, s.canvas, clip, s.caches.glyphs);
    let (_, o8) = s.fast_index.decoded(d, ff, delta);
    lemma_fast_index(o8, s.canvas, clip, s.caches.glyphs);
    let (_, o9) = s.fast_glyph.decoded(d, ff, delta);
    lemma_inline(o9, s.canvas, clip, s.caches.glyphs);
}

proof fn lemma_blit(
    canvas: CanvasView,
    dst: Rect,
    clip: Option<Rect>,
    src: BitmapView,
    src_x: i32,
    src_y: i32,
)
    ensures
        reported(
            clip,
            canvas.clip(dst, clip),
            canvas,
            canvas.blit(dst, clip, src, src_x, src_y),
        ),
{
    let f = |x: int, y: int| src.pixel(x - dst.x + src_x, y - dst.y + src_y);
    lemma_painted(canvas, dst, clip, f);
    assert(canvas.blit(dst, clip, src, src_x, src_y) == canvas.paint_in(dst, clip, f));
}

proof fn lemma_rop(canvas: CanvasView, dst: Rect, clip: Option<Rect>, rop: u8)
    ensures
        reported(clip, canvas.clip(dst, clip), canvas, canvas.rop(dst, clip, Rop3(rop))),
{
    assert(reported(clip, canvas.clip(dst, clip), canvas, canvas)) by {
        reveal(reported);
        lemma_clip_on_canvas(canvas, dst, clip);
    }
    lemma_painted(canvas, dst, clip, |x: int, y: int| Some((0u8, 0u8, 0u8, 0xffu8)));
    lemma_painted(canvas, dst, clip, |x: int, y: int| Some((0xffu8, 0xffu8, 0xffu8, 0xffu8)));
    lemma_painted(
        canvas,
        dst,
        clip,
        |x: int, y: int|
            {
                let c = (canvas.at)(x, y);
                Some((!c.0, !c.1, !c.2, 0xffu8))
            },
    );
}

proof fn lemma_copy(canvas: CanvasView, dst: Rect, clip: Option<Rect>, src_x: i32, src_y: i32)
    ensures
        reported(clip, canvas.clip(dst, clip), canvas, canvas.copy(dst, clip, src_x, src_y)),
{
    let f = |x: int, y: int|
        {
            let sx = x - dst.x + src_x;
            let sy = y - dst.y + src_y;
            if canvas.on(sx, sy) {
                Some((canvas.at)(sx, sy))
            } else {
                None
            }
        };
    lemma_painted(canvas, dst, clip, f);
    assert(canvas.copy(dst, clip, src_x, src_y) == canvas.paint_in(dst, clip, f));
}

proof fn lemma_glyph_index(
    o: GlyphIndexView,
    canvas: CanvasView,
    clip: Option<Rect>,
    glyphs: GlyphCacheView,
)
    ensures
        ({
            let (after, _, r) = o.drawn(canvas, clip, glyphs);
            reported(clip, r, canvas, after)
        }),
{
    reveal(reported);
    let pen = Pen {
        clip,
        cache_id: o.cache_id as usize,
        ul_char_inc: o.ul_char_inc,
        fore: o.fore_color,
        y: o.y,
    };
    lemma_text(canvas, glyphs, pen, o.bk, o.back_color, o.x, o.data);
}

proof fn lemma_fast_index(
    o: FastTextView,
    canvas: CanvasView,
    clip: Option<Rect>,
    glyphs: GlyphCacheView,
)
    ensures
        ({
            let (after, _, r) = o.drawn(canvas, clip, glyphs);
            reported(clip, r, canvas, after)
        }),
{
    reveal(reported);
    let pen = Pen {
        clip,
        cache_id: o.cache_id as usize,
        ul_char_inc: o.ul_char_inc,
        fore: o.fore_color,
        y: o.y,
    };
    lemma_text(canvas, glyphs, pen, o.bk, o.back_color, o.x, o.data);
}

/// An order with bounds draws inside them: no pixel outside changes.
pub proof fn law_bounds_confine_drawing(s: ProcessorView, d: Reading, control: u8)
    requires
        flag_set(control, TS_BOUNDS),
    ensures
        ({
            let (_, t, _) = s.primary(d, control);
            let b = t.bounds;
            confined(
                Some(Rect::inclusive(b.left, b.top, b.right, b.bottom)),
                s.canvas,
                t.canvas,
            )
        }),
{
    lemma_primary(s, d, control);
}

proof fn lemma_primary(s: ProcessorView, d: Reading, control: u8)
    ensures
        ({
            let (e, t, r) = s.primary(d, control);
            let clip = if flag_set(control, TS_BOUNDS) {
                Some(
                    Rect::inclusive(t.bounds.left, t.bounds.top, t.bounds.right, t.bounds.bottom),
                )
            } else {
                None
            };
            &&& confined(clip, s.canvas, t.canvas)
            &&& on_canvas(r, s.canvas)
            &&& covers(r, s.canvas, t.canvas)
        }),
{
    assert forall|u: ProcessorView, e: Reading, t: u8, ff: u32, delta: bool, clip: Option<Rect>|
        ({
            let (_, v, r) = #[trigger] u.render(e, t, ff, delta, clip);
            &&& confined(clip, u.canvas, v.canvas)
            &&& v.bounds == u.bounds
            &&& on_canvas(r, u.canvas)
            &&& covers(r, u.canvas, v.canvas)
        }) by {
        lemma_render(u, e, t, ff, delta, clip);
        reveal(reported);
        reveal(ProcessorView::render);
    }
}

/// The region that an update reports is a part of the canvas and holds every pixel
/// that changed; where none is reported, none changed.
pub open spec fn outcome_covers(out: ProcessOutcome, a: CanvasView, b: CanvasView) -> bool {
    match out.dirty {
        None => a.width == b.width && a.height == b.height && a.at =~= b.at,
        Some(r) => !r.empty() && on_canvas(r, b) && covers(r, a, b),
    }
}

proof fn lemma_orders(c0: CanvasView, s: ProcessorView, d: Reading, total: nat, out: ProcessOutcome)
    requires
        out.count() <= total <= 0xffff,
        outcome_covers(out, c0, s.canvas),
    ensures
        ({
            let (_, t, o) = s.orders(d, total, out);
            outcome_covers(o, c0, t.canvas) || s.orders(d, total, out).0.err is Some
        }),
    decreases total - out.count(),
{
    if out.count() >= total || d.remaining() <= 0 {
    } else {
        let (d, control) = d.u8();
        if !flag_set(control, TS_STANDARD) {
            let (d, known) = ProcessorView::altsec(d, control);
            if d.ok() && known {
                lemma_orders(c0, s, d, total, out.skip());
            }
        } else if flag_set(control, TS_SECONDARY) {
            let (d, t) = s.secondary(d);
            if d.ok() {
                lemma_orders(c0, t, d, total, out.decode());
            }
        } else {
            lemma_primary(s, d, control);
            let (d, t, r) = s.primary(d, control);
            if d.ok() {
                let next = out.draw(r);
                lemma_draw_covers(c0, s.canvas, t.canvas, out, r);
                lemma_orders(c0, t, d, total, next);
            }
        }
    }
}

proof fn lemma_draw_covers(
    c0: CanvasView,
    a: CanvasView,
    b: CanvasView,
    out: ProcessOutcome,
    r: Rect,
)
    requires
        outcome_covers(out, c0, a),
        on_canvas(r, a),
        covers(r, a, b),
    ensures
        outcome_covers(out.draw(r), c0, b),
{
    match out.dirty {
        None => {
            assert forall|x: int, y: int| #[trigger] (c0.at)(x, y) == (a.at)(x, y) by {}
            if r.empty() {
                assert forall|x: int, y: int| #[trigger] (c0.at)(x, y) == (b.at)(x, y) by {
                    assert(!r.contains(x, y));
                }
                assert(c0.at =~= b.at);
            }
        },
        Some(q) => {
            lemma_join(c0, q, r);
            assert forall|x: int, y: int|
                #![trigger (c0.at)(x, y)]
                #![trigger (b.at)(x, y)]
                (c0.at)(x, y) != (b.at)(x, y) implies out.draw(r).dirty->0.contains(x, y) by {
                if (c0.at)(x, y) != (a.at)(x, y) {
                    assert(q.contains(x, y));
                } else {
                    assert(r.contains(x, y));
                }
            }
        },
    }
}

/// The region that a successful update reports covers every pixel it changed;
/// an update that reports none changed nothing. A region that is reported is not
/// empty and lies on the canvas.
pub proof fn law_dirty_covers_changes(s: ProcessorView, data: Seq<u8>)
    ensures
        s.update(data).0.ok() ==> outcome_covers(
            s.update(data).2,
            s.canvas,
            s.update(data).1.canvas,
        ),
{
    let (d, total) = Reading::start(data).u16();
    if d.ok() {
        lemma_orders(s.canvas, s, d, total as nat, ProcessOutcome::zero());
    }
}

/// No update changes the size of the canvas.
pub proof fn law_update_keeps_size(s: ProcessorView, data: Seq<u8>)
    ensures
        s.update(data).1.canvas.width == s.canvas.width,
        s.update(data).1.canvas.height == s.canvas.height,
{
    let (d, total) = Reading::start(data).u16();
    if d.ok() {
        lemma_orders_keep_size(s, d, total as nat, ProcessOutcome::zero());
    }
}

proof fn lemma_orders_keep_size(s: ProcessorView, d: Reading, total: nat, out: ProcessOutcome)
    ensures
        s.orders(d, total, out).1.canvas.width == s.canvas.width,
        s.orders(d, total, out).1.canvas.height == s.canvas.height,
    decreases total - out.count(),
{
    if out.count() >= total || total > 0xffff || d.remaining() <= 0 {
    } else {
        let (d, control) = d.u8();
        if !flag_set(control, TS_STANDARD) {
            let (d, known) = ProcessorView::altsec(d, control);
            if d.ok() && known {
                lemma_orders_keep_size(s, d, total, out.skip());
            }
        } else if flag_set(control, TS_SECONDARY) {
            let (d, t) = s.secondary(d);
            if d.ok() {
                lemma_orders_keep_size(t, d, total, out.decode());
            }
        } else {
            lemma_primary(s, d, control);
            let (d, t, r) = s.primary(d, control);
            if d.ok() {
                lemma_orders_keep_size(t, d, total, out.draw(r));
            }
        }
    }
}

} // verus!
