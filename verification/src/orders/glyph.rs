//! Glyph / text orders (MS-RDPEGDI 2.2.2.2.1.1.2.13-15). Cached glyphs (1-bpp
//! bitmaps from Cache Glyph secondary orders) are blitted in the foreground
//! color along an advancing pen. A run may store the bytes it just played as a
//! fragment (0xFF) and replay a stored fragment (0xFE).

use crate::orders::cache::{Glyph, GlyphCache, GlyphCacheView, GlyphView};
use crate::orders::canvas::{max, min, CanvasView, OrderCanvas, Rect};
use crate::orders::color::rgba;
use crate::orders::cursor::{Cursor, Reading};
use crate::orders::error::OrderError;
use crate::orders::header::{coord, field, present};
use crate::wire::{le16, u16_le};
use vstd::prelude::*;

verus! {

/// How deep fragments may replay fragments.
pub const MAX_FRAGMENT_DEPTH: u8 = 8;

/// The pen delta at `i` and the position behind it: one byte, or the escape
/// 0x80 and two bytes. A delta that is cut off counts as 0.
pub open spec fn glyph_delta(data: Seq<u8>, i: int) -> (i32, int) {
    if i >= data.len() {
        (0, i)
    } else if data[i] != 0x80 {
        (data[i] as i32, i + 1)
    } else if i + 2 < data.len() {
        (le16(data[i + 1], data[i + 2]) as i32, i + 3)
    } else {
        (0, i + 1)
    }
}

/// Read a glyph-run advance/delta byte (0x80 escape: 2-byte LE value).
fn read_glyph_delta(data: &[u8], i: &mut usize) -> (r: i32)
    requires
        *old(i) <= data@.len(),
    ensures
        (r, *final(i) as int) == glyph_delta(data@, *old(i) as int),
        *old(i) <= *final(i) <= data@.len(),
{
    if *i >= data.len() {
        return 0;
    }
    let b: u8 = data[*i];
    *i = *i + 1;
    if b == 0x80 {
        if data.len() - *i > 1 {
            let v: i32 = u16_le(data[*i], data[*i + 1]) as i32;
            *i = *i + 2;
            v
        } else {
            0
        }
    } else {
        b as i32
    }
}

/// How a run of glyphs is drawn: the clip, the glyph cache it draws from, the
/// fixed advance (0: each glyph is followed by its own), the color and the
/// baseline.
pub struct Pen {
    pub clip: Option<Rect>,
    pub cache_id: usize,
    pub ul_char_inc: u8,
    pub fore: [u8; 4],
    pub y: i32,
}

/// A run being drawn: the canvas, the cache, the pen position and the box of
/// what has been drawn so far.
#[verifier::ext_equal]
pub struct Run {
    pub canvas: CanvasView,
    pub cache: GlyphCacheView,
    pub gx: i32,
    pub dirty: Rect,
}

impl Run {
    /// Draw one cached glyph at the pen.
    pub open spec fn glyph(self, pen: Pen, g: GlyphView) -> Run {
        let x = self.gx.wrapping_add(g.x as i32);
        let y = pen.y.wrapping_add(g.y as i32);
        let r = self.canvas.clip(Rect { x, y, w: g.cx as i32, h: g.cy as i32 }, pen.clip);
        Run {
            canvas: self.canvas.glyph(x, y, g.cx, g.cy, g.aj, pen.clip, rgba(pen.fore)),
            dirty: if r.empty() {
                self.dirty
            } else {
                self.dirty.join(r)
            },
            ..self
        }
    }

    pub open spec fn advance(self, by: i32) -> Run {
        Run { gx: self.gx.wrapping_add(by), ..self }
    }

    /// Play the glyph bytes of `data` from `i` on. Fragments replay fragments up
    /// to a fixed depth.
    pub open spec fn play(self, pen: Pen, data: Seq<u8>, i: int, depth: nat) -> Run
        decreases MAX_FRAGMENT_DEPTH + 1 - depth, data.len() - i,
    {
        if depth > MAX_FRAGMENT_DEPTH || i >= data.len() {
            self
        } else if data[i] == 0xFF {
            if i + 2 < data.len() {
                let frag = data.subrange(max(i - data[i + 2], 0), i);
                Run { cache: self.cache.put_fragment(data[i + 1] as int, frag), ..self }.play(
                    pen,
                    data,
                    i + 3,
                    depth,
                )
            } else {
                self
            }
        } else if data[i] == 0xFE {
            if i + 1 >= data.len() {
                self
            } else {
                let (delta, j) = if pen.ul_char_inc == 0 {
                    glyph_delta(data, i + 2)
                } else {
                    (0i32, i + 2)
                };
                let replayed = match self.cache.fragment(data[i + 1] as int) {
                    Some(frag) => self.play(pen, frag, 0, depth + 1),
                    None => self,
                };
                replayed.advance(delta).play(pen, data, j, depth)
            }
        } else {
            let (delta, j) = if pen.ul_char_inc == 0 {
                glyph_delta(data, i + 1)
            } else {
                (pen.ul_char_inc as i32, i + 1)
            };
            match self.cache.get(pen.cache_id as int, data[i] as int) {
                Some(g) => self.glyph(pen, g).advance(delta).play(pen, data, j, depth),
                None => self.play(pen, data, j, depth),
            }
        }
    }
}

/// Playing glyph bytes keeps the size of the canvas, and a pixel outside the
/// clip is never touched.
pub proof fn law_text_stays_in_clip(
    run: Run,
    pen: Pen,
    data: Seq<u8>,
    i: int,
    depth: nat,
    x: int,
    y: int,
)
    ensures
        run.play(pen, data, i, depth).canvas.width == run.canvas.width,
        run.play(pen, data, i, depth).canvas.height == run.canvas.height,
        !crate::orders::canvas::within(pen.clip, x, y) ==> (run.play(
            pen,
            data,
            i,
            depth,
        ).canvas.at)(x, y) == (run.canvas.at)(x, y),
    decreases MAX_FRAGMENT_DEPTH + 1 - depth, data.len() - i,
{
    if depth > MAX_FRAGMENT_DEPTH || i >= data.len() {
    } else if data[i] == 0xFF {
        if i + 2 < data.len() {
            let frag = data.subrange(max(i - data[i + 2], 0), i);
            let next = Run { cache: run.cache.put_fragment(data[i + 1] as int, frag), ..run };
            law_text_stays_in_clip(next, pen, data, i + 3, depth, x, y);
        }
    } else if data[i] == 0xFE {
        if i + 1 < data.len() {
            let (delta, j) = if pen.ul_char_inc == 0 {
                glyph_delta(data, i + 2)
            } else {
                (0i32, i + 2)
            };
            match run.cache.fragment(data[i + 1] as int) {
                Some(frag) => {
                    law_text_stays_in_clip(run, pen, frag, 0, depth + 1, x, y);
                    let replayed = run.play(pen, frag, 0, depth + 1);
                    law_text_stays_in_clip(replayed.advance(delta), pen, data, j, depth, x, y);
                },
                None => {
                    law_text_stays_in_clip(run.advance(delta), pen, data, j, depth, x, y);
                },
            }
        }
    } else {
        let (delta, j) = if pen.ul_char_inc == 0 {
            glyph_delta(data, i + 1)
        } else {
            (pen.ul_char_inc as i32, i + 1)
        };
        match run.cache.get(pen.cache_id as int, data[i] as int) {
            Some(g) => {
                law_text_stays_in_clip(
                    run.glyph(pen, g).advance(delta),
                    pen,
                    data,
                    j,
                    depth,
                    x,
                    y,
                );
            },
            None => {
                law_text_stays_in_clip(run, pen, data, j, depth, x, y);
            },
        }
    }
}

/// Render a glyph-fragment byte stream: each index draws a cached glyph and
/// advances the pen (by `ul_char_inc`, or a trailing delta when it is 0). The
/// `0xFF` escape caches the preceding bytes as a fragment; `0xFE` replays a
/// cached fragment. Recursion is depth-limited as a safety guard.
fn process_glyph_bytes(
    canvas: &mut OrderCanvas,
    cache: &mut GlyphCache,
    pen: &Pen,
    data: &[u8],
    gx: &mut i32,
    dirty: &mut Rect,
    depth: u8,
)
    requires
        old(canvas).wf(),
        depth <= MAX_FRAGMENT_DEPTH + 1,
    ensures
        final(canvas).wf(),
        (Run { canvas: final(canvas)@, cache: final(cache)@, gx: *final(gx), dirty: *final(dirty) })
            == (Run { canvas: old(canvas)@, cache: old(cache)@, gx: *old(gx), dirty: *old(dirty) })
            .play(*pen, data@, 0, depth as nat),
    decreases MAX_FRAGMENT_DEPTH + 1 - depth,
{
    if depth > MAX_FRAGMENT_DEPTH {
        return;
    }
    let ghost start = Run { canvas: canvas@, cache: cache@, gx: *gx, dirty: *dirty };
    let mut i: usize = 0;
    while i < data.len()
        invariant_except_break
            start.play(*pen, data@, 0, depth as nat) == (Run {
                canvas: canvas@,
                cache: cache@,
                gx: *gx,
                dirty: *dirty,
            }).play(*pen, data@, i as int, depth as nat),
        invariant
            canvas.wf(),
            i <= data@.len(),
            depth <= MAX_FRAGMENT_DEPTH,
        ensures
            start.play(*pen, data@, 0, depth as nat) == (Run {
                canvas: canvas@,
                cache: cache@,
                gx: *gx,
                dirty: *dirty,
            }),
        decreases data@.len() - i,
    {
        let b: u8 = data[i];
        i = i + 1;
        if b == 0xFF {
            // ADD: id, size. Cache the `size` bytes immediately preceding this
            // escape under fragment id.
            if data.len() - i <= 1 {
                break;
            }
            let id: usize = data[i] as usize;
            let size: usize = data[i + 1] as usize;
            let frag_end: usize = i - 1;
            let frag_start: usize = if frag_end >= size {
                frag_end - size
            } else {
                0
            };
            let frag: &[u8] = vstd::slice::slice_subrange(data, frag_start, frag_end);
            cache.put_fragment(id, frag);
            i = i + 2;
        } else if b == 0xFE {
            // USE: id and, without a fixed advance, a delta. Replay the fragment.
            if i >= data.len() {
                break;
            }
            let id: usize = data[i] as usize;
            i = i + 1;
            let delta: i32 = if pen.ul_char_inc == 0 {
                read_glyph_delta(data, &mut i)
            } else {
                0
            };
            let frag: Option<Vec<u8>> = match cache.fragment(id) {
                Some(f) => Some(vstd::slice::slice_to_vec(f)),
                None => None,
            };
            match frag {
                Some(f) => process_glyph_bytes(
                    canvas,
                    cache,
                    pen,
                    f.as_slice(),
                    gx,
                    dirty,
                    depth + 1,
                ),
                None => {},
            }
            *gx = (*gx).wrapping_add(delta);
        } else {
            let mut adv: i32 = 0;
            match cache.get(pen.cache_id, b as usize) {
                Some(g) => {
                    let r = canvas.blit_glyph(
                        (*gx).wrapping_add(g.x as i32),
                        pen.y.wrapping_add(g.y as i32),
                        g.cx,
                        g.cy,
                        g.aj.as_slice(),
                        pen.clip,
                        pen.fore,
                    );
                    if !r.is_empty() {
                        *dirty = dirty.union(&r);
                    }
                    adv = if pen.ul_char_inc != 0 {
                        pen.ul_char_inc as i32
                    } else {
                        read_glyph_delta(data, &mut i)
                    };
                    *gx = (*gx).wrapping_add(adv);
                },
                None => {
                    if pen.ul_char_inc == 0 {
                        let _skipped: i32 = read_glyph_delta(data, &mut i);
                    }
                },
            }
        }
    }
}

/// The text background: an inclusive box, filled unless it is empty. The
/// canvas afterwards and the box that was touched.
pub open spec fn text_background(
    canvas: CanvasView,
    clip: Option<Rect>,
    bk: [i32; 4],
    color: [u8; 4],
) -> (CanvasView, Rect) {
    if bk[2] > bk[0] && bk[3] > bk[1] {
        let rect = Rect::inclusive(bk[0], bk[1], bk[2], bk[3]);
        (canvas.fill(rect, clip, rgba(color)), canvas.clip(rect, clip))
    } else {
        (canvas, Rect { x: 0, y: 0, w: 0, h: 0 })
    }
}

/// Fill the text background box with `color` (inclusive coords), then return
/// it as a dirty seed. A zero/empty box is ignored.
fn fill_text_bg(canvas: &mut OrderCanvas, clip: Option<Rect>, bk: [i32; 4], color: [u8; 4]) -> (r:
    Rect)
    requires
        old(canvas).wf(),
    ensures
        final(canvas).wf(),
        (final(canvas)@, r) == text_background(old(canvas)@, clip, bk, color),
{
    if bk[2] > bk[0] && bk[3] > bk[1] {
        canvas.fill_rect(Rect::from_inclusive(bk[0], bk[1], bk[2], bk[3]), clip, color)
    } else {
        Rect::new(0, 0, 0, 0)
    }
}

/// A text order: its background, then its glyph run from `x` on. The canvas and
/// the glyph cache afterwards, and the box around all that was touched.
pub open spec fn text_drawn(
    canvas: CanvasView,
    cache: GlyphCacheView,
    pen: Pen,
    bk: [i32; 4],
    back: [u8; 4],
    x: i32,
    data: Seq<u8>,
) -> (CanvasView, GlyphCacheView, Rect) {
    let (filled, bg) = text_background(canvas, pen.clip, bk, back);
    let run = Run { canvas: filled, cache, gx: x, dirty: Rect { x: 0, y: 0, w: 0, h: 0 } }.play(
        pen,
        data,
        0,
        0,
    );
    (run.canvas, run.cache, bg.join(run.dirty))
}

fn draw_text(
    canvas: &mut OrderCanvas,
    glyphs: &mut GlyphCache,
    pen: &Pen,
    bk: [i32; 4],
    back: [u8; 4],
    x: i32,
    data: &[u8],
) -> (r: Rect)
    requires
        old(canvas).wf(),
    ensures
        final(canvas).wf(),
        (final(canvas)@, final(glyphs)@, r) == text_drawn(
            old(canvas)@,
            old(glyphs)@,
            *pen,
            bk,
            back,
            x,
            data@,
        ),
{
    let bg = fill_text_bg(canvas, pen.clip, bk, back);
    let fg = draw_glyph_run(canvas, glyphs, pen, data, x);
    bg.union(&fg)
}

fn draw_glyph_run(
    canvas: &mut OrderCanvas,
    cache: &mut GlyphCache,
    pen: &Pen,
    data: &[u8],
    x: i32,
) -> (r: Rect)
    requires
        old(canvas).wf(),
    ensures
        final(canvas).wf(),
        ({
            let run = Run {
                canvas: old(canvas)@,
                cache: old(cache)@,
                gx: x,
                dirty: Rect { x: 0, y: 0, w: 0, h: 0 },
            }.play(*pen, data@, 0, 0);
            final(canvas)@ == run.canvas && final(cache)@ == run.cache && r == run.dirty
        }),
{
    let mut gx: i32 = x;
    let mut dirty = Rect::new(0, 0, 0, 0);
    process_glyph_bytes(canvas, cache, pen, data, &mut gx, &mut dirty, 0);
    dirty
}

impl Reading {
    /// A byte count and that many bytes, or as many as are left.
    #[verifier::opaque]
    pub open spec fn counted(self, old: Seq<u8>) -> (Reading, Seq<u8>) {
        let (d, n) = self.u8();
        if d.ok() {
            d.bytes(min(n as int, d.remaining()))
        } else {
            (d, old)
        }
    }

    /// Four coordinates in a row, the first at field `bit`.
    #[verifier::opaque]
    pub open spec fn coords4(self, ff: u32, bit: u32, delta: bool, old: [i32; 4]) -> (
        Reading,
        [i32; 4],
    ) {
        let (d, a) = self.coord(ff, bit, delta, old[0]);
        let (d, b) = d.coord(ff, (bit + 1) as u32, delta, old[1]);
        let (d, e) = d.coord(ff, (bit + 2) as u32, delta, old[2]);
        let (d, f) = d.coord(ff, (bit + 3) as u32, delta, old[3]);
        if self.ok() {
            (d, [a, b, e, f])
        } else {
            (self, old)
        }
    }
}

broadcast proof fn lemma_coords4_stuck(d: Reading, ff: u32, bit: u32, delta: bool, old: [i32; 4])
    requires
        !d.ok(),
    ensures
        #[trigger] d.coords4(ff, bit, delta, old) == (d, old),
{
    reveal(Reading::coords4);
}

broadcast proof fn lemma_counted_stuck(d: Reading, old: Seq<u8>)
    requires
        !d.ok(),
    ensures
        #[trigger] d.counted(old) == (d, old),
{
    reveal(Reading::counted);
}

fn coords4(ff: u32, bit: u32, c: &mut Cursor, delta: bool, slot: &mut [i32; 4]) -> (r: Result<
    (),
    OrderError,
>)
    requires
        old(c)@.live(),
        bit < 28,
    ensures
        final(c)@.live(),
        final(c)@ == (Reading { err: None, ..old(c)@.coords4(ff, bit, delta, *old(slot)).0 }),
        *final(slot) == old(c)@.coords4(ff, bit, delta, *old(slot)).1,
        r == old(c)@.coords4(ff, bit, delta, *old(slot)).0.outcome(()),
{
    proof {
        reveal(Reading::coords4);
    }
    let mut a: i32 = slot[0];
    let mut b: i32 = slot[1];
    let mut e: i32 = slot[2];
    let mut f: i32 = slot[3];
    let mut r = coord(ff, bit, c, delta, &mut a);
    if r.is_ok() {
        r = coord(ff, bit + 1, c, delta, &mut b);
    }
    if r.is_ok() {
        r = coord(ff, bit + 2, c, delta, &mut e);
    }
    if r.is_ok() {
        r = coord(ff, bit + 3, c, delta, &mut f);
    }
    *slot = [a, b, e, f];
    r
}

fn counted(c: &mut Cursor, slot: &mut Vec<u8>) -> (r: Result<(), OrderError>)
    requires
        old(c)@.live(),
    ensures
        final(c)@.live(),
        final(c)@ == (Reading { err: None, ..old(c)@.counted(old(slot)@).0 }),
        final(slot)@ == old(c)@.counted(old(slot)@).1,
        r == old(c)@.counted(old(slot)@).0.outcome(()),
{
    proof {
        reveal(Reading::counted);
    }
    let n: usize = c.u8()? as usize;
    let left: usize = c.remaining();
    let take: usize = if n <= left {
        n
    } else {
        left
    };
    let bytes: &[u8] = c.bytes(take)?;
    *slot = vstd::slice::slice_to_vec(bytes);
    Ok(())
}

/// GlyphIndex order (0x1B): the full text order.
#[derive(Debug, Clone)]
pub struct GlyphIndex {
    pub cache_id: u8,
    pub fl_accel: u8,
    pub ul_char_inc: u8,
    pub fop_redundant: u8,
    pub back_color: [u8; 4],
    pub fore_color: [u8; 4],
    pub bk: [i32; 4],
    pub op: [i32; 4],
    pub brush_org_x: u8,
    pub brush_org_y: u8,
    pub brush_style: u8,
    pub brush_hatch: u8,
    pub x: i32,
    pub y: i32,
    pub data: Vec<u8>,
}

/// The fields of the order.
#[verifier::ext_equal]
pub struct GlyphIndexView {
    pub cache_id: u8,
    pub fl_accel: u8,
    pub ul_char_inc: u8,
    pub fop_redundant: u8,
    pub back_color: [u8; 4],
    pub fore_color: [u8; 4],
    pub bk: [i32; 4],
    pub op: [i32; 4],
    pub brush_org_x: u8,
    pub brush_org_y: u8,
    pub brush_style: u8,
    pub brush_hatch: u8,
    pub x: i32,
    pub y: i32,
    pub data: Seq<u8>,
}

impl GlyphIndexView {
    pub open spec fn zero() -> GlyphIndexView {
        GlyphIndexView {
            cache_id: 0,
            fl_accel: 0,
            ul_char_inc: 0,
            fop_redundant: 0,
            back_color: [0, 0, 0, 0],
            fore_color: [0, 0, 0, 0],
            bk: [0, 0, 0, 0],
            op: [0, 0, 0, 0],
            brush_org_x: 0,
            brush_org_y: 0,
            brush_style: 0,
            brush_hatch: 0,
            x: 0,
            y: 0,
            data: Seq::empty(),
        }
    }

    /// The fields after one order has been read.
    #[verifier::opaque]
    pub open spec fn decoded(self, d: Reading, ff: u32, delta: bool) -> (Reading, GlyphIndexView) {
        let (d, cache_id) = d.field(ff, 0, self.cache_id);
        let (d, fl_accel) = d.field(ff, 1, self.fl_accel);
        let (d, ul_char_inc) = d.field(ff, 2, self.ul_char_inc);
        let (d, fop_redundant) = d.field(ff, 3, self.fop_redundant);
        let (d, back_color) = d.field(ff, 4, self.back_color);
        let (d, fore_color) = d.field(ff, 5, self.fore_color);
        let (d, bk) = d.coords4(ff, 6, delta, self.bk);
        let (d, op) = d.coords4(ff, 10, delta, self.op);
        let (d, brush_org_x) = d.field(ff, 14, self.brush_org_x);
        let (d, brush_org_y) = d.field(ff, 15, self.brush_org_y);
        let (d, brush_style) = d.field(ff, 16, self.brush_style);
        let (d, brush_hatch) = d.field(ff, 17, self.brush_hatch);
        let d = if present(ff, 18) {
            d.skip(7)
        } else {
            d
        };
        let (d, x) = d.coord(ff, 19, delta, self.x);
        let (d, y) = d.coord(ff, 20, delta, self.y);
        let (d, data) = if present(ff, 21) {
            d.counted(self.data)
        } else {
            (d, self.data)
        };
        (
            d,
            GlyphIndexView {
                cache_id,
                fl_accel,
                ul_char_inc,
                fop_redundant,
                back_color,
                fore_color,
                bk,
                op,
                brush_org_x,
                brush_org_y,
                brush_style,
                brush_hatch,
                x,
                y,
                data,
            },
        )
    }
}

impl View for GlyphIndex {
    type V = GlyphIndexView;

    open spec fn view(&self) -> GlyphIndexView {
        GlyphIndexView {
            cache_id: self.cache_id,
            fl_accel: self.fl_accel,
            ul_char_inc: self.ul_char_inc,
            fop_redundant: self.fop_redundant,
            back_color: self.back_color,
            fore_color: self.fore_color,
            bk: self.bk,
            op: self.op,
            brush_org_x: self.brush_org_x,
            brush_org_y: self.brush_org_y,
            brush_style: self.brush_style,
            brush_hatch: self.brush_hatch,
            x: self.x,
            y: self.y,
            data: self.data@,
        }
    }
}

impl Default for GlyphIndex {
    fn default() -> (r: Self)
        ensures
            r@ == GlyphIndexView::zero(),
    {
        GlyphIndex {
            cache_id: 0,
            fl_accel: 0,
            ul_char_inc: 0,
            fop_redundant: 0,
            back_color: [0, 0, 0, 0],
            fore_color: [0, 0, 0, 0],
            bk: [0, 0, 0, 0],
            op: [0, 0, 0, 0],
            brush_org_x: 0,
            brush_org_y: 0,
            brush_style: 0,
            brush_hatch: 0,
            x: 0,
            y: 0,
            data: Vec::new(),
        }
    }
}

impl GlyphIndex {
    pub fn decode(&mut self, c: &mut Cursor, ff: u32, delta: bool) -> (r: Result<(), OrderError>)
        requires
            old(c)@.live(),
        ensures
            final(c)@.live(),
            final(c)@ == (Reading { err: None, ..old(self)@.decoded(old(c)@, ff, delta).0 }),
            final(self)@ == old(self)@.decoded(old(c)@, ff, delta).1,
            r == old(self)@.decoded(old(c)@, ff, delta).0.outcome(()),
    {
        proof {
            reveal(GlyphIndexView::decoded);
            broadcast use lemma_coords4_stuck, lemma_counted_stuck;

        }
        field(ff, 0, &mut self.cache_id, c)?;
        field(ff, 1, &mut self.fl_accel, c)?;
        field(ff, 2, &mut self.ul_char_inc, c)?;
        field(ff, 3, &mut self.fop_redundant, c)?;
        field(ff, 4, &mut self.back_color, c)?;
        field(ff, 5, &mut self.fore_color, c)?;
        coords4(ff, 6, c, delta, &mut self.bk)?;
        coords4(ff, 10, c, delta, &mut self.op)?;
        field(ff, 14, &mut self.brush_org_x, c)?;
        field(ff, 15, &mut self.brush_org_y, c)?;
        field(ff, 16, &mut self.brush_style, c)?;
        field(ff, 17, &mut self.brush_hatch, c)?;
        if ff & (1u32 << 18) != 0 {
            c.skip(7)?;
        }
        coord(ff, 19, c, delta, &mut self.x)?;
        coord(ff, 20, c, delta, &mut self.y)?;
        if ff & (1u32 << 21) != 0 {
            counted(c, &mut self.data)?;
        }
        Ok(())
    }

    pub fn draw(&self, canvas: &mut OrderCanvas, clip: Option<Rect>, glyphs: &mut GlyphCache) -> (r:
        Rect)
        requires
            old(canvas).wf(),
        ensures
            final(canvas).wf(),
            (final(canvas)@, final(glyphs)@, r) == self@.drawn(old(canvas)@, clip, old(glyphs)@),
    {
        let pen = Pen {
            clip,
            cache_id: self.cache_id as usize,
            ul_char_inc: self.ul_char_inc,
            fore: self.fore_color,
            y: self.y,
        };
        draw_text(canvas, glyphs, &pen, self.bk, self.back_color, self.x, self.data.as_slice())
    }
}

impl GlyphIndexView {
    /// Draw the order: the canvas and glyph cache afterwards, and the box of
    /// what was touched.
    pub open spec fn drawn(self, canvas: CanvasView, clip: Option<Rect>, glyphs: GlyphCacheView) -> (
        CanvasView,
        GlyphCacheView,
        Rect,
    ) {
        let pen = Pen {
            clip,
            cache_id: self.cache_id as usize,
            ul_char_inc: self.ul_char_inc,
            fore: self.fore_color,
            y: self.y,
        };
        text_drawn(canvas, glyphs, pen, self.bk, self.back_color, self.x, self.data)
    }
}

/// FastIndex order (0x13): compact text order (no brush / fOpRedundant).
#[derive(Debug, Clone)]
pub struct FastIndex {
    pub cache_id: u8,
    pub ul_char_inc: u8,
    pub fl_accel: u8,
    pub back_color: [u8; 4],
    pub fore_color: [u8; 4],
    pub bk: [i32; 4],
    pub op: [i32; 4],
    pub x: i32,
    pub y: i32,
    pub data: Vec<u8>,
}

/// The fields of the order.
#[verifier::ext_equal]
pub struct FastTextView {
    pub cache_id: u8,
    pub ul_char_inc: u8,
    pub fl_accel: u8,
    pub back_color: [u8; 4],
    pub fore_color: [u8; 4],
    pub bk: [i32; 4],
    pub op: [i32; 4],
    pub x: i32,
    pub y: i32,
    pub data: Seq<u8>,
}

impl FastTextView {
    pub open spec fn zero() -> FastTextView {
        FastTextView {
            cache_id: 0,
            ul_char_inc: 0,
            fl_accel: 0,
            back_color: [0, 0, 0, 0],
            fore_color: [0, 0, 0, 0],
            bk: [0, 0, 0, 0],
            op: [0, 0, 0, 0],
            x: 0,
            y: 0,
            data: Seq::empty(),
        }
    }

    /// The fields after one order has been read.
    #[verifier::opaque]
    pub open spec fn decoded(self, d: Reading, ff: u32, delta: bool) -> (Reading, FastTextView) {
        let (d, cache_id) = d.field(ff, 0, self.cache_id);
        let (d, ul_char_inc) = d.field(ff, 1, self.ul_char_inc);
        let (d, fl_accel) = d.field(ff, 1, self.fl_accel);
        let (d, back_color) = d.field(ff, 2, self.back_color);
        let (d, fore_color) = d.field(ff, 3, self.fore_color);
        let (d, bk) = d.coords4(ff, 4, delta, self.bk);
        let (d, op) = d.coords4(ff, 8, delta, self.op);
        let (d, x) = d.coord(ff, 12, delta, self.x);
        let (d, y) = d.coord(ff, 13, delta, self.y);
        let (d, data) = if present(ff, 14) {
            d.counted(self.data)
        } else {
            (d, self.data)
        };
        (
            d,
            FastTextView {
                cache_id,
                ul_char_inc,
                fl_accel,
                back_color,
                fore_color,
                bk,
                op,
                x,
                y,
                data,
            },
        )
    }
}

impl View for FastIndex {
    type V = FastTextView;

    open spec fn view(&self) -> FastTextView {
        FastTextView {
            cache_id: self.cache_id,
            ul_char_inc: self.ul_char_inc,
            fl_accel: self.fl_accel,
            back_color: self.back_color,
            fore_color: self.fore_color,
            bk: self.bk,
            op: self.op,
            x: self.x,
            y: self.y,
            data: self.data@,
        }
    }
}

impl Default for FastIndex {
    fn default() -> (r: Self)
        ensures
            r@ == FastTextView::zero(),
    {
        FastIndex {
            cache_id: 0,
            ul_char_inc: 0,
            fl_accel: 0,
            back_color: [0, 0, 0, 0],
            fore_color: [0, 0, 0, 0],
            bk: [0, 0, 0, 0],
            op: [0, 0, 0, 0],
            x: 0,
            y: 0,
            data: Vec::new(),
        }
    }
}

impl FastIndex {
    pub fn decode(&mut self, c: &mut Cursor, ff: u32, delta: bool) -> (r: Result<(), OrderError>)
        requires
            old(c)@.live(),
        ensures
            final(c)@.live(),
            final(c)@ == (Reading { err: None, ..old(self)@.decoded(old(c)@, ff, delta).0 }),
            final(self)@ == old(self)@.decoded(old(c)@, ff, delta).1,
            r == old(self)@.decoded(old(c)@, ff, delta).0.outcome(()),
    {
        proof {
            reveal(FastTextView::decoded);
            broadcast use lemma_coords4_stuck, lemma_counted_stuck;

        }
        field(ff, 0, &mut self.cache_id, c)?;
        // One flag for two bytes: the advance, then the acceleration flags.
        field(ff, 1, &mut self.ul_char_inc, c)?;
        field(ff, 1, &mut self.fl_accel, c)?;
        field(ff, 2, &mut self.back_color, c)?;
        field(ff, 3, &mut self.fore_color, c)?;
        coords4(ff, 4, c, delta, &mut self.bk)?;
        coords4(ff, 8, c, delta, &mut self.op)?;
        coord(ff, 12, c, delta, &mut self.x)?;
        coord(ff, 13, c, delta, &mut self.y)?;
        if ff & (1u32 << 14) != 0 {
            counted(c, &mut self.data)?;
        }
        Ok(())
    }

    pub fn draw(&self, canvas: &mut OrderCanvas, clip: Option<Rect>, glyphs: &mut GlyphCache) -> (r:
        Rect)
        requires
            old(canvas).wf(),
        ensures
            final(canvas).wf(),
            (final(canvas)@, final(glyphs)@, r) == self@.drawn(old(canvas)@, clip, old(glyphs)@),
    {
        let pen = Pen {
            clip,
            cache_id: self.cache_id as usize,
            ul_char_inc: self.ul_char_inc,
            fore: self.fore_color,
            y: self.y,
        };
        draw_text(canvas, glyphs, &pen, self.bk, self.back_color, self.x, self.data.as_slice())
    }
}

impl FastTextView {
    /// Draw the order: the canvas and glyph cache afterwards, and the box of
    /// what was touched.
    pub open spec fn drawn(self, canvas: CanvasView, clip: Option<Rect>, glyphs: GlyphCacheView) -> (
        CanvasView,
        GlyphCacheView,
        Rect,
    ) {
        let pen = Pen {
            clip,
            cache_id: self.cache_id as usize,
            ul_char_inc: self.ul_char_inc,
            fore: self.fore_color,
            y: self.y,
        };
        text_drawn(canvas, glyphs, pen, self.bk, self.back_color, self.x, self.data)
    }
}

/// FastGlyph order (0x18): like FastIndex but the data carries one inline glyph
/// (cached under `cache_id` and its index, and drawn once).
#[derive(Debug, Clone)]
pub struct FastGlyph {
    pub cache_id: u8,
    pub ul_char_inc: u8,
    pub fl_accel: u8,
    pub back_color: [u8; 4],
    pub fore_color: [u8; 4],
    pub bk: [i32; 4],
    pub op: [i32; 4],
    pub x: i32,
    pub y: i32,
    pub data: Vec<u8>,
}

impl View for FastGlyph {
    type V = FastTextView;

    open spec fn view(&self) -> FastTextView {
        FastTextView {
            cache_id: self.cache_id,
            ul_char_inc: self.ul_char_inc,
            fl_accel: self.fl_accel,
            back_color: self.back_color,
            fore_color: self.fore_color,
            bk: self.bk,
            op: self.op,
            x: self.x,
            y: self.y,
            data: self.data@,
        }
    }
}

impl Default for FastGlyph {
    fn default() -> (r: Self)
        ensures
            r@ == FastTextView::zero(),
    {
        FastGlyph {
            cache_id: 0,
            ul_char_inc: 0,
            fl_accel: 0,
            back_color: [0, 0, 0, 0],
            fore_color: [0, 0, 0, 0],
            bk: [0, 0, 0, 0],
            op: [0, 0, 0, 0],
            x: 0,
            y: 0,
            data: Vec::new(),
        }
    }
}

impl FastGlyph {
    pub fn decode(&mut self, c: &mut Cursor, ff: u32, delta: bool) -> (r: Result<(), OrderError>)
        requires
            old(c)@.live(),
        ensures
            final(c)@.live(),
            final(c)@ == (Reading { err: None, ..old(self)@.decoded(old(c)@, ff, delta).0 }),
            final(self)@ == old(self)@.decoded(old(c)@, ff, delta).1,
            r == old(self)@.decoded(old(c)@, ff, delta).0.outcome(()),
    {
        proof {
            reveal(FastTextView::decoded);
            broadcast use lemma_coords4_stuck, lemma_counted_stuck;

        }
        field(ff, 0, &mut self.cache_id, c)?;
        // One flag for two bytes: the advance, then the acceleration flags.
        field(ff, 1, &mut self.ul_char_inc, c)?;
        field(ff, 1, &mut self.fl_accel, c)?;
        field(ff, 2, &mut self.back_color, c)?;
        field(ff, 3, &mut self.fore_color, c)?;
        coords4(ff, 4, c, delta, &mut self.bk)?;
        coords4(ff, 8, c, delta, &mut self.op)?;
        coord(ff, 12, c, delta, &mut self.x)?;
        coord(ff, 13, c, delta, &mut self.y)?;
        if ff & (1u32 << 14) != 0 {
            counted(c, &mut self.data)?;
        }
        Ok(())
    }

    /// Draws (and caches) the inline glyph. `data` is the cache index and then, if
    /// more bytes follow, a glyph (x, y, cx, cy, bits) to cache and draw.
    pub fn draw(&self, canvas: &mut OrderCanvas, clip: Option<Rect>, glyphs: &mut GlyphCache) -> (r:
        Rect)
        requires
            old(canvas).wf(),
        ensures
            final(canvas).wf(),
            (final(canvas)@, final(glyphs)@, r) == self@.inline_drawn(
                old(canvas)@,
                clip,
                old(glyphs)@,
            ),
    {
        let mut dirty = fill_text_bg(canvas, clip, self.bk, self.back_color);
        if self.data.len() >= 1 {
            let cache_index: usize = self.data[0] as usize;
            if self.data.len() >= 9 {
                let gx: i16 = u16_le(self.data[1], self.data[2]) as i16;
                let gy: i16 = u16_le(self.data[3], self.data[4]) as i16;
                let cx: u16 = u16_le(self.data[5], self.data[6]);
                let cy: u16 = u16_le(self.data[7], self.data[8]);
                let aj: &[u8] = vstd::slice::slice_subrange(
                    self.data.as_slice(),
                    9,
                    self.data.len(),
                );
                let r = canvas.blit_glyph(
                    self.x.wrapping_add(gx as i32),
                    self.y.wrapping_add(gy as i32),
                    cx,
                    cy,
                    aj,
                    clip,
                    self.fore_color,
                );
                let glyph = Glyph { x: gx, y: gy, cx, cy, aj: vstd::slice::slice_to_vec(aj) };
                glyphs.insert(self.cache_id as usize, cache_index, glyph);
                if !r.is_empty() {
                    dirty = dirty.union(&r);
                }
            } else {
                match glyphs.get(self.cache_id as usize, cache_index) {
                    Some(g) => {
                        let r = canvas.blit_glyph(
                            self.x.wrapping_add(g.x as i32),
                            self.y.wrapping_add(g.y as i32),
                            g.cx,
                            g.cy,
                            g.aj.as_slice(),
                            clip,
                            self.fore_color,
                        );
                        if !r.is_empty() {
                            dirty = dirty.union(&r);
                        }
                    },
                    None => {},
                }
            }
        }
        dirty
    }
}

/// The glyph that inline data describes behind the cache index.
pub open spec fn inline_glyph(data: Seq<u8>) -> GlyphView {
    GlyphView {
        x: le16(data[1], data[2]) as i16,
        y: le16(data[3], data[4]) as i16,
        cx: le16(data[5], data[6]),
        cy: le16(data[7], data[8]),
        aj: data.subrange(9, data.len() as int),
    }
}

impl FastTextView {
    /// Draw a FastGlyph order: the background, then the inline glyph (which is
    /// cached) or, without one, the cached glyph. The canvas and glyph cache
    /// afterwards, and the box of what was touched.
    pub open spec fn inline_drawn(
        self,
        canvas: CanvasView,
        clip: Option<Rect>,
        glyphs: GlyphCacheView,
    ) -> (CanvasView, GlyphCacheView, Rect) {
        let (filled, bg) = text_background(canvas, clip, self.bk, self.back_color);
        let pen = Pen {
            clip,
            cache_id: self.cache_id as usize,
            ul_char_inc: self.ul_char_inc,
            fore: self.fore_color,
            y: self.y,
        };
        let run = Run { canvas: filled, cache: glyphs, gx: self.x, dirty: bg };
        if self.data.len() == 0 {
            (filled, glyphs, bg)
        } else if self.data.len() >= 9 {
            let g = inline_glyph(self.data);
            let drawn = run.glyph(pen, g);
            (
                drawn.canvas,
                glyphs.insert(self.cache_id as int, self.data[0] as int, g),
                drawn.dirty,
            )
        } else {
            match glyphs.get(self.cache_id as int, self.data[0] as int) {
                Some(g) => (run.glyph(pen, g).canvas, glyphs, run.glyph(pen, g).dirty),
                None => (filled, glyphs, bg),
            }
        }
    }
}

} // verus!
