//! Where the glyphs of text orders stand.

use crate::orders::cache::GlyphView;
use crate::orders::canvas::{glyph_bit, CanvasView, Rect};
use crate::orders::cursor::Reading;
use crate::orders::effects::reachable;
use crate::orders::glyph::{glyph_delta, Pen, Run};
use crate::orders::processor::ProcessorView;
use crate::wire::{bit_of_byte, lemma_bit_of_byte};
use vstd::prelude::*;

verus! {

/// A glyph of a run and how far the pen moves behind it.
pub struct Placed {
    pub index: u8,
    pub advance: nat,
}

/// An advance on the wire: one byte, or the escape and two bytes, the low one first.
pub open spec fn advance_bytes(a: nat) -> Seq<u8> {
    if a < 256 && a != 0x80 {
        seq![a as u8]
    } else {
        seq![0x80u8, (a % 256) as u8, (a / 256) as u8]
    }
}

/// The bytes of a run. With a fixed advance (`inc` is not 0) no advances are written.
pub open spec fn run_bytes(run: Seq<Placed>, inc: u8) -> Seq<u8>
    decreases run.len(),
{
    if run.len() == 0 {
        Seq::empty()
    } else {
        seq![run[0].index] + (if inc == 0 {
            advance_bytes(run[0].advance)
        } else {
            Seq::empty()
        }) + run_bytes(run.skip(1), inc)
    }
}

/// How far the pen moves behind a glyph.
pub open spec fn step(p: Placed, inc: u8) -> int {
    if inc == 0 {
        p.advance as int
    } else {
        inc as int
    }
}

/// How far the pen is from the start before glyph `k`.
pub open spec fn pen_at(run: Seq<Placed>, inc: u8, k: int) -> int
    decreases k,
{
    if k <= 0 {
        0
    } else {
        pen_at(run, inc, k - 1) + step(run[k - 1], inc)
    }
}

/// Whether a glyph has a set bit at `(u, v)`, counted from its top left. Its rows are of
/// whole bytes, the leftmost pixel highest; bits that are missing are not set.
pub open spec fn inked(g: GlyphView, u: int, v: int) -> bool {
    let i = v * ((g.cx + 7) / 8) + u / 8;
    0 <= u < g.cx && 0 <= v < g.cy && i < g.aj.len() && bit_of_byte(g.aj[i], u % 8)
}

/// Whether glyph `k` of a run that starts at `(x, y)` has ink at the pixel.
pub open spec fn ink_of(
    run: Seq<Placed>,
    inc: u8,
    glyphs: Seq<GlyphView>,
    x: int,
    y: int,
    k: int,
    px: int,
    py: int,
) -> bool {
    inked(glyphs[k], px - (x + pen_at(run, inc, k) + glyphs[k].x), py - (y + glyphs[k].y))
}

/// Whether the run has ink at the pixel.
pub open spec fn run_inks(
    run: Seq<Placed>,
    inc: u8,
    glyphs: Seq<GlyphView>,
    x: int,
    y: int,
    px: int,
    py: int,
) -> bool {
    exists|k: int|
        0 <= k < run.len() && #[trigger] ink_of(run, inc, glyphs, x, y, k, px, py)
}

/// Whether the glyphs of the run are those, and all plain: no escapes, and with
/// advances that can be written.
pub open spec fn drawable(
    run: Seq<Placed>,
    inc: u8,
    glyphs: Seq<GlyphView>,
    cells: Map<(int, int), GlyphView>,
    cache: int,
) -> bool {
    &&& glyphs.len() == run.len()
    &&& forall|k: int|
        #![trigger run[k]]
        0 <= k < run.len() ==> run[k].index < 0xFE && run[k].advance < 65536 && cells.dom().contains(
            (cache, run[k].index as int),
        ) && cells[(cache, run[k].index as int)] == glyphs[k]
}

proof fn lemma_glyph_pixel(run: Run, pen: Pen, g: GlyphView, px: int, py: int)
    requires
        -0x4000_0000 <= run.gx <= 0x4000_0000,
        -0x4000_0000 <= pen.y <= 0x4000_0000,
    ensures
        ({
            let t = run.glyph(pen, g);
            &&& t.gx == run.gx
            &&& t.cache == run.cache
            &&& t.canvas.width == run.canvas.width
            &&& t.canvas.height == run.canvas.height
            &&& (t.canvas.at)(px, py) == (if reachable(
                run.canvas,
                pen.clip,
                px,
                py,
                px,
                py,
                1,
                1,
            ) && inked(g, px - (run.gx + g.x), py - (pen.y + g.y)) {
                (pen.fore[0], pen.fore[1], pen.fore[2], 0xffu8)
            } else {
                (run.canvas.at)(px, py)
            })
        }),
{
    let x = run.gx.wrapping_add(g.x as i32);
    let y = pen.y.wrapping_add(g.y as i32);
    assert(x == run.gx + g.x && y == pen.y + g.y);
    let (u, v) = (px - x, py - y);
    let i = v * ((g.cx + 7) / 8) + u / 8;
    if 0 <= u < g.cx && 0 <= v < g.cy {
        assert(0 <= v * ((g.cx + 7) / 8)) by (nonlinear_arith)
            requires
                0 <= v,
                0 <= (g.cx + 7) / 8,
        ;
        if i < g.aj.len() {
            lemma_bit_of_byte(g.aj[i], u % 8);
        }
    }
    assert(glyph_bit(g.aj, g.cx as int, u, v) && 0 <= u < g.cx && 0 <= v < g.cy <==> inked(g, u, v));
}

pub proof fn lemma_pen_at(run: Seq<Placed>, inc: u8, k: int)
    requires
        1 <= k <= run.len(),
    ensures
        pen_at(run, inc, k) == step(run[0], inc) + pen_at(run.skip(1), inc, k - 1),
    decreases k,
{
    if k > 1 {
        lemma_pen_at(run, inc, k - 1);
        assert(run.skip(1)[k - 2] == run[k - 1]);
    } else {
        assert(pen_at(run, inc, 0) == 0);
        assert(pen_at(run.skip(1), inc, 0) == 0);
    }
}

proof fn lemma_play(
    s: Run,
    pen: Pen,
    data: Seq<u8>,
    i: int,
    depth: nat,
    run: Seq<Placed>,
    glyphs: Seq<GlyphView>,
    px: int,
    py: int,
)
    requires
        depth <= 8,
        0 <= i <= data.len(),
        data.skip(i) == run_bytes(run, pen.ul_char_inc),
        drawable(run, pen.ul_char_inc, glyphs, s.cache.cells, pen.cache_id as int),
        -0x2000_0000 <= s.gx,
        s.gx + 0x10000 * run.len() <= 0x4000_0000,
        -0x4000_0000 <= pen.y <= 0x4000_0000,
    ensures
        ({
            let t = s.play(pen, data, i, depth);
            &&& t.gx == s.gx + pen_at(run, pen.ul_char_inc, run.len() as int)
            &&& t.cache == s.cache
            &&& t.canvas.width == s.canvas.width
            &&& t.canvas.height == s.canvas.height
            &&& (t.canvas.at)(px, py) == (if reachable(
                s.canvas,
                pen.clip,
                px,
                py,
                px,
                py,
                1,
                1,
            ) && run_inks(run, pen.ul_char_inc, glyphs, s.gx as int, pen.y as int, px, py) {
                (pen.fore[0], pen.fore[1], pen.fore[2], 0xffu8)
            } else {
                (s.canvas.at)(px, py)
            })
        }),
    decreases run.len(),
{
    let inc = pen.ul_char_inc;
    if run.len() == 0 {
        assert(data.skip(i).len() == 0);
        assert(pen_at(run, inc, 0) == 0);
    } else {
        let p = run[0];
        let g = glyphs[0];
        let rest = run.skip(1);
        let adv = if inc == 0 {
            advance_bytes(p.advance)
        } else {
            Seq::empty()
        };
        let tail = data.skip(i);
        assert(tail =~= seq![p.index] + adv + run_bytes(rest, inc));
        assert(data[i] == tail[0]);
        let j = i + 1 + adv.len();
        assert(data.skip(j) =~= run_bytes(rest, inc)) by {
            assert(data.skip(j) =~= tail.skip(1 + adv.len() as int));
        }
        let delta = step(p, inc) as i32;
        if inc == 0 {
            assert(data[i + 1] == tail[1] && tail[1] == adv[0]);
            if adv.len() == 3 {
                assert(data[i + 2] == tail[2] && tail[2] == adv[1]);
                assert(data[i + 3] == tail[3] && tail[3] == adv[2]);
            }
            assert(glyph_delta(data, i + 1) == (delta, j));
        }
        lemma_glyph_pixel(s, pen, g, px, py);
        let next = s.glyph(pen, g).advance(delta);
        assert(next.gx == s.gx + step(p, inc));
        let more = glyphs.skip(1);
        assert forall|k: int|
            #![trigger rest[k]]
            0 <= k < rest.len() implies rest[k].index < 0xFE && rest[k].advance < 65536
            && s.cache.cells.dom().contains((pen.cache_id as int, rest[k].index as int))
            && s.cache.cells[(pen.cache_id as int, rest[k].index as int)] == more[k] by {
            assert(rest[k] == run[k + 1]);
        }
        lemma_play(next, pen, data, j, depth, rest, more, px, py);
        lemma_pen_at(run, inc, run.len() as int);
        assert(s.cache.get(pen.cache_id as int, data[i] as int) == Some(g));
        assert(s.play(pen, data, i, depth) == next.play(pen, data, j, depth));
        let here = ink_of(run, inc, glyphs, s.gx as int, pen.y as int, 0, px, py);
        assert(pen_at(run, inc, 0) == 0);
        let later = run_inks(rest, inc, more, next.gx as int, pen.y as int, px, py);
        assert(run_inks(run, inc, glyphs, s.gx as int, pen.y as int, px, py) == (here || later)) by {
            assert forall|k: int| 0 <= k < rest.len() implies #[trigger] ink_of(
                rest,
                inc,
                more,
                next.gx as int,
                pen.y as int,
                k,
                px,
                py,
            ) == ink_of(run, inc, glyphs, s.gx as int, pen.y as int, k + 1, px, py) by {
                lemma_pen_at(run, inc, k + 1);
                assert(more[k] == glyphs[k + 1]);
            }
            if run_inks(run, inc, glyphs, s.gx as int, pen.y as int, px, py) && !here {
                let k = choose|k: int|
                    0 <= k < run.len() && #[trigger] ink_of(
                        run,
                        inc,
                        glyphs,
                        s.gx as int,
                        pen.y as int,
                        k,
                        px,
                        py,
                    );
                assert(ink_of(rest, inc, more, next.gx as int, pen.y as int, k - 1, px, py));
            }
            if later {
                let k = choose|k: int|
                    0 <= k < rest.len() && #[trigger] ink_of(
                        rest,
                        inc,
                        more,
                        next.gx as int,
                        pen.y as int,
                        k,
                        px,
                        py,
                    );
                assert(ink_of(run, inc, glyphs, s.gx as int, pen.y as int, k + 1, px, py));
            }
        }
    }
}

/// Glyphs stand one behind the other: glyph `k` has its left edge at the start of the
/// run, plus all advances before it, plus its own offset. Exactly the pixels with ink
/// that the canvas and the clip let through take the color, and the pen ends behind the
/// last advance. With a fixed advance each glyph is followed by that one.
pub proof fn law_glyphs_stand_in_a_row(
    s: Run,
    pen: Pen,
    depth: nat,
    run: Seq<Placed>,
    glyphs: Seq<GlyphView>,
    px: int,
    py: int,
)
    requires
        depth <= 8,
        drawable(run, pen.ul_char_inc, glyphs, s.cache.cells, pen.cache_id as int),
        -0x2000_0000 <= s.gx,
        s.gx + 0x10000 * run.len() <= 0x4000_0000,
        -0x4000_0000 <= pen.y <= 0x4000_0000,
    ensures
        ({
            let t = s.play(pen, run_bytes(run, pen.ul_char_inc), 0, depth);
            &&& t.gx == s.gx + pen_at(run, pen.ul_char_inc, run.len() as int)
            &&& t.cache == s.cache
            &&& (t.canvas.at)(px, py) == (if reachable(
                s.canvas,
                pen.clip,
                px,
                py,
                px,
                py,
                1,
                1,
            ) && run_inks(run, pen.ul_char_inc, glyphs, s.gx as int, pen.y as int, px, py) {
                (pen.fore[0], pen.fore[1], pen.fore[2], 0xffu8)
            } else {
                (s.canvas.at)(px, py)
            })
        }),
{
    let data = run_bytes(run, pen.ul_char_inc);
    assert(data.skip(0) =~= data);
    lemma_play(s, pen, data, 0, depth, run, glyphs, px, py);
}

/// A glyph that is not cached is passed over, with its advance, and does not move the
/// pen.
pub proof fn law_unknown_glyphs_are_passed_over(s: Run, pen: Pen, depth: nat, p: Placed)
    requires
        depth <= 8,
        p.index < 0xFE,
        p.advance < 65536,
        !s.cache.cells.dom().contains((pen.cache_id as int, p.index as int)),
    ensures
        s.play(pen, run_bytes(seq![p], pen.ul_char_inc), 0, depth) == s,
{
    let run = seq![p];
    let data = run_bytes(run, pen.ul_char_inc);
    let adv = if pen.ul_char_inc == 0 {
        advance_bytes(p.advance)
    } else {
        Seq::empty()
    };
    assert(run.skip(1) =~= Seq::<Placed>::empty());
    assert(run_bytes(run.skip(1), pen.ul_char_inc) =~= Seq::<u8>::empty());
    assert(data =~= seq![p.index] + adv);
    assert(s.play(pen, data, data.len() as int, depth) == s);
}

/// A replayed fragment draws what its bytes draw, and moves the pen as they do; without
/// a fixed advance the pen then moves by the byte behind the fragment's number.
pub proof fn law_fragments_are_replayed(
    s: Run,
    pen: Pen,
    depth: nat,
    id: u8,
    frag: Seq<u8>,
    by: u8,
)
    requires
        depth <= 8,
        s.cache.fragments.len() > id,
        s.cache.fragments[id as int] == frag,
        by != 0x80,
    ensures
        ({
            let t = s.play(pen, frag, 0, depth + 1);
            if pen.ul_char_inc != 0 {
                s.play(pen, seq![0xFE, id], 0, depth) == t
            } else {
                s.play(pen, seq![0xFE, id, by], 0, depth) == (Run {
                    gx: t.gx.wrapping_add(by as i32),
                    ..t
                })
            }
        }),
{
    let t = s.play(pen, frag, 0, depth + 1);
    if pen.ul_char_inc != 0 {
        let data = seq![0xFEu8, id];
        assert(s.play(pen, data, 0, depth) == t.advance(0).play(pen, data, 2, depth));
        assert(t.advance(0).play(pen, data, 2, depth) == t.advance(0));
        assert(t.gx.wrapping_add(0) == t.gx);
        assert(t.advance(0) =~= t);
    } else {
        let data = seq![0xFEu8, id, by];
        assert(glyph_delta(data, 2) == (by as i32, 3int));
        assert(s.play(pen, data, 0, depth) == t.advance(by as i32).play(pen, data, 3, depth));
        assert(t.advance(by as i32).play(pen, data, 3, depth) == t.advance(by as i32));
    }
}

/// The escape at `i` stores the bytes before it, as many as its last byte says, under
/// its fragment number; nothing is drawn, and other fragments stay.
pub proof fn law_fragments_are_stored(s: Run, pen: Pen, depth: nat, data: Seq<u8>, i: int, other: int)
    requires
        depth <= 8,
        0 <= i,
        data.len() == i + 3,
        data[i] == 0xFF,
        data[i + 2] <= i,
    ensures
        ({
            let t = s.play(pen, data, i, depth);
            let id = data[i + 1] as int;
            &&& t.canvas == s.canvas
            &&& t.gx == s.gx
            &&& t.dirty == s.dirty
            &&& t.cache.cells == s.cache.cells
            &&& id < t.cache.fragments.len()
            &&& t.cache.fragments[id] == data.subrange(i - data[i + 2], i)
            &&& 0 <= other < s.cache.fragments.len() && other != id ==> t.cache.fragments[other]
                == s.cache.fragments[other]
        }),
{
    let frag = data.subrange(i - data[i + 2], i);
    let next = Run { cache: s.cache.put_fragment(data[i + 1] as int, frag), ..s };
    assert(s.play(pen, data, i, depth) == next.play(pen, data, i + 3, depth));
    assert(next.play(pen, data, i + 3, depth) == next);
}

/// The color of a pixel behind a text: the back color inside the box, whose edges count,
/// if the box has more than one column and row; else what was there.
pub open spec fn behind_text(
    canvas: CanvasView,
    clip: Option<Rect>,
    bk: [i32; 4],
    back: [u8; 4],
    px: int,
    py: int,
) -> (u8, u8, u8, u8) {
    if bk[2] > bk[0] && bk[3] > bk[1] && reachable(
        canvas,
        clip,
        px,
        py,
        bk[0] as int,
        bk[1] as int,
        bk[2] - bk[0] + 1,
        bk[3] - bk[1] + 1,
    ) {
        (back[0], back[1], back[2], 0xffu8)
    } else {
        (canvas.at)(px, py)
    }
}

proof fn lemma_text(
    canvas: CanvasView,
    cache: crate::orders::cache::GlyphCacheView,
    pen: Pen,
    bk: [i32; 4],
    back: [u8; 4],
    x: i32,
    run: Seq<Placed>,
    glyphs: Seq<GlyphView>,
    px: int,
    py: int,
)
    requires
        drawable(run, pen.ul_char_inc, glyphs, cache.cells, pen.cache_id as int),
        -0x2000_0000 <= x,
        x + 0x10000 * run.len() <= 0x4000_0000,
        -0x4000_0000 <= pen.y <= 0x4000_0000,
        -0x4000_0000 <= bk[0] && bk[2] <= 0x3fff_ffff,
        -0x4000_0000 <= bk[1] && bk[3] <= 0x3fff_ffff,
    ensures
        ({
            let (after, kept, r) = crate::orders::glyph::text_drawn(
                canvas,
                cache,
                pen,
                bk,
                back,
                x,
                run_bytes(run, pen.ul_char_inc),
            );
            &&& kept == cache
            &&& (after.at)(px, py) == (if reachable(canvas, pen.clip, px, py, px, py, 1, 1)
                && run_inks(run, pen.ul_char_inc, glyphs, x as int, pen.y as int, px, py) {
                (pen.fore[0], pen.fore[1], pen.fore[2], 0xffu8)
            } else {
                behind_text(canvas, pen.clip, bk, back, px, py)
            })
        }),
{
    let (filled, bg) = crate::orders::glyph::text_background(canvas, pen.clip, bk, back);
    let start = Run { canvas: filled, cache, gx: x, dirty: Rect { x: 0, y: 0, w: 0, h: 0 } };
    law_glyphs_stand_in_a_row(start, pen, 0, run, glyphs, px, py);
    assert((filled.at)(px, py) == behind_text(canvas, pen.clip, bk, back, px, py));
}

/// A FastIndex draws its background box and, over it, its glyphs from `(x, y)` on, in
/// the foreground color.
pub proof fn law_fast_index_draws(
    s: ProcessorView,
    d: Reading,
    ff: u32,
    delta: bool,
    clip: Option<Rect>,
    run: Seq<Placed>,
    glyphs: Seq<GlyphView>,
    px: int,
    py: int,
)
    requires
        ({
            let (e, o) = s.fast_index.decoded(d, ff, delta);
            &&& e.ok()
            &&& o.data == run_bytes(run, o.ul_char_inc)
            &&& drawable(run, o.ul_char_inc, glyphs, s.caches.glyphs.cells, o.cache_id as int)
            &&& -0x2000_0000 <= o.x && o.x + 0x10000 * run.len() <= 0x4000_0000
            &&& -0x4000_0000 <= o.y <= 0x4000_0000
            &&& -0x4000_0000 <= o.bk[0] && o.bk[2] <= 0x3fff_ffff
            &&& -0x4000_0000 <= o.bk[1] && o.bk[3] <= 0x3fff_ffff
        }),
    ensures
        ({
            let (e, o) = s.fast_index.decoded(d, ff, delta);
            let (e2, t, r) = s.render(d, 0x13, ff, delta, clip);
            &&& e2 == e
            &&& t == (ProcessorView { fast_index: o, canvas: t.canvas, ..s })
            &&& (t.canvas.at)(px, py) == (if reachable(s.canvas, clip, px, py, px, py, 1, 1)
                && run_inks(run, o.ul_char_inc, glyphs, o.x as int, o.y as int, px, py) {
                (o.fore_color[0], o.fore_color[1], o.fore_color[2], 0xffu8)
            } else {
                behind_text(s.canvas, clip, o.bk, o.back_color, px, py)
            })
        }),
{
    reveal(ProcessorView::render);
    let (e, o) = s.fast_index.decoded(d, ff, delta);
    let pen = Pen {
        clip,
        cache_id: o.cache_id as usize,
        ul_char_inc: o.ul_char_inc,
        fore: o.fore_color,
        y: o.y,
    };
    lemma_text(s.canvas, s.caches.glyphs, pen, o.bk, o.back_color, o.x, run, glyphs, px, py);
    let t = s.render(d, 0x13, ff, delta, clip).1;
    assert(t.caches =~= s.caches);
}

/// A GlyphIndex draws its background box and, over it, its glyphs from `(x, y)` on, in
/// the foreground color.
pub proof fn law_glyph_index_draws(
    s: ProcessorView,
    d: Reading,
    ff: u32,
    delta: bool,
    clip: Option<Rect>,
    run: Seq<Placed>,
    glyphs: Seq<GlyphView>,
    px: int,
    py: int,
)
    requires
        ({
            let (e, o) = s.glyph_index.decoded(d, ff, delta);
            &&& e.ok()
            &&& o.data == run_bytes(run, o.ul_char_inc)
            &&& drawable(run, o.ul_char_inc, glyphs, s.caches.glyphs.cells, o.cache_id as int)
            &&& -0x2000_0000 <= o.x && o.x + 0x10000 * run.len() <= 0x4000_0000
            &&& -0x4000_0000 <= o.y <= 0x4000_0000
            &&& -0x4000_0000 <= o.bk[0] && o.bk[2] <= 0x3fff_ffff
            &&& -0x4000_0000 <= o.bk[1] && o.bk[3] <= 0x3fff_ffff
        }),
    ensures
        ({
            let (e, o) = s.glyph_index.decoded(d, ff, delta);
            let (e2, t, r) = s.render(d, 0x1B, ff, delta, clip);
            &&& e2 == e
            &&& t == (ProcessorView { glyph_index: o, canvas: t.canvas, ..s })
            &&& (t.canvas.at)(px, py) == (if reachable(s.canvas, clip, px, py, px, py, 1, 1)
                && run_inks(run, o.ul_char_inc, glyphs, o.x as int, o.y as int, px, py) {
                (o.fore_color[0], o.fore_color[1], o.fore_color[2], 0xffu8)
            } else {
                behind_text(s.canvas, clip, o.bk, o.back_color, px, py)
            })
        }),
{
    reveal(ProcessorView::render);
    let (e, o) = s.glyph_index.decoded(d, ff, delta);
    let pen = Pen {
        clip,
        cache_id: o.cache_id as usize,
        ul_char_inc: o.ul_char_inc,
        fore: o.fore_color,
        y: o.y,
    };
    lemma_text(s.canvas, s.caches.glyphs, pen, o.bk, o.back_color, o.x, run, glyphs, px, py);
    let t = s.render(d, 0x1B, ff, delta, clip).1;
    assert(t.caches =~= s.caches);
}

/// A FastGlyph with a glyph in its data (offset, size, bits) draws that glyph at `(x, y)`
/// over the background box, and caches it under the index in front of it.
pub proof fn law_fast_glyph_draws(
    s: ProcessorView,
    d: Reading,
    ff: u32,
    delta: bool,
    clip: Option<Rect>,
    g: GlyphView,
    px: int,
    py: int,
)
    requires
        ({
            let (e, o) = s.fast_glyph.decoded(d, ff, delta);
            let b = o.data;
            &&& e.ok()
            &&& b.len() >= 9
            &&& g.x == crate::orders::layout::signed16(b, 1)
            &&& g.y == crate::orders::layout::signed16(b, 3)
            &&& g.cx == crate::orders::layout::unsigned16(b, 5)
            &&& g.cy == crate::orders::layout::unsigned16(b, 7)
            &&& g.aj == b.skip(9)
            &&& -0x4000_0000 <= o.x <= 0x4000_0000
            &&& -0x4000_0000 <= o.y <= 0x4000_0000
            &&& -0x4000_0000 <= o.bk[0] && o.bk[2] <= 0x3fff_ffff
            &&& -0x4000_0000 <= o.bk[1] && o.bk[3] <= 0x3fff_ffff
        }),
    ensures
        ({
            let (e, o) = s.fast_glyph.decoded(d, ff, delta);
            let (e2, t, r) = s.render(d, 0x18, ff, delta, clip);
            let key = (o.cache_id as int, o.data[0] as int);
            &&& e2 == e
            &&& t.caches.glyphs.cells == s.caches.glyphs.cells.insert(key, g)
            &&& t.caches.glyphs.fragments == s.caches.glyphs.fragments
            &&& t == (ProcessorView { fast_glyph: o, canvas: t.canvas, caches: t.caches, ..s })
            &&& (t.canvas.at)(px, py) == (if reachable(s.canvas, clip, px, py, px, py, 1, 1)
                && inked(g, px - (o.x + g.x), py - (o.y + g.y)) {
                (o.fore_color[0], o.fore_color[1], o.fore_color[2], 0xffu8)
            } else {
                behind_text(s.canvas, clip, o.bk, o.back_color, px, py)
            })
        }),
{
    reveal(ProcessorView::render);
    let (e, o) = s.fast_glyph.decoded(d, ff, delta);
    let pen = Pen {
        clip,
        cache_id: o.cache_id as usize,
        ul_char_inc: o.ul_char_inc,
        fore: o.fore_color,
        y: o.y,
    };
    let b = o.data;
    crate::orders::layout::lemma_signs(crate::wire::le16(b[1], b[2]), 0);
    crate::orders::layout::lemma_signs(crate::wire::le16(b[3], b[4]), 0);
    assert(b.skip(9) =~= b.subrange(9, b.len() as int));
    assert(crate::orders::glyph::inline_glyph(b) =~= g);
    let (filled, bg) = crate::orders::glyph::text_background(
        s.canvas,
        clip,
        o.bk,
        o.back_color,
    );
    let run = Run { canvas: filled, cache: s.caches.glyphs, gx: o.x, dirty: bg };
    lemma_glyph_pixel(run, pen, g, px, py);
    assert((filled.at)(px, py) == behind_text(s.canvas, clip, o.bk, o.back_color, px, py));
}

/// A FastGlyph without a glyph in its data draws the one that is cached under its index.
pub proof fn law_fast_glyph_draws_from_the_cache(
    s: ProcessorView,
    d: Reading,
    ff: u32,
    delta: bool,
    clip: Option<Rect>,
    g: GlyphView,
    px: int,
    py: int,
)
    requires
        ({
            let (e, o) = s.fast_glyph.decoded(d, ff, delta);
            let key = (o.cache_id as int, o.data[0] as int);
            &&& e.ok()
            &&& 1 <= o.data.len() < 9
            &&& s.caches.glyphs.cells.dom().contains(key) && s.caches.glyphs.cells[key] == g
            &&& -0x4000_0000 <= o.x <= 0x4000_0000
            &&& -0x4000_0000 <= o.y <= 0x4000_0000
            &&& -0x4000_0000 <= o.bk[0] && o.bk[2] <= 0x3fff_ffff
            &&& -0x4000_0000 <= o.bk[1] && o.bk[3] <= 0x3fff_ffff
        }),
    ensures
        ({
            let (e, o) = s.fast_glyph.decoded(d, ff, delta);
            let (e2, t, r) = s.render(d, 0x18, ff, delta, clip);
            &&& e2 == e
            &&& t == (ProcessorView { fast_glyph: o, canvas: t.canvas, ..s })
            &&& (t.canvas.at)(px, py) == (if reachable(s.canvas, clip, px, py, px, py, 1, 1)
                && inked(g, px - (o.x + g.x), py - (o.y + g.y)) {
                (o.fore_color[0], o.fore_color[1], o.fore_color[2], 0xffu8)
            } else {
                behind_text(s.canvas, clip, o.bk, o.back_color, px, py)
            })
        }),
{
    reveal(ProcessorView::render);
    let (e, o) = s.fast_glyph.decoded(d, ff, delta);
    let pen = Pen {
        clip,
        cache_id: o.cache_id as usize,
        ul_char_inc: o.ul_char_inc,
        fore: o.fore_color,
        y: o.y,
    };
    let (filled, bg) = crate::orders::glyph::text_background(
        s.canvas,
        clip,
        o.bk,
        o.back_color,
    );
    let run = Run { canvas: filled, cache: s.caches.glyphs, gx: o.x, dirty: bg };
    lemma_glyph_pixel(run, pen, g, px, py);
    assert((filled.at)(px, py) == behind_text(s.canvas, clip, o.bk, o.back_color, px, py));
    let t = s.render(d, 0x18, ff, delta, clip).1;
    assert(t.caches =~= s.caches);
}

} // verus!
