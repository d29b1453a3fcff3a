//! Painting into the window's buffer: one 32-bit number per pixel, row by row, with
//! red, green and blue in its lower three bytes.

use crate::orders::canvas::{lemma_cell, lemma_cells_differ};
use font8x8::UnicodeFonts;
use vstd::prelude::*;

verus! {

/// What the window shows: its size and the number of every pixel.
#[verifier::ext_equal]
pub struct Screen {
    pub width: u32,
    pub height: u32,
    pub at: spec_fn(int, int) -> u32,
}

/// Whether a buffer has room for every pixel of a window.
pub open spec fn fits(buf: Seq<u32>, width: u32, height: u32) -> bool {
    width * height <= buf.len() && width * height <= u32::MAX
}

/// What a buffer shows in a window of the given size.
pub open spec fn screen(buf: Seq<u32>, width: u32, height: u32) -> Screen {
    Screen {
        width,
        height,
        at: |x: int, y: int|
            if 0 <= x < width && 0 <= y < height {
                buf[y * width + x]
            } else {
                0
            },
    }
}

/// Whether two buffers are of one length and agree on what lies behind the window.
pub open spec fn same_beyond(a: Seq<u32>, b: Seq<u32>, width: u32, height: u32) -> bool {
    a.len() == b.len() && forall|i: int|
        width * height <= i < a.len() ==> #[trigger] a[i] == b[i]
}

/// Whether `new` shows the given screen and is otherwise as `old`.
pub open spec fn shows(
    old_buf: Seq<u32>,
    new_buf: Seq<u32>,
    width: u32,
    height: u32,
    s: Screen,
) -> bool {
    screen(new_buf, width, height) == s && same_beyond(old_buf, new_buf, width, height)
}

impl Screen {
    pub open spec fn on(self, x: int, y: int) -> bool {
        0 <= x < self.width && 0 <= y < self.height
    }

    /// Each pixel of the box from `(x0, y0)` up to `(x1, y1)` for which `g` gives a
    /// color, given the one it has, takes it.
    pub open spec fn over(
        self,
        x0: int,
        y0: int,
        x1: int,
        y1: int,
        g: spec_fn(int, int, u32) -> Option<u32>,
    ) -> Screen {
        Screen {
            at: |x: int, y: int|
                if self.on(x, y) && x0 <= x < x1 && y0 <= y < y1 {
                    match g(x, y, (self.at)(x, y)) {
                        Some(c) => c,
                        None => (self.at)(x, y),
                    }
                } else {
                    (self.at)(x, y)
                },
            ..self
        }
    }

    /// A box in one color.
    pub open spec fn filled(self, x: int, y: int, w: int, h: int, color: u32) -> Screen {
        self.over(x, y, x + w, y + h, |px: int, py: int, c: u32| Some(color))
    }
}

/// The place of a pixel in the buffer.
pub(crate) fn place(x: u32, y: u32, width: u32, height: u32, len: usize) -> (i: usize)
    requires
        x < width,
        y < height,
        width * height <= len,
    ensures
        i == y * width + x,
        i < len,
{
    proof {
        lemma_cell(x as int, y as int, width as int, height as int);
        assert(0 <= y * width) by (nonlinear_arith)
            requires
                y >= 0,
                width >= 0,
        ;
    }
    y as usize * width as usize + x as usize
}

/// Set one pixel.
fn put(buf: &mut [u32], width: u32, height: u32, x: u32, y: u32, color: u32)
    requires
        fits(old(buf)@, width, height),
        x < width,
        y < height,
    ensures
        fits(final(buf)@, width, height),
        same_beyond(old(buf)@, final(buf)@, width, height),
        forall|px: int, py: int| #[trigger]
            (screen(final(buf)@, width, height).at)(px, py) == (if px == x && py == y {
                color
            } else {
                (screen(old(buf)@, width, height).at)(px, py)
            }),
{
    let i: usize = place(x, y, width, height, buf.len());
    buf[i] = color;
    proof {
        lemma_cell(x as int, y as int, width as int, height as int);
        assert forall|px: int, py: int| #[trigger]
            (screen(buf@, width, height).at)(px, py) == (if px == x && py == y {
                color
            } else {
                (screen(old(buf)@, width, height).at)(px, py)
            }) by {
            if 0 <= px < width && 0 <= py < height && (px != x || py != y) {
                lemma_cells_differ(px, py, x as int, y as int, width as int);
                lemma_cell(px, py, width as int, height as int);
            }
        }
    }
}

/// Go over a box of the window pixel by pixel.
pub(crate) fn paint_box<F: Fn(u32, u32, u32) -> Option<u32>>(
    buf: &mut [u32],
    width: u32,
    height: u32,
    x0: u32,
    y0: u32,
    x1: u32,
    y1: u32,
    f: F,
    Ghost(g): Ghost<spec_fn(int, int, u32) -> Option<u32>>,
)
    requires
        fits(old(buf)@, width, height),
        x1 <= width,
        y1 <= height,
        forall|x: u32, y: u32, c: u32|
            x0 <= x < x1 && y0 <= y < y1 ==> #[trigger] f.requires((x, y, c)),
        forall|x: u32, y: u32, c: u32, r: Option<u32>|
            x0 <= x < x1 && y0 <= y < y1 && #[trigger] f.ensures((x, y, c), r) ==> r == g(
                x as int,
                y as int,
                c,
            ),
    ensures
        shows(
            old(buf)@,
            final(buf)@,
            width,
            height,
            screen(old(buf)@, width, height).over(x0 as int, y0 as int, x1 as int, y1 as int, g),
        ),
{
    let ghost before = screen(buf@, width, height);
    let ghost after = before.over(x0 as int, y0 as int, x1 as int, y1 as int, g);
    let ghost old_buf = buf@;
    let mut y: u32 = y0;
    while y < y1
        invariant
            fits(buf@, width, height),
            same_beyond(old_buf, buf@, width, height),
            x1 <= width,
            y1 <= height,
            y0 <= y,
            forall|x: u32, y: u32, c: u32|
                x0 <= x < x1 && y0 <= y < y1 ==> #[trigger] f.requires((x, y, c)),
            forall|x: u32, y: u32, c: u32, r: Option<u32>|
                x0 <= x < x1 && y0 <= y < y1 && #[trigger] f.ensures((x, y, c), r) ==> r == g(
                    x as int,
                    y as int,
                    c,
                ),
            before.width == width,
            before.height == height,
            after == before.over(x0 as int, y0 as int, x1 as int, y1 as int, g),
            forall|px: int, py: int| #[trigger]
                (screen(buf@, width, height).at)(px, py) == (if py < y {
                    (after.at)(px, py)
                } else {
                    (before.at)(px, py)
                }),
        decreases y1 - y,
    {
        let mut x: u32 = x0;
        while x < x1
            invariant
                fits(buf@, width, height),
                same_beyond(old_buf, buf@, width, height),
                x1 <= width,
                y1 <= height,
                x0 <= x,
                y0 <= y < y1,
                forall|x: u32, y: u32, c: u32|
                    x0 <= x < x1 && y0 <= y < y1 ==> #[trigger] f.requires((x, y, c)),
                forall|x: u32, y: u32, c: u32, r: Option<u32>|
                    x0 <= x < x1 && y0 <= y < y1 && #[trigger] f.ensures((x, y, c), r) ==> r == g(
                        x as int,
                        y as int,
                        c,
                    ),
                before.width == width,
                before.height == height,
                after == before.over(x0 as int, y0 as int, x1 as int, y1 as int, g),
                forall|px: int, py: int| #[trigger]
                    (screen(buf@, width, height).at)(px, py) == (if py < y || (py == y && px < x) {
                        (after.at)(px, py)
                    } else {
                        (before.at)(px, py)
                    }),
            decreases x1 - x,
        {
            let i: usize = place(x, y, width, height, buf.len());
            let c: u32 = buf[i];
            assert(c == (screen(buf@, width, height).at)(x as int, y as int));
            if let Some(n) = f(x, y, c) {
                put(buf, width, height, x, y, n);
            }
            x = x + 1;
        }
        assert forall|px: int, py: int| #[trigger]
            (screen(buf@, width, height).at)(px, py) == (if py < y + 1 {
                (after.at)(px, py)
            } else {
                (before.at)(px, py)
            }) by {}
        y = y + 1;
    }
    assert(screen(buf@, width, height).at =~= after.at);
}

/// Fill a box; what lies beyond the window is left out.
pub fn fill_rect(
    buf: &mut [u32],
    win_w: u32,
    win_h: u32,
    x: u32,
    y: u32,
    w: u32,
    h: u32,
    color: u32,
)
    requires
        fits(old(buf)@, win_w, win_h),
        x + w <= u32::MAX,
        y + h <= u32::MAX,
    ensures
        shows(
            old(buf)@,
            final(buf)@,
            win_w,
            win_h,
            screen(old(buf)@, win_w, win_h).filled(x as int, y as int, w as int, h as int, color),
        ),
{
    let x1: u32 = if x + w <= win_w {
        x + w
    } else {
        win_w
    };
    let y1: u32 = if y + h <= win_h {
        y + h
    } else {
        win_h
    };
    let ghost g = |px: int, py: int, c: u32| Some(color);
    let ghost before = screen(buf@, win_w, win_h);
    let f = |px: u32, py: u32, c: u32| -> (r: Option<u32>)
        ensures r == Some(color)
    {
        Some(color)
    };
    paint_box(buf, win_w, win_h, x, y, x1, y1, f, Ghost(g));
    assert(before.over(x as int, y as int, x1 as int, y1 as int, g).at =~= before.filled(
        x as int,
        y as int,
        w as int,
        h as int,
        color,
    ).at);
}

/// What `font8x8::BASIC_FONTS` holds for a character: eight rows of eight pixels.
pub uninterp spec fn basic_glyph(c: char) -> Option<Seq<u8>>;

/// Calls `font8x8::BASIC_FONTS.get`, a lookup in a fixed table. The contract gives
/// the result a name and says that a glyph has eight rows; which pixels they set is
/// left to the table.
#[verifier::external_body]
fn look_up_glyph(c: char) -> (r: Option<[u8; 8]>)
    ensures
        match (r, basic_glyph(c)) {
            (Some(a), Some(b)) => a@ == b,
            (None, None) => true,
            _ => false,
        },
{
    font8x8::BASIC_FONTS.get(c)
}

/// Whether a glyph drawn at `(x, y)`, each of its pixels `scale` wide and high, sets a
/// pixel of the window.
pub open spec fn inked(glyph: Seq<u8>, x: int, y: int, scale: int, px: int, py: int) -> bool {
    (glyph[(py - y) / scale] >> ((px - x) / scale) as u32) & 1u8 == 1u8
}

impl Screen {
    /// A glyph in one color.
    pub open spec fn glyph(
        self,
        glyph: Seq<u8>,
        x: int,
        y: int,
        color: u32,
        scale: int,
    ) -> Screen {
        self.over(
            x,
            y,
            x + 8 * scale,
            y + 8 * scale,
            |px: int, py: int, c: u32|
                if inked(glyph, x, y, scale, px, py) {
                    Some(color)
                } else {
                    None
                },
        )
    }

    /// A line of text: each character in a cell of its own, blank where the font has no
    /// glyph for it.
    pub open spec fn text(self, x: int, y: int, s: Seq<char>, color: u32, scale: int) -> Screen
        decreases s.len(),
    {
        if s.len() == 0 {
            self
        } else {
            let before = self.text(x, y, s.drop_last(), color, scale);
            match basic_glyph(s.last()) {
                Some(g) => before.glyph(g, x + 8 * scale * (s.len() - 1), y, color, scale),
                None => before,
            }
        }
    }
}

/// Draw one glyph.
pub fn draw_glyph(
    buf: &mut [u32],
    win_w: u32,
    win_h: u32,
    x: u32,
    y: u32,
    glyph: &[u8; 8],
    color: u32,
    scale: u32,
)
    requires
        fits(old(buf)@, win_w, win_h),
        x + 8 * scale <= u32::MAX,
        y + 8 * scale <= u32::MAX,
    ensures
        shows(
            old(buf)@,
            final(buf)@,
            win_w,
            win_h,
            screen(old(buf)@, win_w, win_h).glyph(
                glyph@,
                x as int,
                y as int,
                color,
                scale as int,
            ),
        ),
{
    let side: u32 = 8 * scale;
    let x1: u32 = if x + side <= win_w {
        x + side
    } else {
        win_w
    };
    let y1: u32 = if y + side <= win_h {
        y + side
    } else {
        win_h
    };
    let ghost g = |px: int, py: int, c: u32|
        if inked(glyph@, x as int, y as int, scale as int, px, py) {
            Some(color)
        } else {
            None
        };
    let ghost before = screen(buf@, win_w, win_h);
    let f = |px: u32, py: u32, c: u32| -> (r: Option<u32>)
        requires
            x <= px < x + 8 * scale,
            y <= py < y + 8 * scale
        ensures
            r == (if inked(glyph@, x as int, y as int, scale as int, px as int, py as int) {
                Some(color)
            } else {
                None::<u32>
            })
    {
        let col: u32 = (px - x) / scale;
        let row: u32 = (py - y) / scale;
        proof {
            lemma_cell_of((px - x) as int, scale as int);
            lemma_cell_of((py - y) as int, scale as int);
        }
        let bits: u8 = glyph[row as usize];
        if (bits >> col) & 1u8 == 1u8 {
            Some(color)
        } else {
            None
        }
    };
    paint_box(buf, win_w, win_h, x, y, x1, y1, f, Ghost(g));
    assert(before.over(x as int, y as int, x1 as int, y1 as int, g).at =~= before.glyph(
        glyph@,
        x as int,
        y as int,
        color,
        scale as int,
    ).at);
}

proof fn lemma_cell_of(d: int, scale: int)
    requires
        0 <= d < 8 * scale,
    ensures
        scale > 0,
        0 <= d / scale < 8,
{
    assert(scale > 0);
    assert(0 <= d / scale < 8) by (nonlinear_arith)
        requires
            0 <= d < 8 * scale,
            scale > 0,
    ;
}

/// Draw `s` with the 8x8 font at integer `scale`.
pub fn draw_text_scaled(
    buf: &mut [u32],
    win_w: u32,
    win_h: u32,
    x: u32,
    y: u32,
    s: &str,
    color: u32,
    scale: u32,
)
    requires
        fits(old(buf)@, win_w, win_h),
        x + 8 * scale * s@.len() <= u32::MAX,
        y + 8 * scale <= u32::MAX,
    ensures
        shows(
            old(buf)@,
            final(buf)@,
            win_w,
            win_h,
            screen(old(buf)@, win_w, win_h).text(x as int, y as int, s@, color, scale as int),
        ),
{
    let ghost before = screen(buf@, win_w, win_h);
    let ghost old_buf = buf@;
    let n: usize = s.unicode_len();
    let mut at: u32 = x;
    let mut i: usize = 0;
    assert(s@.take(0) =~= Seq::<char>::empty());
    assert(screen(buf@, win_w, win_h) == before);
    while i < n
        invariant
            n == s@.len(),
            i <= n,
            fits(buf@, win_w, win_h),
            same_beyond(old_buf, buf@, win_w, win_h),
            x + 8 * scale * s@.len() <= u32::MAX,
            y + 8 * scale <= u32::MAX,
            at == x + 8 * scale * i,
            before.width == win_w,
            before.height == win_h,
            screen(buf@, win_w, win_h) == before.text(
                x as int,
                y as int,
                s@.take(i as int),
                color,
                scale as int,
            ),
        decreases n - i,
    {
        let c: char = s.get_char(i);
        proof {
            assert(s@.take(i + 1).drop_last() =~= s@.take(i as int));
            assert(s@.take(i + 1).last() == c);
            assert(8 * scale * (i + 1) == 8 * scale * i + 8 * scale) by (nonlinear_arith);
            assert(8 * scale * (i + 1) <= 8 * scale * s@.len()) by (nonlinear_arith)
                requires
                    i < s@.len(),
                    scale >= 0,
            ;
        }
        match look_up_glyph(c) {
            Some(g) => {
                draw_glyph(buf, win_w, win_h, at, y, &g, color, scale);
            },
            None => {},
        }
        at = at + 8 * scale;
        i = i + 1;
    }
    assert(s@.take(n as int) =~= s@);
}

/// Draw `s` horizontally centered at vertical position `y`, scaled.
pub fn draw_text_centered(
    buf: &mut [u32],
    win_w: u32,
    win_h: u32,
    y: u32,
    s: &str,
    color: u32,
    scale: u32,
)
    requires
        fits(old(buf)@, win_w, win_h),
        win_w + 8 * scale * s@.len() <= u32::MAX,
        y + 8 * scale <= u32::MAX,
    ensures
        shows(
            old(buf)@,
            final(buf)@,
            win_w,
            win_h,
            screen(old(buf)@, win_w, win_h).text(
                centered(win_w as int, 8 * scale * s@.len()),
                y as int,
                s@,
                color,
                scale as int,
            ),
        ),
{
    let n: usize = s.unicode_len();
    let w: u32 = if scale == 0 {
        0
    } else {
        assert(n <= 8 * scale * s@.len()) by (nonlinear_arith)
            requires
                n == s@.len(),
                scale >= 1,
        ;
        assert(n * 8 <= 8 * scale * s@.len() && n * 8 * scale == 8 * scale * s@.len())
            by (nonlinear_arith)
            requires
                n == s@.len(),
                scale >= 1,
        ;
        n as u32 * 8 * scale
    };
    assert(scale == 0 ==> 8 * scale * s@.len() == 0) by (nonlinear_arith);
    let x: u32 = win_w.saturating_sub(w) / 2;
    draw_text_scaled(buf, win_w, win_h, x, y, s, color, scale);
}

/// Where something of the given width starts to stand in the middle.
pub open spec fn centered(total: int, width: int) -> int {
    if width <= total {
        (total - width) / 2
    } else {
        0
    }
}

/// Three channels in one number.
pub open spec fn packed(r: int, g: int, b: int) -> int {
    r * 0x10000 + g * 0x100 + b
}

/// A channel of a number: `0` is blue, `1` green and `2` red.
pub open spec fn channel(c: u32, k: int) -> int {
    if k == 2 {
        (c / 0x10000) as int % 0x100
    } else if k == 1 {
        (c / 0x100) as int % 0x100
    } else {
        c as int % 0x100
    }
}

pub(crate) fn pack(r: u32, g: u32, b: u32) -> (c: u32)
    requires
        r < 0x100,
        g < 0x100,
        b < 0x100,
    ensures
        c == packed(r as int, g as int, b as int),
{
    r * 0x10000 + g * 0x100 + b
}

/// The color that starts at a byte of a picture, black where the picture ends first.
pub open spec fn color_at(src: Seq<u8>, i: int) -> u32 {
    if i + 2 < src.len() {
        packed(src[i] as int, src[i + 1] as int, src[i + 2] as int) as u32
    } else {
        0
    }
}

/// A desktop of `fb_w` columns, copied pixel for pixel below the toolbar.
pub open spec fn copied(src: Seq<u8>, bar_h: int, fb_w: int) -> spec_fn(
    int,
    int,
    u32,
) -> Option<u32> {
    |x: int, y: int, c: u32| Some(color_at(src, ((y - bar_h) * fb_w + x) * 4))
}

/// Show a desktop as wide as the window, below the toolbar and without scaling.
pub fn draw_desktop(buf: &mut [u32], win_w: u32, win_h: u32, bar_h: u32, src: &[u8])
    requires
        fits(old(buf)@, win_w, win_h),
    ensures
        shows(
            old(buf)@,
            final(buf)@,
            win_w,
            win_h,
            screen(old(buf)@, win_w, win_h).over(
                0,
                bar_h as int,
                win_w as int,
                win_h as int,
                copied(src@, bar_h as int, win_w as int),
            ),
        ),
{
    let len: u64 = src.len() as u64;
    let f = |x: u32, y: u32, c: u32| -> (r: Option<u32>)
        requires
            x < win_w,
            bar_h <= y < win_h,
            win_w * win_h <= u32::MAX,
            len == src@.len(),
            src@.len() <= usize::MAX
        ensures
            r == copied(src@, bar_h as int, win_w as int)(x as int, y as int, c)
    {
        proof {
            lemma_cell(x as int, (y - bar_h) as int, win_w as int, (win_h - bar_h) as int);
            assert(win_w * (win_h - bar_h) <= win_w * win_h && 0 <= (y - bar_h) * win_w)
                by (nonlinear_arith)
                requires
                    bar_h <= y < win_h,
                    win_w >= 0,
            ;
        }
        let i: u64 = ((y - bar_h) as u64 * win_w as u64 + x as u64) * 4;
        if i + 2 < len {
            let k: usize = i as usize;
            Some(pack(src[k] as u32, src[k + 1] as u32, src[k + 2] as u32))
        } else {
            Some(0)
        }
    };
    assert(src.len() == src@.len());
    let ghost g = copied(src@, bar_h as int, win_w as int);
    paint_box(buf, win_w, win_h, 0, bar_h, win_w, win_h, f, Ghost(g));
}

/// Which two columns (or rows) of the desktop one of the window mixes: `weight` parts
/// in 256 of the second.
#[derive(Clone, Copy)]
pub struct Sample {
    pub first: u16,
    pub second: u16,
    pub weight: u32,
}

impl Sample {
    pub open spec fn valid(self) -> bool {
        self.first <= self.second && self.weight <= 256
    }
}

pub open spec fn mixed(a: int, b: int, weight: int) -> int {
    (a * (256 - weight) + b * weight) / 256
}

fn mix(a: u32, b: u32, weight: u32) -> (r: u32)
    requires
        a < 0x100,
        b < 0x100,
        weight <= 256,
    ensures
        r == mixed(a as int, b as int, weight as int),
        r < 0x100,
{
    proof {
        assert(0 <= a * (256 - weight) <= 0xFF * (256 - weight) && 0 <= b * weight <= 0xFF * weight)
            by (nonlinear_arith)
            requires
                a < 0x100,
                b < 0x100,
                weight <= 256,
        ;
    }
    (a * (256 - weight) + b * weight) / 256
}

/// The byte of a picture of `fb_w` columns at which a pixel starts.
pub open spec fn byte_of(x: int, y: int, fb_w: int) -> int {
    (y * fb_w + x) * 4
}

/// One channel of the four pixels that a column and a row sample, mixed.
pub open spec fn sampled(src: Seq<u8>, fb_w: int, col: Sample, row: Sample, k: int) -> int {
    mixed(
        mixed(
            src[byte_of(col.first as int, row.first as int, fb_w) + k] as int,
            src[byte_of(col.second as int, row.first as int, fb_w) + k] as int,
            col.weight as int,
        ),
        mixed(
            src[byte_of(col.first as int, row.second as int, fb_w) + k] as int,
            src[byte_of(col.second as int, row.second as int, fb_w) + k] as int,
            col.weight as int,
        ),
        row.weight as int,
    )
}

/// A desktop scaled into the window below the toolbar; a pixel that the desktop does
/// not reach stays as it is.
pub open spec fn scaled(
    src: Seq<u8>,
    bar_h: int,
    fb_w: int,
    cols: Seq<Sample>,
    rows: Seq<Sample>,
) -> spec_fn(int, int, u32) -> Option<u32> {
    |x: int, y: int, c: u32|
        {
            let col = cols[x];
            let row = rows[y - bar_h];
            if byte_of(col.second as int, row.second as int, fb_w) + 2 < src.len() {
                Some(
                    packed(
                        sampled(src, fb_w, col, row, 0),
                        sampled(src, fb_w, col, row, 1),
                        sampled(src, fb_w, col, row, 2),
                    ) as u32,
                )
            } else {
                None
            }
        }
}

fn locate(x: u16, y: u16, fb_w: u32) -> (i: u64)
    ensures
        i == byte_of(x as int, y as int, fb_w as int),
        i <= 4 * 0xFFFF * 0x1_0000_0000,
{
    proof {
        assert(0 <= y * fb_w <= 0xFFFF * 0xFFFF_FFFF) by (nonlinear_arith)
            requires
                0 <= y <= 0xFFFF,
                0 <= fb_w <= 0xFFFF_FFFF,
        ;
    }
    (y as u64 * fb_w as u64 + x as u64) * 4
}

fn sample(src: &[u8], at: (usize, usize, usize, usize), col: Sample, row: Sample, k: usize) -> (r: u32)
    requires
        col.valid(),
        row.valid(),
        k < 3,
        at.0 + 2 < src@.len(),
        at.1 + 2 < src@.len(),
        at.2 + 2 < src@.len(),
        at.3 + 2 < src@.len(),
        src@.len() <= usize::MAX,
    ensures
        r < 0x100,
        r == mixed(
            mixed(src@[at.0 + k] as int, src@[at.1 + k] as int, col.weight as int),
            mixed(src@[at.2 + k] as int, src@[at.3 + k] as int, col.weight as int),
            row.weight as int,
        ),
{
    let top: u32 = mix(src[at.0 + k] as u32, src[at.1 + k] as u32, col.weight);
    let bottom: u32 = mix(src[at.2 + k] as u32, src[at.3 + k] as u32, col.weight);
    mix(top, bottom, row.weight)
}

fn sample_pixel(src: &[u8], fb_w: u32, col: Sample, row: Sample) -> (r: Option<u32>)
    requires
        col.valid(),
        row.valid(),
    ensures
        r == scaled(src@, 0, fb_w as int, seq![col], seq![row])(0, 0, 0),
{
    let last: u64 = locate(col.second, row.second, fb_w);
    assert(src.len() == src@.len());
    if last + 2 < src.len() as u64 {
        let p00: u64 = locate(col.first, row.first, fb_w);
        let p01: u64 = locate(col.second, row.first, fb_w);
        let p10: u64 = locate(col.first, row.second, fb_w);
        proof {
            assert(row.first * fb_w <= row.second * fb_w) by (nonlinear_arith)
                requires
                    row.first <= row.second,
                    fb_w >= 0,
            ;
        }
        let at: (usize, usize, usize, usize) = (
            p00 as usize,
            p01 as usize,
            p10 as usize,
            last as usize,
        );
        Some(
            pack(
                sample(src, at, col, row, 0),
                sample(src, at, col, row, 1),
                sample(src, at, col, row, 2),
            ),
        )
    } else {
        None
    }
}

/// Show a desktop of another size than the window's, mixed from the columns and rows
/// that stand for each of the window's below the toolbar.
pub fn draw_desktop_scaled(
    buf: &mut [u32],
    win_w: u32,
    win_h: u32,
    bar_h: u32,
    src: &[u8],
    fb_w: u32,
    cols: &[Sample],
    rows: &[Sample],
)
    requires
        fits(old(buf)@, win_w, win_h),
        bar_h <= win_h,
        cols@.len() == win_w,
        rows@.len() == win_h - bar_h,
        forall|i: int| 0 <= i < cols@.len() ==> #[trigger] cols@[i].valid(),
        forall|i: int| 0 <= i < rows@.len() ==> #[trigger] rows@[i].valid(),
    ensures
        shows(
            old(buf)@,
            final(buf)@,
            win_w,
            win_h,
            screen(old(buf)@, win_w, win_h).over(
                0,
                bar_h as int,
                win_w as int,
                win_h as int,
                scaled(src@, bar_h as int, fb_w as int, cols@, rows@),
            ),
        ),
{
    let ghost g = scaled(src@, bar_h as int, fb_w as int, cols@, rows@);
    let f = |x: u32, y: u32, c: u32| -> (r: Option<u32>)
        requires
            x < win_w,
            bar_h <= y < win_h,
            cols@.len() == win_w,
            rows@.len() == win_h - bar_h,
            cols@[x as int].valid(),
            rows@[y - bar_h].valid()
        ensures
            r == scaled(src@, bar_h as int, fb_w as int, cols@, rows@)(x as int, y as int, c)
    {
        sample_pixel(src, fb_w, cols[x as usize], rows[(y - bar_h) as usize])
    };
    paint_box(buf, win_w, win_h, 0, bar_h, win_w, win_h, f, Ghost(g));
}

/// A channel of a half-transparent pixel over another.
pub open spec fn over_channel(top: int, bottom: int, alpha: int) -> int {
    (top * alpha + bottom * (255 - alpha)) / 255
}

pub(crate) fn blend(top: u32, bottom: u32, alpha: u32) -> (r: u32)
    requires
        top < 0x100,
        bottom < 0x100,
        alpha < 0x100,
    ensures
        r == over_channel(top as int, bottom as int, alpha as int),
        r < 0x100,
{
    proof {
        assert(0 <= top * alpha <= 255 * alpha && 0 <= bottom * (255 - alpha) <= 255 * (255
            - alpha)) by (nonlinear_arith)
            requires
                top < 0x100,
                bottom < 0x100,
                alpha < 0x100,
        ;
    }
    (top * alpha + bottom * (255 - alpha)) / 255
}

impl Screen {
    /// One pixel in a color that lets what is there shine through.
    pub open spec fn tinted(self, px: int, py: int, color: u32, alpha: int) -> Screen {
        self.over(
            px,
            py,
            px + 1,
            py + 1,
            |x: int, y: int, c: u32|
                Some(
                    packed(
                        over_channel(channel(color, 2), channel(c, 2), alpha),
                        over_channel(channel(color, 1), channel(c, 1), alpha),
                        over_channel(channel(color, 0), channel(c, 0), alpha),
                    ) as u32,
                ),
        )
    }
}

/// Mix a color into one pixel, `alpha` parts in 255 of it; a pixel beyond the window is
/// left out.
pub fn tint_pixel(
    buf: &mut [u32],
    win_w: u32,
    win_h: u32,
    x: i32,
    y: i32,
    color: u32,
    alpha: u8,
)
    requires
        fits(old(buf)@, win_w, win_h),
    ensures
        shows(
            old(buf)@,
            final(buf)@,
            win_w,
            win_h,
            screen(old(buf)@, win_w, win_h).tinted(x as int, y as int, color, alpha as int),
        ),
{
    let ghost before = screen(buf@, win_w, win_h);
    if x >= 0 && y >= 0 && (x as u32) < win_w && (y as u32) < win_h {
        let i: usize = place(x as u32, y as u32, win_w, win_h, buf.len());
        let c: u32 = buf[i];
        let a: u32 = alpha as u32;
        let red: u32 = blend(color / 0x10000 % 0x100, c / 0x10000 % 0x100, a);
        let green: u32 = blend(color / 0x100 % 0x100, c / 0x100 % 0x100, a);
        let blue: u32 = blend(color % 0x100, c % 0x100, a);
        assert(c == (before.at)(x as int, y as int));
        put(buf, win_w, win_h, x as u32, y as u32, pack(red, green, blue));
    }
    assert(screen(buf@, win_w, win_h).at =~= before.tinted(
        x as int,
        y as int,
        color,
        alpha as int,
    ).at);
}

} // verus!
