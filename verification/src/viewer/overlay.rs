//! What the window shows while there is no picture: a plain background, a spinner,
//! the host's name and the progress.

use crate::orders::canvas::lemma_cell;
use crate::viewer::cursor::clamp;
use crate::viewer::paint::{
    centered, draw_text_centered, fits, pack, packed, paint_box, screen, shows, Screen,
};
use vstd::prelude::*;

verus! {

/// How many dots the spinner has.
pub const DOTS: usize = 12;

/// The brightest dot moves on after this many milliseconds.
pub const STEP_MS: u64 = 70;

/// Color of the host's name.
pub const TITLE: u32 = 0x00FF_FFFF;

/// Color of the progress text.
pub const PROGRESS: u32 = 0x00B0_C0D0;

/// How bright a dot is: the head brightest, those behind it fading.
pub open spec fn brightness(i: int, elapsed_ms: u64) -> int {
    let head = (elapsed_ms / STEP_MS) as int % DOTS as int;
    let behind = (head + DOTS - i) % DOTS as int;
    if behind * 20 <= 190 {
        235 - behind * 20
    } else {
        45
    }
}

pub open spec fn dot_color(i: int, elapsed_ms: u64) -> u32 {
    packed(
        brightness(i, elapsed_ms),
        brightness(i, elapsed_ms),
        brightness(i, elapsed_ms),
    ) as u32
}

fn color_of_dot(i: usize, elapsed_ms: u64) -> (r: u32)
    requires
        i < DOTS,
    ensures
        r == dot_color(i as int, elapsed_ms),
{
    let head: usize = (elapsed_ms / STEP_MS % (DOTS as u64)) as usize;
    let behind: u32 = ((head + DOTS - i) % DOTS) as u32;
    let b: u32 = if behind * 20 <= 190 {
        235 - behind * 20
    } else {
        45
    };
    pack(b, b, b)
}

/// Whether a pixel belongs to a dot, a disc a little over two pixels in radius.
pub open spec fn in_dot(cx: int, cy: int, x: int, y: int) -> bool {
    (x - cx) * (x - cx) + (y - cy) * (y - cy) <= 5
}

impl Screen {
    /// A dot of the spinner.
    pub open spec fn dot(self, cx: int, cy: int, color: u32) -> Screen {
        self.over(
            cx - 2,
            cy - 2,
            cx + 3,
            cy + 3,
            |x: int, y: int, c: u32|
                if in_dot(cx, cy, x, y) {
                    Some(color)
                } else {
                    None
                },
        )
    }

    /// The first `n` dots of the spinner round `(cx, cy)`.
    pub open spec fn spinner(
        self,
        cx: int,
        cy: int,
        offsets: Seq<(i32, i32)>,
        elapsed_ms: u64,
        n: nat,
    ) -> Screen
        decreases n,
    {
        if n == 0 {
            self
        } else {
            let o = offsets[n - 1];
            self.spinner(cx, cy, offsets, elapsed_ms, (n - 1) as nat).dot(
                cx + o.0,
                cy + o.1,
                dot_color(n - 1, elapsed_ms),
            )
        }
    }
}

fn draw_dot(buf: &mut [u32], win_w: u32, win_h: u32, cx: i64, cy: i64, color: u32)
    requires
        fits(old(buf)@, win_w, win_h),
        -0x2_0000_0000 <= cx <= 0x2_0000_0000,
        -0x2_0000_0000 <= cy <= 0x2_0000_0000,
    ensures
        shows(
            old(buf)@,
            final(buf)@,
            win_w,
            win_h,
            screen(old(buf)@, win_w, win_h).dot(cx as int, cy as int, color),
        ),
{
    let x0: u32 = clamp(cx - 2, 0, win_w);
    let y0: u32 = clamp(cy - 2, 0, win_h);
    let x1: u32 = clamp(cx + 3, 0, win_w);
    let y1: u32 = clamp(cy + 3, 0, win_h);
    let ghost g = |x: int, y: int, c: u32|
        if in_dot(cx as int, cy as int, x, y) {
            Some(color)
        } else {
            None
        };
    let ghost before = screen(buf@, win_w, win_h);
    let f = |x: u32, y: u32, c: u32| -> (r: Option<u32>)
        requires
            cx - 2 <= x < cx + 3,
            cy - 2 <= y < cy + 3,
            -0x2_0000_0000 <= cx <= 0x2_0000_0000,
            -0x2_0000_0000 <= cy <= 0x2_0000_0000
        ensures
            r == (if in_dot(cx as int, cy as int, x as int, y as int) {
                Some(color)
            } else {
                None::<u32>
            })
    {
        let dx: i64 = x as i64 - cx;
        let dy: i64 = y as i64 - cy;
        proof {
            assert(0 <= dx * dx <= 4 && 0 <= dy * dy <= 4) by (nonlinear_arith)
                requires
                    -2 <= dx <= 2,
                    -2 <= dy <= 2,
            ;
        }
        if dx * dx + dy * dy <= 5 {
            Some(color)
        } else {
            None
        }
    };
    paint_box(buf, win_w, win_h, x0, y0, x1, y1, f, Ghost(g));
    assert(before.over(x0 as int, y0 as int, x1 as int, y1 as int, g).at =~= before.dot(
        cx as int,
        cy as int,
        color,
    ).at);
}

/// Draw the spinner round `(cx, cy)`; `offsets` says where its dots lie.
pub fn draw_spinner(
    buf: &mut [u32],
    win_w: u32,
    win_h: u32,
    cx: u32,
    cy: u32,
    offsets: &[(i32, i32)],
    elapsed_ms: u64,
)
    requires
        fits(old(buf)@, win_w, win_h),
        offsets@.len() == DOTS,
    ensures
        shows(
            old(buf)@,
            final(buf)@,
            win_w,
            win_h,
            screen(old(buf)@, win_w, win_h).spinner(
                cx as int,
                cy as int,
                offsets@,
                elapsed_ms,
                DOTS as nat,
            ),
        ),
{
    let ghost before = screen(buf@, win_w, win_h);
    let ghost old_buf = buf@;
    let mut i: usize = 0;
    while i < DOTS
        invariant
            i <= DOTS,
            offsets@.len() == DOTS,
            fits(buf@, win_w, win_h),
            shows(
                old_buf,
                buf@,
                win_w,
                win_h,
                before.spinner(cx as int, cy as int, offsets@, elapsed_ms, i as nat),
            ),
        decreases DOTS - i,
    {
        let x: i64 = cx as i64 + offsets[i].0 as i64;
        let y: i64 = cy as i64 + offsets[i].1 as i64;
        let color: u32 = color_of_dot(i, elapsed_ms);
        draw_dot(buf, win_w, win_h, x, y, color);
        i = i + 1;
    }
}

/// Set every pixel, also those behind the window, to one color.
pub fn clear(buf: &mut [u32], color: u32)
    ensures
        final(buf)@ == Seq::new(old(buf)@.len(), |i: int| color),
{
    let n: usize = buf.len();
    let mut i: usize = 0;
    while i < n
        invariant
            i <= n,
            n == buf@.len(),
            buf@.len() == old(buf)@.len(),
            forall|k: int| 0 <= k < i ==> #[trigger] buf@[k] == color,
        decreases n - i,
    {
        buf[i] = color;
        i = i + 1;
    }
    assert(buf@ =~= Seq::new(old(buf)@.len(), |i: int| color));
}

/// A window in one color.
pub open spec fn blank(width: u32, height: u32, color: u32) -> Screen {
    Screen {
        width,
        height,
        at: |x: int, y: int|
            if 0 <= x < width && 0 <= y < height {
                color
            } else {
                0
            },
    }
}

/// A cleared buffer shows one color.
pub proof fn lemma_clear(buf: Seq<u32>, width: u32, height: u32, color: u32)
    requires
        fits(buf, width, height),
        forall|i: int| 0 <= i < buf.len() ==> #[trigger] buf[i] == color,
    ensures
        screen(buf, width, height) == blank(width, height, color),
{
    assert forall|x: int, y: int| #[trigger]
        (screen(buf, width, height).at)(x, y) == (blank(width, height, color).at)(x, y) by {
        if 0 <= x < width && 0 <= y < height {
            lemma_cell(x, y, width as int, height as int);
            assert(0 <= y * width) by (nonlinear_arith)
                requires
                    y >= 0,
                    width >= 0,
            ;
        }
    }
    assert(screen(buf, width, height).at =~= blank(width, height, color).at);
}

impl Screen {
    /// The overlay, its texts drawn with the 8x8 font: the spinner only while the
    /// connection is being made.
    pub open spec fn overlay(
        self,
        host: Seq<char>,
        message: Seq<char>,
        spin: Option<(Seq<(i32, i32)>, u64)>,
    ) -> Screen {
        let cx = (self.width / 2) as int;
        let cy = (self.height / 2) as int;
        let spun = match spin {
            Some(s) => self.spinner(
                cx,
                if cy >= 72 {
                    cy - 72
                } else {
                    0
                },
                s.0,
                s.1,
                DOTS as nat,
            ),
            None => self,
        };
        spun.text(
            centered(self.width as int, (24 * host.len()) as int),
            if cy >= 28 {
                cy - 28
            } else {
                0
            },
            host,
            TITLE,
            3,
        ).text(centered(self.width as int, (16 * message.len()) as int), cy + 8, message, PROGRESS, 2)
    }
}

/// Draw the overlay with the 8x8 font over a plain background. Without offsets for its
/// dots the spinner is left out.
pub fn draw_overlay(
    buf: &mut [u32],
    win_w: u32,
    win_h: u32,
    background: u32,
    host: &str,
    message: &str,
    offsets: Option<&[(i32, i32)]>,
    elapsed_ms: u64,
)
    requires
        fits(old(buf)@, win_w, win_h),
        win_w + 24 * host@.len() <= u32::MAX,
        win_w + 16 * message@.len() <= u32::MAX,
        match offsets {
            Some(o) => o@.len() == DOTS,
            None => true,
        },
    ensures
        shows(
            Seq::new(old(buf)@.len(), |i: int| background),
            final(buf)@,
            win_w,
            win_h,
            blank(win_w, win_h, background).overlay(
                host@,
                message@,
                match offsets {
                    Some(o) => Some((o@, elapsed_ms)),
                    None => None,
                },
            ),
        ),
{
    clear(buf, background);
    proof {
        lemma_clear(buf@, win_w, win_h, background);
    }
    let cx: u32 = win_w / 2;
    let cy: u32 = win_h / 2;
    if let Some(o) = offsets {
        draw_spinner(buf, win_w, win_h, cx, cy.saturating_sub(72), o, elapsed_ms);
    }
    assert(8 * 3 * host@.len() == 24 * host@.len());
    draw_text_centered(buf, win_w, win_h, cy.saturating_sub(28), host, TITLE, 3);
    assert(8 * 2 * message@.len() == 16 * message@.len());
    draw_text_centered(buf, win_w, win_h, cy + 8, message, PROGRESS, 2);
}

} // verus!
