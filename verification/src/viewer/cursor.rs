//! The remote cursor, drawn at the local mouse position so that it follows the mouse
//! without a round trip to the server.

use crate::rdp::sink::PointerUpdate;
use crate::viewer::paint::{
    blend, channel, fits, over_channel, pack, packed, paint_box, place, screen, shows, Screen,
};
use vstd::prelude::*;

verus! {

/// Half the side of the box in which the server paints its own cursor.
pub const HALF: i64 = 16;

/// How far from its middle the background of that box is sampled.
pub const REACH: i64 = 22;

/// The remote cursor shape.
pub struct CursorState {
    /// Whether there is a shape to draw; without one the local cursor shows.
    pub draw: bool,
    pub width: u16,
    pub height: u16,
    pub hotspot_x: u16,
    pub hotspot_y: u16,
    pub rgba: Vec<u8>,
}

impl CursorState {
    pub fn new() -> (c: Self)
        ensures
            !c.draw,
            c.width == 0 && c.height == 0 && c.hotspot_x == 0 && c.hotspot_y == 0,
            c.rgba@.len() == 0,
    {
        CursorState {
            draw: false,
            width: 0,
            height: 0,
            hotspot_x: 0,
            hotspot_y: 0,
            rgba: Vec::new(),
        }
    }

    /// A bitmap replaces the shape; a hidden or default pointer only switches the
    /// drawing off.
    pub fn apply(&mut self, update: PointerUpdate)
        ensures
            match update {
                PointerUpdate::Bitmap(p) => final(self).draw && final(self).width == p.width
                    && final(self).height == p.height && final(self).hotspot_x == p.hotspot_x
                    && final(self).hotspot_y == p.hotspot_y && final(self).rgba == p.rgba,
                _ => *final(self) == (CursorState { draw: false, ..*old(self) }),
            },
    {
        match update {
            PointerUpdate::Bitmap(p) => {
                self.draw = true;
                self.width = p.width;
                self.height = p.height;
                self.hotspot_x = p.hotspot_x;
                self.hotspot_y = p.hotspot_y;
                self.rgba = p.rgba;
            },
            PointerUpdate::Hidden | PointerUpdate::SystemDefault => {
                self.draw = false;
            },
        }
    }

    /// Whether the shape is drawn: there is one, and the mouse is over the desktop.
    pub fn shown(&self, inside: bool, below_toolbar: bool) -> (r: bool)
        ensures
            r == (self.draw && self.rgba@.len() > 0 && inside && below_toolbar),
    {
        self.draw && self.rgba.len() > 0 && inside && below_toolbar
    }
}

/// The nearest value of a range.
pub open spec fn nearest(v: int, lo: int, hi: int) -> int {
    if v < lo {
        lo
    } else if v > hi {
        hi
    } else {
        v
    }
}

pub(crate) fn clamp(v: i64, lo: u32, hi: u32) -> (r: u32)
    requires
        lo <= hi,
    ensures
        r == nearest(v as int, lo as int, hi as int),
        lo <= r <= hi,
{
    if v < lo as i64 {
        lo
    } else if v > hi as i64 {
        hi
    } else {
        v as u32
    }
}

impl Screen {
    /// The pixel nearest to a place on the desktop below the toolbar.
    pub open spec fn near(self, x: int, y: int, bar_h: int) -> u32 {
        (self.at)(nearest(x, 0, self.width - 1), nearest(y, bar_h, self.height - 1))
    }

    /// The average of one channel over the four samples round the cursor's box.
    pub open spec fn around(self, mx: int, my: int, bar_h: int, k: int) -> int {
        (channel(self.near(mx - REACH, my, bar_h), k) + channel(
            self.near(mx + REACH, my, bar_h),
            k,
        ) + channel(self.near(mx, my - REACH, bar_h), k) + channel(
            self.near(mx, my + REACH, bar_h),
            k,
        )) / 4
    }

    /// The box of the server's own cursor, filled with what lies around it.
    pub open spec fn hidden(self, mx: int, my: int, bar_h: int) -> Screen {
        let color = packed(
            self.around(mx, my, bar_h, 2),
            self.around(mx, my, bar_h, 1),
            self.around(mx, my, bar_h, 0),
        ) as u32;
        self.over(
            nearest(mx - HALF, 0, self.width - 1),
            nearest(my - HALF, bar_h, self.height - 1),
            nearest(mx + HALF, 0, self.width - 1) + 1,
            nearest(my + HALF, bar_h, self.height - 1) + 1,
            |x: int, y: int, c: u32| Some(color),
        )
    }
}

fn look(buf: &[u32], win_w: u32, win_h: u32, x: i64, y: i64, bar_h: u32) -> (c: u32)
    requires
        fits(buf@, win_w, win_h),
        win_w > 0,
        bar_h < win_h,
    ensures
        c == screen(buf@, win_w, win_h).near(x as int, y as int, bar_h as int),
{
    let px: u32 = clamp(x, 0, win_w - 1);
    let py: u32 = clamp(y, bar_h, win_h - 1);
    let i: usize = place(px, py, win_w, win_h, buf.len());
    buf[i]
}

fn average(a: u32, b: u32, c: u32, d: u32) -> (r: u32)
    ensures
        r == packed(
            (channel(a, 2) + channel(b, 2) + channel(c, 2) + channel(d, 2)) / 4,
            (channel(a, 1) + channel(b, 1) + channel(c, 1) + channel(d, 1)) / 4,
            (channel(a, 0) + channel(b, 0) + channel(c, 0) + channel(d, 0)) / 4,
        ),
{
    let red: u32 = (a / 0x10000 % 0x100 + b / 0x10000 % 0x100 + c / 0x10000 % 0x100 + d / 0x10000
        % 0x100) / 4;
    let green: u32 = (a / 0x100 % 0x100 + b / 0x100 % 0x100 + c / 0x100 % 0x100 + d / 0x100 % 0x100)
        / 4;
    let blue: u32 = (a % 0x100 + b % 0x100 + c % 0x100 + d % 0x100) / 4;
    pack(red, green, blue)
}

/// Fill the box in which the server painted its own cursor with the background around
/// it.
pub fn hide_painted_cursor(
    buf: &mut [u32],
    win_w: u32,
    win_h: u32,
    bar_h: u32,
    mx: i32,
    my: i32,
)
    requires
        fits(old(buf)@, win_w, win_h),
        win_w > 0,
        bar_h < win_h,
    ensures
        shows(
            old(buf)@,
            final(buf)@,
            win_w,
            win_h,
            screen(old(buf)@, win_w, win_h).hidden(mx as int, my as int, bar_h as int),
        ),
{
    let x: i64 = mx as i64;
    let y: i64 = my as i64;
    let s1: u32 = look(buf, win_w, win_h, x - REACH, y, bar_h);
    let s2: u32 = look(buf, win_w, win_h, x + REACH, y, bar_h);
    let s3: u32 = look(buf, win_w, win_h, x, y - REACH, bar_h);
    let s4: u32 = look(buf, win_w, win_h, x, y + REACH, bar_h);
    let color: u32 = average(s1, s2, s3, s4);
    let x0: u32 = clamp(x - HALF, 0, win_w - 1);
    let y0: u32 = clamp(y - HALF, bar_h, win_h - 1);
    let x1: u32 = clamp(x + HALF, 0, win_w - 1) + 1;
    let y1: u32 = clamp(y + HALF, bar_h, win_h - 1) + 1;
    let f = |px: u32, py: u32, c: u32| -> (r: Option<u32>)
        ensures r == Some(color)
    {
        Some(color)
    };
    let ghost g = |px: int, py: int, c: u32| Some(color);
    let ghost before = screen(buf@, win_w, win_h);
    paint_box(buf, win_w, win_h, x0, y0, x1, y1, f, Ghost(g));
    assert(before.over(x0 as int, y0 as int, x1 as int, y1 as int, g).at =~= before.hidden(
        mx as int,
        my as int,
        bar_h as int,
    ).at);
}

/// The pixel of a cursor that starts at a byte of its picture, over what is there:
/// nothing where the picture ends first or is transparent.
pub open spec fn drawn(rgba: Seq<u8>, i: int, under: u32) -> Option<u32> {
    if i + 3 >= rgba.len() || rgba[i + 3] == 0 {
        None
    } else {
        let a = rgba[i + 3] as int;
        Some(
            packed(
                over_channel(rgba[i] as int, channel(under, 2), a),
                over_channel(rgba[i + 1] as int, channel(under, 1), a),
                over_channel(rgba[i + 2] as int, channel(under, 0), a),
            ) as u32,
        )
    }
}

/// A cursor's picture, its upper left corner at `(ox, oy)`.
pub open spec fn cursor_at(rgba: Seq<u8>, ox: int, oy: int, width: int) -> spec_fn(
    int,
    int,
    u32,
) -> Option<u32> {
    |x: int, y: int, c: u32| drawn(rgba, ((y - oy) * width + (x - ox)) * 4, c)
}

fn draw_pixel(rgba: &[u8], i: u64, under: u32) -> (r: Option<u32>)
    requires
        i <= 0x4_0000_0000,
    ensures
        r == drawn(rgba@, i as int, under),
{
    assert(rgba.len() == rgba@.len());
    if i + 3 >= rgba.len() as u64 {
        return None;
    }
    let k: usize = i as usize;
    let a: u32 = rgba[k + 3] as u32;
    if a == 0 {
        None
    } else {
        let red: u32 = blend(rgba[k] as u32, under / 0x10000 % 0x100, a);
        let green: u32 = blend(rgba[k + 1] as u32, under / 0x100 % 0x100, a);
        let blue: u32 = blend(rgba[k + 2] as u32, under % 0x100, a);
        Some(pack(red, green, blue))
    }
}

/// The nearest value from zero to `hi`, for an edge of the picture.
fn edge(v: i64, hi: u32) -> (r: u32)
    ensures
        r == nearest(v as int, 0, hi as int),
{
    clamp(v, 0, hi)
}

/// Draw the cursor with its hotspot at the mouse position; opaque pixels replace what
/// is there, others are mixed with it.
pub fn draw_cursor(
    buf: &mut [u32],
    win_w: u32,
    win_h: u32,
    cursor: &CursorState,
    mx: i32,
    my: i32,
)
    requires
        fits(old(buf)@, win_w, win_h),
    ensures
        shows(
            old(buf)@,
            final(buf)@,
            win_w,
            win_h,
            screen(old(buf)@, win_w, win_h).over(
                mx - cursor.hotspot_x,
                my - cursor.hotspot_y,
                mx - cursor.hotspot_x + cursor.width,
                my - cursor.hotspot_y + cursor.height,
                cursor_at(
                    cursor.rgba@,
                    mx - cursor.hotspot_x,
                    my - cursor.hotspot_y,
                    cursor.width as int,
                ),
            ),
        ),
{
    let ox: i64 = mx as i64 - cursor.hotspot_x as i64;
    let oy: i64 = my as i64 - cursor.hotspot_y as i64;
    let x0: u32 = edge(ox, win_w);
    let y0: u32 = edge(oy, win_h);
    let x1: u32 = edge(ox + cursor.width as i64, win_w);
    let y1: u32 = edge(oy + cursor.height as i64, win_h);
    let ghost g = cursor_at(cursor.rgba@, ox as int, oy as int, cursor.width as int);
    let ghost before = screen(buf@, win_w, win_h);
    let f = |x: u32, y: u32, c: u32| -> (r: Option<u32>)
        requires
            -0x1_0000_0000 < ox <= x,
            x < ox + cursor.width,
            -0x1_0000_0000 < oy <= y,
            y < oy + cursor.height
        ensures
            r == cursor_at(cursor.rgba@, ox as int, oy as int, cursor.width as int)(
                x as int,
                y as int,
                c,
            )
    {
        let i: u64 = (x as i64 - ox) as u64;
        let j: u64 = (y as i64 - oy) as u64;
        proof {
            assert(0 <= j * cursor.width <= 0xFFFE * 0xFFFF) by (nonlinear_arith)
                requires
                    0 <= j < 0xFFFF,
                    0 <= cursor.width <= 0xFFFF,
            ;
        }
        draw_pixel(&cursor.rgba, (j * cursor.width as u64 + i) * 4, c)
    };
    paint_box(buf, win_w, win_h, x0, y0, x1, y1, f, Ghost(g));
    assert(before.over(x0 as int, y0 as int, x1 as int, y1 as int, g).at =~= before.over(
        ox as int,
        oy as int,
        ox + cursor.width,
        oy + cursor.height,
        g,
    ).at);
}

/// A cursor without transparency replaces whatever it covers.
pub proof fn law_opaque_cursor_covers(rgba: Seq<u8>, i: int, a: u32, b: u32)
    requires
        0 <= i,
        i + 3 < rgba.len(),
        rgba[i + 3] == 255,
    ensures
        drawn(rgba, i, a) == drawn(rgba, i, b),
        drawn(rgba, i, a) == Some(
            packed(rgba[i] as int, rgba[i + 1] as int, rgba[i + 2] as int) as u32,
        ),
{
}

} // verus!
