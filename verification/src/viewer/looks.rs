//! Which pixel of the window shows what.

use crate::text::decimal;
use crate::viewer::cursor::{cursor_at, drawn, CursorState};
use crate::viewer::input::{key_of, InputEvent};
use crate::viewer::overlay::{brightness, in_dot};
use crate::viewer::paint::{
    basic_glyph, byte_of, centered, channel, copied, inked, mixed, over_channel, packed, sampled,
    scaled, Sample, Screen,
};
use crate::viewer::record::without_alpha;
use crate::viewer::toolbar::{
    action_of, bandwidth, button_at, button_color, hit, labels_fit, left_of, lock_color,
    status_line, toolbar_ops, Op, Status, ToolbarAction, Widths,
};
use crate::viewer::window::bar_of;
use crate::wire::{bit_of_byte, lemma_bit_of_byte};
use vstd::prelude::*;

verus! {

/// A packed color gives back its channels, red highest.
pub proof fn law_packed_channels(r: u8, g: u8, b: u8)
    ensures
        packed(r as int, g as int, b as int) <= 0xFF_FFFF,
        channel(packed(r as int, g as int, b as int) as u32, 2) == r,
        channel(packed(r as int, g as int, b as int) as u32, 1) == g,
        channel(packed(r as int, g as int, b as int) as u32, 0) == b,
{
    let c = packed(r as int, g as int, b as int);
    assert(c / 0x10000 == r && c / 0x100 == r * 0x100 + g);
}

/// A desktop as wide as the window is shown below the toolbar: the pixel at `(x, y)` is the
/// one in row `y - bar_h` of the picture, red first. What lies above stays.
pub proof fn law_desktop_pixels(s: Screen, bar_h: int, src: Seq<u8>, x: int, y: int)
    requires
        0 <= bar_h,
        0 <= x < s.width,
        0 <= y < s.height,
    ensures
        ({
            let t = s.over(0, bar_h, s.width as int, s.height as int, copied(src, bar_h, s.width as int));
            let i = 4 * ((y - bar_h) * s.width + x);
            let c = (t.at)(x, y);
            &&& y < bar_h ==> c == (s.at)(x, y)
            &&& y >= bar_h && i + 2 < src.len() ==> channel(c, 2) == src[i] && channel(c, 1)
                == src[i + 1] && channel(c, 0) == src[i + 2]
            &&& y >= bar_h && i + 2 >= src.len() ==> c == 0
        }),
{
    let i = 4 * ((y - bar_h) * s.width + x);
    if y >= bar_h && i + 2 < src.len() {
        assert(0 <= (y - bar_h) * s.width) by (nonlinear_arith)
            requires
                y >= bar_h,
        ;
        law_packed_channels(src[i], src[i + 1], src[i + 2]);
    }
}

/// Two values are mixed between them: none of the second is the first, all of it the
/// second, and in between the result lies between them and as far along as the weight.
pub proof fn law_mixing(a: u8, b: u8, w: int)
    requires
        0 <= w <= 256,
    ensures
        mixed(a as int, b as int, 0) == a,
        mixed(a as int, b as int, 256) == b,
        a <= b ==> a <= mixed(a as int, b as int, w) <= b,
        b <= a ==> b <= mixed(a as int, b as int, w) <= a,
        0 <= (256 * a + (b - a) * w) - 256 * mixed(a as int, b as int, w) < 256,
{
    let m = a * (256 - w) + b * w;
    assert(m == 256 * a + (b - a) * w) by (nonlinear_arith)
        requires
            m == a * (256 - w) + b * w,
    ;
    assert(a * (256 - 0) + b * 0 == 256 * a && a * (256 - 256) + b * 256 == 256 * b);
    if a <= b {
        assert(0 <= (b - a) * w <= (b - a) * 256) by (nonlinear_arith)
            requires
                a <= b,
                0 <= w <= 256,
        ;
    }
    if b <= a {
        assert((b - a) * 256 <= (b - a) * w <= 0) by (nonlinear_arith)
            requires
                b <= a,
                0 <= w <= 256,
        ;
    }
}

/// A scaled desktop: where the weights of a column and a row are 0, a pixel shows the pixel
/// of the picture in the first column and row; where they are 256, that in the second.
pub proof fn law_scaled_pixels(
    s: Screen,
    bar_h: int,
    src: Seq<u8>,
    fb_w: int,
    cols: Seq<Sample>,
    rows: Seq<Sample>,
    x: int,
    y: int,
)
    requires
        0 <= bar_h <= y < s.height,
        0 <= x < s.width,
        0 < fb_w,
        cols.len() == s.width,
        rows.len() == s.height - bar_h,
        cols[x].first <= cols[x].second < fb_w,
        rows[y - bar_h].first <= rows[y - bar_h].second,
        cols[x].weight == 0 || cols[x].weight == 256,
        rows[y - bar_h].weight == 0 || rows[y - bar_h].weight == 256,
        4 * (rows[y - bar_h].second * fb_w + cols[x].second) + 2 < src.len(),
    ensures
        ({
            let t = s.over(
                0,
                bar_h,
                s.width as int,
                s.height as int,
                scaled(src, bar_h, fb_w, cols, rows),
            );
            let cx = if cols[x].weight == 0 {
                cols[x].first
            } else {
                cols[x].second
            };
            let cy = if rows[y - bar_h].weight == 0 {
                rows[y - bar_h].first
            } else {
                rows[y - bar_h].second
            };
            let i = 4 * (cy * fb_w + cx);
            let c = (t.at)(x, y);
            channel(c, 2) == src[i] && channel(c, 1) == src[i + 1] && channel(c, 0) == src[i + 2]
        }),
{
    let col = cols[x];
    let row = rows[y - bar_h];
    let cx = if col.weight == 0 {
        col.first
    } else {
        col.second
    };
    let cy = if row.weight == 0 {
        row.first
    } else {
        row.second
    };
    let i = 4 * (cy * fb_w + cx);
    assert(0 <= row.first * fb_w <= row.second * fb_w) by (nonlinear_arith)
        requires
            0 <= row.first <= row.second,
            0 < fb_w,
    ;
    assert forall|k: int| 0 <= k < 3 implies sampled(src, fb_w, col, row, k) == src[i + k] by {
        law_mixing(
            src[byte_of(col.first as int, row.first as int, fb_w) + k],
            src[byte_of(col.second as int, row.first as int, fb_w) + k],
            0,
        );
        law_mixing(
            src[byte_of(col.first as int, row.second as int, fb_w) + k],
            src[byte_of(col.second as int, row.second as int, fb_w) + k],
            0,
        );
        let a = if col.weight == 0 {
            src[byte_of(col.first as int, row.first as int, fb_w) + k]
        } else {
            src[byte_of(col.second as int, row.first as int, fb_w) + k]
        };
        let b = if col.weight == 0 {
            src[byte_of(col.first as int, row.second as int, fb_w) + k]
        } else {
            src[byte_of(col.second as int, row.second as int, fb_w) + k]
        };
        law_mixing(a, b, 0);
    }
    assert(sampled(src, fb_w, col, row, 0) == src[i + 0]);
    assert(sampled(src, fb_w, col, row, 1) == src[i + 1]);
    assert(sampled(src, fb_w, col, row, 2) == src[i + 2]);
    law_packed_channels(src[i], src[i + 1], src[i + 2]);
}

/// A color over another: fully opaque it is the upper, fully transparent the lower, and
/// between them it lies between.
pub proof fn law_blending(top: u8, bottom: u8, alpha: u8)
    ensures
        over_channel(top as int, bottom as int, 255) == top,
        over_channel(top as int, bottom as int, 0) == bottom,
        top <= bottom ==> top <= over_channel(top as int, bottom as int, alpha as int) <= bottom,
        bottom <= top ==> bottom <= over_channel(top as int, bottom as int, alpha as int) <= top,
{
    let m = top * alpha + bottom * (255 - alpha);
    assert(m == 255 * bottom + (top - bottom) * alpha) by (nonlinear_arith)
        requires
            m == top * alpha + bottom * (255 - alpha),
    ;
    assert(top * 255 + bottom * (255 - 255) == 255 * top && top * 0 + bottom * (255 - 0) == 255
        * bottom);
    if top <= bottom {
        assert((top - bottom) * 255 <= (top - bottom) * alpha <= 0) by (nonlinear_arith)
            requires
                top <= bottom,
                0 <= alpha <= 255,
        ;
    }
    if bottom <= top {
        assert(0 <= (top - bottom) * alpha <= (top - bottom) * 255) by (nonlinear_arith)
            requires
                bottom <= top,
                0 <= alpha <= 255,
        ;
    }
}

/// A box in one color covers its pixels and no others.
pub proof fn law_filled_boxes(s: Screen, x: int, y: int, w: int, h: int, color: u32, px: int, py: int)
    ensures
        (s.filled(x, y, w, h, color).at)(px, py) == (if 0 <= px < s.width && 0 <= py < s.height && x
            <= px < x + w && y <= py < y + h {
            color
        } else {
            (s.at)(px, py)
        }),
{
}

/// Whether a glyph of the 8x8 font, its top left at the origin and its pixels `scale` wide
/// and high, has ink at a pixel: its rows are bytes, the leftmost pixel lowest.
pub open spec fn font_ink(g: Seq<u8>, scale: int, dx: int, dy: int) -> bool {
    0 <= dx < 8 * scale && 0 <= dy < 8 * scale && bit_of_byte(g[dy / scale], 7 - dx / scale)
}

proof fn lemma_font_ink(g: Seq<u8>, x: int, y: int, scale: int, px: int, py: int)
    requires
        0 < scale,
        x <= px < x + 8 * scale,
        y <= py < y + 8 * scale,
    ensures
        inked(g, x, y, scale, px, py) == font_ink(g, scale, px - x, py - y),
{
    let c = (px - x) / scale;
    assert(0 <= c < 8) by (nonlinear_arith)
        requires
            c == (px - x) / scale,
            0 <= px - x < 8 * scale,
            0 < scale,
    ;
    let b = g[(py - y) / scale];
    lemma_bit_of_byte(b, 7 - c);
    assert((b >> (c as u32)) & 1u8 == (b >> (c as u8)) & 1u8);
}

/// Whether character `k` of a text has ink at a pixel: it stands `8 * k` font pixels behind
/// the start.
pub open spec fn char_inks(s: Seq<char>, x: int, y: int, scale: int, k: int, px: int, py: int) -> bool {
    basic_glyph(s[k]) matches Some(g) && font_ink(g, scale, px - (x + 8 * scale * k), py - y)
}

/// A text puts its color on the pixels where one of its characters has ink, and leaves the
/// others.
pub proof fn law_text_pixels(
    s: Screen,
    x: int,
    y: int,
    text: Seq<char>,
    color: u32,
    scale: int,
    px: int,
    py: int,
)
    requires
        0 < scale,
        0 <= px < s.width,
        0 <= py < s.height,
    ensures
        (s.text(x, y, text, color, scale).at)(px, py) == (if exists|k: int|
            0 <= k < text.len() && #[trigger] char_inks(text, x, y, scale, k, px, py) {
            color
        } else {
            (s.at)(px, py)
        }),
        s.text(x, y, text, color, scale).width == s.width,
        s.text(x, y, text, color, scale).height == s.height,
    decreases text.len(),
{
    if text.len() > 0 {
        let f = text.drop_last();
        law_text_pixels(s, x, y, f, color, scale, px, py);
        let n = text.len() - 1;
        assert(text.last() == text[n]);
        let left = x + 8 * scale * n;
        if let Some(g) = basic_glyph(text.last()) {
            if left <= px < left + 8 * scale && y <= py < y + 8 * scale {
                lemma_font_ink(g, left, y, scale, px, py);
            }
        }
        assert forall|k: int| 0 <= k < n implies char_inks(f, x, y, scale, k, px, py)
            == #[trigger] char_inks(text, x, y, scale, k, px, py) by {
            assert(f[k] == text[k]);
        }
        if exists|k: int| 0 <= k < n && #[trigger] char_inks(f, x, y, scale, k, px, py) {
            let k = choose|k: int| 0 <= k < n && #[trigger] char_inks(f, x, y, scale, k, px, py);
            assert(char_inks(text, x, y, scale, k, px, py));
        }
        if exists|k: int|
            0 <= k < text.len() && #[trigger] char_inks(text, x, y, scale, k, px, py) {
            let k = choose|k: int|
                0 <= k < text.len() && #[trigger] char_inks(text, x, y, scale, k, px, py);
            if k < n {
                assert(char_inks(f, x, y, scale, k, px, py));
            }
        }
        let here = char_inks(text, x, y, scale, n, px, py);
        assert(8 * scale * (text.len() - 1) == 8 * scale * n);
    }
}

/// What stands in the middle has as much room to its left as to its right, or a pixel less.
pub proof fn law_centered(total: int, width: int)
    requires
        0 <= width <= total,
    ensures
        ({
            let left = centered(total, width);
            let right = total - width - left;
            0 <= left && (right == left || right == left + 1)
        }),
{
}

/// Buttons stand in a row from the right: the first four pixels from the edge, the others
/// six from the one to their right, each with eleven pixels on both sides of its label.
pub proof fn law_button_row(win_w: u32, widths: Seq<u32>, k: int)
    requires
        labels_fit(widths),
        0 <= k < 7,
        left_of(win_w, widths, k) > 0,
    ensures
        ({
            let b = button_at(win_w, widths, k);
            &&& b.w == widths[k] + 22
            &&& b.x + b.w == (if k == 0 {
                win_w - 4
            } else {
                button_at(win_w, widths, k - 1).x - 6
            })
            &&& b.y == 3 && b.h == 24
        }),
{
    lemma_left_of(win_w, widths, k);
    if k > 0 {
        lemma_left_of(win_w, widths, k - 1);
    }
}

proof fn lemma_left_of(win_w: u32, widths: Seq<u32>, k: int)
    requires
        labels_fit(widths),
        0 <= k < 7,
    ensures
        0 <= left_of(win_w, widths, k) <= win_w,
        k > 0 && left_of(win_w, widths, k) > 0 ==> left_of(win_w, widths, k - 1) > 0,
    decreases k,
{
    if k > 0 {
        lemma_left_of(win_w, widths, k - 1);
    }
}

/// From the right the buttons are: disconnect, full screen, record, view only, curtain,
/// send a file, and the attention sequence.
pub proof fn law_button_order(k: int)
    requires
        0 <= k < 7,
    ensures
        action_of(k) == (if k == 0 {
            ToolbarAction::Disconnect
        } else if k == 1 {
            ToolbarAction::ToggleFullscreen
        } else if k == 2 {
            ToolbarAction::ToggleRecord
        } else if k == 3 {
            ToolbarAction::ToggleViewOnly
        } else if k == 4 {
            ToolbarAction::ToggleCurtain
        } else if k == 5 {
            ToolbarAction::SendFile
        } else {
            ToolbarAction::CtrlAltDel
        }),
{
}

/// A click runs a button that is under it; where none is, it runs none.
pub proof fn law_clicks_meet_buttons(win_w: u32, widths: Seq<u32>, k: int, x: int, y: int)
    requires
        0 <= k <= 7,
    ensures
        hit(win_w, widths, k, x, y) matches Some(a) ==> exists|j: int|
            k <= j < 7 && a == action_of(j) && #[trigger] button_at(win_w, widths, j).covers(x, y),
        hit(win_w, widths, k, x, y) is None ==> forall|j: int|
            k <= j < 7 ==> !#[trigger] button_at(win_w, widths, j).covers(x, y),
    decreases 7 - k,
{
    if k < 7 {
        law_clicks_meet_buttons(win_w, widths, k + 1, x, y);
        if button_at(win_w, widths, k).covers(x, y) {
            assert(action_of(k) == hit(win_w, widths, k, x, y)->0);
        }
    }
}

/// A bandwidth below a mebibyte is shown in whole kibibytes, one below a kibibyte in bytes.
pub proof fn law_bandwidths(bps: u64, n: nat, mebibytes: Seq<char>)
    ensures
        bps < 1024 && n == bps ==> bandwidth(bps, mebibytes) == decimal(n) + " B/s"@,
        1024 <= bps < 1024 * 1024 && n * 1024 <= bps < (n + 1) * 1024 ==> bandwidth(bps, mebibytes)
            == decimal(n) + " KB/s"@,
        bps >= 1024 * 1024 ==> bandwidth(bps, mebibytes) == mebibytes + " MB/s"@,
{
    if n * 1024 <= bps < (n + 1) * 1024 {
        assert(bps / 1024 == n);
    }
}

/// The head of the spinner is brightest, each dot behind it twenty darker, down to 45; the
/// head moves on every 70 milliseconds.
pub proof fn law_spinner_brightness(head: int, behind: int, rounds: int, ms: u64)
    requires
        0 <= head < 12,
        0 <= behind < 12,
        0 <= rounds,
        70 * (12 * rounds + head) <= ms < 70 * (12 * rounds + head + 1),
    ensures
        ({
            let i = if behind <= head {
                head - behind
            } else {
                head - behind + 12
            };
            brightness(i, ms) == (if behind < 10 {
                235 - 20 * behind
            } else {
                45
            })
        }),
{
    let q = ms as int / 70;
    assert(q == 12 * rounds + head);
    assert(q % 12 == head);
    let i = if behind <= head {
        head - behind
    } else {
        head - behind + 12
    };
    assert((head + 12 - i) % 12 == behind);
}

/// A pixel of a cursor's picture: an opaque one replaces what is there, a transparent one
/// leaves it, and so does one that is not there. Red comes first.
pub proof fn law_cursor_pixels(
    rgba: Seq<u8>,
    ox: int,
    oy: int,
    width: int,
    i: int,
    j: int,
    under: u32,
)
    requires
        0 <= i < width,
        0 <= j,
    ensures
        ({
            let at = 4 * (j * width + i);
            let c = cursor_at(rgba, ox, oy, width)(ox + i, oy + j, under);
            &&& at + 3 < rgba.len() && rgba[at + 3] == 255 ==> c is Some && channel(c->0, 2)
                == rgba[at] && channel(c->0, 1) == rgba[at + 1] && channel(c->0, 0) == rgba[at + 2]
            &&& at + 3 < rgba.len() && rgba[at + 3] == 0 ==> c is None
            &&& at + 3 >= rgba.len() ==> c is None
        }),
{
    let at = 4 * (j * width + i);
    assert(0 <= j * width) by (nonlinear_arith)
        requires
            0 <= j,
            0 <= width,
    ;
    assert((oy + j - oy) * width == j * width);
    if at + 3 < rgba.len() && rgba[at + 3] == 255 {
        law_blending(rgba[at], channel(under, 2) as u8, 0);
        law_blending(rgba[at + 1], channel(under, 1) as u8, 0);
        law_blending(rgba[at + 2], channel(under, 0) as u8, 0);
        law_packed_channels(rgba[at], rgba[at + 1], rgba[at + 2]);
        assert(drawn(rgba, at, under) == Some(
            packed(rgba[at] as int, rgba[at + 1] as int, rgba[at + 2] as int) as u32,
        ));
    }
}

/// On an even background the server's cursor vanishes without a trace; elsewhere only the
/// pixels up to 16 from the mouse, and below the toolbar, change.
pub proof fn law_hidden_cursor(
    s: Screen,
    mx: int,
    my: int,
    bar_h: int,
    r: u8,
    g: u8,
    b: u8,
    x: int,
    y: int,
)
    requires
        0 < s.width,
        0 <= bar_h < s.height,
        0 <= mx < s.width,
        bar_h <= my < s.height,
    ensures
        (forall|i: int, j: int|
            0 <= i < s.width && bar_h <= j < s.height ==> #[trigger] (s.at)(i, j) == packed(
                r as int,
                g as int,
                b as int,
            )) ==> (s.hidden(mx, my, bar_h).at)(x, y) == (s.at)(x, y),
        !(mx - 16 <= x <= mx + 16 && my - 16 <= y <= my + 16 && bar_h <= y) ==> (s.hidden(
            mx,
            my,
            bar_h,
        ).at)(x, y) == (s.at)(x, y),
{
    law_packed_channels(r, g, b);
    if forall|i: int, j: int|
        0 <= i < s.width && bar_h <= j < s.height ==> #[trigger] (s.at)(i, j) == packed(
            r as int,
            g as int,
            b as int,
        ) {
        let c = packed(r as int, g as int, b as int) as u32;
        assert(s.near(mx - 22, my, bar_h) == c);
        assert(s.near(mx + 22, my, bar_h) == c);
        assert(s.near(mx, my - 22, bar_h) == c);
        assert(s.near(mx, my + 22, bar_h) == c);
        assert(s.around(mx, my, bar_h, 2) == r);
        assert(s.around(mx, my, bar_h, 1) == g);
        assert(s.around(mx, my, bar_h, 0) == b);
    }
}

/// A scan code keeps its low byte; one above a byte is that of an extended key.
pub proof fn law_scan_codes(scancode: u32, release: bool)
    ensures
        key_of(scancode, release) == (InputEvent::Key {
            release,
            extended: scancode >= 256,
            code: (scancode % 256) as u8,
        }),
{
}

/// A pixel without its alpha keeps its three colors, in order.
pub proof fn law_pixels_without_alpha(rgba: Seq<u8>, p: int, k: int)
    requires
        0 <= p,
        4 * p + 3 < rgba.len(),
        0 <= k < 3,
    ensures
        without_alpha(rgba).len() == rgba.len() as int / 4 * 3,
        without_alpha(rgba)[3 * p + k] == rgba[4 * p + k],
{
    assert((3 * p + k) / 3 == p && (3 * p + k) % 3 == k);
}

/// A tint of full strength is its color, one of none leaves the pixel, and no other pixel
/// changes.
pub proof fn law_tinted_pixels(s: Screen, x: int, y: int, r: u8, g: u8, b: u8, px: int, py: int)
    requires
        0 <= x < s.width && 0 <= y < s.height,
        (s.at)(x, y) <= 0xFF_FFFF,
    ensures
        ({
            let color = packed(r as int, g as int, b as int) as u32;
            &&& (s.tinted(x, y, color, 255).at)(x, y) == color
            &&& (s.tinted(x, y, color, 0).at)(x, y) == (s.at)(x, y)
            &&& (px, py) != (x, y) ==> (s.tinted(x, y, color, 100).at)(px, py) == (s.at)(px, py)
        }),
{
    let c = (s.at)(x, y);
    law_packed_channels(r, g, b);
    law_blending(r, channel(c, 2) as u8, 0);
    law_blending(g, channel(c, 1) as u8, 0);
    law_blending(b, channel(c, 0) as u8, 0);
    assert(packed(channel(c, 2), channel(c, 1), channel(c, 0)) == c);
}

/// A dot of the spinner covers the pixels up to a little over two pixels from its middle;
/// where no later dot lies over it, it shows its own color.
pub proof fn law_spinner_dots(
    s: Screen,
    cx: int,
    cy: int,
    offsets: Seq<(i32, i32)>,
    ms: u64,
    n: nat,
    k: int,
    x: int,
    y: int,
)
    requires
        0 <= k < n <= 12,
        offsets.len() == 12,
        0 <= x < s.width && 0 <= y < s.height,
        in_dot(cx + offsets[k].0, cy + offsets[k].1, x, y),
        forall|j: int|
            k < j < n ==> !in_dot(cx + (#[trigger] offsets[j]).0, cy + offsets[j].1, x, y),
    ensures
        (s.spinner(cx, cy, offsets, ms, n).at)(x, y) == packed(
            brightness(k, ms),
            brightness(k, ms),
            brightness(k, ms),
        ) as u32,
    decreases n,
{
    let m = (n - 1) as nat;
    let o = offsets[m as int];
    lemma_spinner_size(s, cx, cy, offsets, ms, m);
    if k < m {
        law_spinner_dots(s, cx, cy, offsets, ms, m, k, x, y);
        assert(!in_dot(cx + offsets[m as int].0, cy + offsets[m as int].1, x, y));
    } else {
        lemma_dot_box(x - (cx + o.0), y - (cy + o.1));
    }
}

proof fn lemma_dot_box(dx: int, dy: int)
    requires
        dx * dx + dy * dy <= 5,
    ensures
        -2 <= dx <= 2,
        -2 <= dy <= 2,
{
    assert(-2 <= dx <= 2 && -2 <= dy <= 2) by (nonlinear_arith)
        requires
            dx * dx + dy * dy <= 5,
    ;
}

proof fn lemma_spinner_size(
    s: Screen,
    cx: int,
    cy: int,
    offsets: Seq<(i32, i32)>,
    ms: u64,
    n: nat,
)
    ensures
        s.spinner(cx, cy, offsets, ms, n).width == s.width,
        s.spinner(cx, cy, offsets, ms, n).height == s.height,
    decreases n,
{
    if n > 0 {
        lemma_spinner_size(s, cx, cy, offsets, ms, (n - 1) as nat);
    }
}

/// A pixel outside every dot stays.
pub proof fn law_spinner_leaves_the_rest(
    s: Screen,
    cx: int,
    cy: int,
    offsets: Seq<(i32, i32)>,
    ms: u64,
    n: nat,
    x: int,
    y: int,
)
    requires
        n <= 12,
        offsets.len() == 12,
        forall|j: int|
            0 <= j < n ==> !in_dot(cx + (#[trigger] offsets[j]).0, cy + offsets[j].1, x, y),
    ensures
        (s.spinner(cx, cy, offsets, ms, n).at)(x, y) == (s.at)(x, y),
    decreases n,
{
    if n > 0 {
        let m = (n - 1) as nat;
        law_spinner_leaves_the_rest(s, cx, cy, offsets, ms, m, x, y);
        assert(!in_dot(cx + offsets[m as int].0, cy + offsets[m as int].1, x, y));
    }
}

/// A dot is round: the pixels at most two off in one direction and one in the other, and
/// those straight ahead up to two.
pub proof fn law_dots_are_round(cx: int, cy: int, dx: int, dy: int)
    requires
        -3 <= dx <= 3,
        -3 <= dy <= 3,
    ensures
        in_dot(cx, cy, cx + dx, cy + dy) <==> (-2 <= dx <= 2 && -1 <= dy <= 1) || (-1 <= dx <= 1
            && -2 <= dy <= 2),
{
    assert(cx + dx - cx == dx && cy + dy - cy == dy);
    lemma_small_square(dx);
    lemma_small_square(dy);
}

proof fn lemma_small_square(v: int)
    requires
        -3 <= v <= 3,
    ensures
        v * v == (if v == 0 {
            0int
        } else if v == 1 || v == -1 {
            1
        } else if v == 2 || v == -2 {
            4
        } else {
            9
        }),
{
    assert((-1int) * (-1int) == 1 && (-2int) * (-2int) == 4 && (-3int) * (-3int) == 9);
}

/// The overlay without a spinner: the host's name in white and three times the size, 28
/// pixels above the middle; the message in two times the size, 8 pixels below it; both in
/// the middle of the window, and the background elsewhere.
pub proof fn law_overlay_pixels(s: Screen, host: Seq<char>, message: Seq<char>, px: int, py: int)
    requires
        0 <= px < s.width && 0 <= py < s.height,
        s.height >= 56,
    ensures
        ({
            let t = s.overlay(host, message, None);
            let mid = s.height as int / 2;
            let hx = centered(s.width as int, (24 * host.len()) as int);
            let mx = centered(s.width as int, (16 * message.len()) as int);
            (t.at)(px, py) == (if exists|k: int|
                0 <= k < message.len() && #[trigger] char_inks(message, mx, mid + 8, 2, k, px, py) {
                0x00B0_C0D0u32
            } else if exists|k: int|
                0 <= k < host.len() && #[trigger] char_inks(host, hx, mid - 28, 3, k, px, py) {
                0x00FF_FFFFu32
            } else {
                (s.at)(px, py)
            })
        }),
{
    let mid = s.height as int / 2;
    let hx = centered(s.width as int, (24 * host.len()) as int);
    let mx = centered(s.width as int, (16 * message.len()) as int);
    law_text_pixels(s, hx, mid - 28, host, 0x00FF_FFFF, 3, px, py);
    let a = s.text(hx, mid - 28, host, 0x00FF_FFFF, 3);
    law_text_pixels(a, mx, mid + 8, message, 0x00B0_C0D0, 2, px, py);
}

/// The toolbar starts with a bar over the whole width and the upper 30 rows, its hairline in
/// the last of them, the dot and the status line; then come the recording mark and the
/// padlock, if they are shown, the seven buttons and their labels.
pub proof fn law_toolbar_parts(
    win_w: u32,
    win_h: u32,
    st: Status,
    mebibytes: Seq<char>,
    labels: Seq<Seq<char>>,
    w: Widths,
    k: int,
)
    requires
        win_h >= 30,
        0 <= k < 7,
    ensures
        ({
            let ops = toolbar_ops(win_w, win_h, st, mebibytes, labels, w);
            let n = 4 + (if st.recording {
                2int
            } else {
                0
            }) + (if st.security@.len() > 0 {
                3int
            } else {
                0
            });
            let b = button_at(win_w, w.labels@, k);
            &&& ops.len() == n + 14
            &&& ops[0] matches Op::Fill { x, y, w, h, color } && x == 0 && y == 0 && w == win_w && h
                == 30
            &&& ops[1] matches Op::Fill { x, y, w, h, color } && x == 0 && y == 29 && w == win_w
                && h == 1
            &&& ops[2] matches Op::Fill { x, y, w, h, color } && x == 10 && w == 8 && h == 8
            &&& ops[3] matches Op::Text { x, text, color } && x == 26 && text == status_line(
                st,
                mebibytes,
            )
            &&& ops[n + k] matches Op::Fill { x, y, w, h, color } && x == b.x && y == b.y && w
                == b.w && h == b.h
            &&& ops[n + 7 + k] matches Op::Text { x, text, color } && text == labels[k]
        }),
{
}

/// A window that is too low for the toolbar shows none.
pub proof fn law_low_windows_have_no_toolbar(
    win_w: u32,
    win_h: u32,
    st: Status,
    mebibytes: Seq<char>,
    labels: Seq<Seq<char>>,
    w: Widths,
)
    requires
        win_h < 30,
    ensures
        toolbar_ops(win_w, win_h, st, mebibytes, labels, w).len() == 0,
{
}

/// The padlock is green only for an encrypted link to a verified server, red for a link in
/// the clear, and amber for the rest; a button is red while it records, and lit while its
/// toggle is on.
pub proof fn law_toolbar_colors(st: Status, action: ToolbarAction)
    ensures
        st.secure ==> lock_color(st) == 0x0040_C040,
        !st.secure && !st.encrypted ==> lock_color(st) == 0x00D0_3030,
        !st.secure && st.encrypted ==> lock_color(st) == 0x00D0_A030,
        button_color(st, action) == 0x00D0_3030 <==> action == ToolbarAction::ToggleRecord
            && st.recording,
        button_color(st, action) == 0x0030_5A8C <==> (action == ToolbarAction::ToggleCurtain
            && st.curtain) || (action == ToolbarAction::ToggleViewOnly && st.view_only),
{
}

/// The remote cursor is drawn with its hotspot at the mouse: an opaque pixel of its picture
/// shows, as far from the mouse as it is from the hotspot.
pub proof fn law_pointer_pixels(s: Screen, cursor: CursorState, mx: int, my: int, i: int, j: int)
    requires
        0 <= i < cursor.width && 0 <= j < cursor.height,
        4 * (j * cursor.width + i) + 3 < cursor.rgba@.len(),
        cursor.rgba@[4 * (j * cursor.width + i) + 3] == 255,
        0 <= mx - cursor.hotspot_x + i < s.width,
        0 <= my - cursor.hotspot_y + j < s.height,
    ensures
        ({
            let c = (s.pointer(cursor, mx, my).at)(
                mx - cursor.hotspot_x + i,
                my - cursor.hotspot_y + j,
            );
            let at = 4 * (j * cursor.width + i);
            channel(c, 2) == cursor.rgba@[at] && channel(c, 1) == cursor.rgba@[at + 1] && channel(
                c,
                0,
            ) == cursor.rgba@[at + 2]
        }),
{
    let ox = mx - cursor.hotspot_x;
    let oy = my - cursor.hotspot_y;
    let h = s.hidden(mx, my, bar_of(s.height));
    law_cursor_pixels(
        cursor.rgba@,
        ox,
        oy,
        cursor.width as int,
        i,
        j,
        (h.at)(ox + i, oy + j),
    );
}

/// A sample mixes its four pixels by their share: it lies less than two below the exact
/// mean, and never above it.
pub proof fn law_samples_are_weighted_means(
    src: Seq<u8>,
    fb_w: int,
    col: Sample,
    row: Sample,
    k: int,
)
    requires
        col.weight <= 256,
        row.weight <= 256,
    ensures
        ({
            let u = col.weight as int;
            let v = row.weight as int;
            let a = src[4 * (row.first * fb_w + col.first) + k];
            let b = src[4 * (row.first * fb_w + col.second) + k];
            let c = src[4 * (row.second * fb_w + col.first) + k];
            let d = src[4 * (row.second * fb_w + col.second) + k];
            let exact = (a * (256 - u) + b * u) * (256 - v) + (c * (256 - u) + d * u) * v;
            0 <= exact - 65536 * sampled(src, fb_w, col, row, k) < 131072
        }),
{
    let u = col.weight as int;
    let v = row.weight as int;
    let a = src[4 * (row.first * fb_w + col.first) + k];
    let b = src[4 * (row.first * fb_w + col.second) + k];
    let c = src[4 * (row.second * fb_w + col.first) + k];
    let d = src[4 * (row.second * fb_w + col.second) + k];
    assert(byte_of(col.first as int, row.first as int, fb_w) == 4 * (row.first * fb_w + col.first));
    assert(byte_of(col.second as int, row.first as int, fb_w) == 4 * (row.first * fb_w
        + col.second));
    assert(byte_of(col.first as int, row.second as int, fb_w) == 4 * (row.second * fb_w
        + col.first));
    assert(byte_of(col.second as int, row.second as int, fb_w) == 4 * (row.second * fb_w
        + col.second));
    let e1 = a * (256 - u) + b * u;
    let e2 = c * (256 - u) + d * u;
    let m1 = e1 / 256;
    let m2 = e2 / 256;
    let t = m1 * (256 - v) + m2 * v;
    let s = t / 256;
    assert(sampled(src, fb_w, col, row, k) == s);
    let r1 = e1 - 256 * m1;
    let r2 = e2 - 256 * m2;
    assert(0 <= r1 < 256 && 0 <= r2 < 256);
    let exact = e1 * (256 - v) + e2 * v;
    assert(exact == 256 * t + (r1 * (256 - v) + r2 * v)) by (nonlinear_arith)
        requires
            exact == e1 * (256 - v) + e2 * v,
            e1 == 256 * m1 + r1,
            e2 == 256 * m2 + r2,
            t == m1 * (256 - v) + m2 * v,
    ;
    assert(0 <= r1 * (256 - v) + r2 * v <= 255 * 256) by (nonlinear_arith)
        requires
            0 <= r1 <= 255,
            0 <= r2 <= 255,
            0 <= v <= 256,
    ;
}

/// Where the server's cursor is hidden, each channel is the mean of those of the four pixels
/// 22 to the left, to the right, above and below the mouse.
pub proof fn law_hidden_cursor_is_the_mean(
    s: Screen,
    mx: int,
    my: int,
    bar_h: int,
    k: int,
)
    requires
        0 <= bar_h,
        22 <= mx < s.width - 22,
        bar_h + 22 <= my < s.height - 22,
        0 <= k < 3,
    ensures
        ({
            let c = (s.hidden(mx, my, bar_h).at)(mx, my);
            let sum = channel((s.at)(mx - 22, my), k) + channel((s.at)(mx + 22, my), k) + channel(
                (s.at)(mx, my - 22),
                k,
            ) + channel((s.at)(mx, my + 22), k);
            0 <= sum - 4 * channel(c, k) < 4
        }),
{
    law_packed_channels(
        s.around(mx, my, bar_h, 2) as u8,
        s.around(mx, my, bar_h, 1) as u8,
        s.around(mx, my, bar_h, 0) as u8,
    );
}

/// A label stands in the middle of its button, eleven pixels from its edge.
pub proof fn law_labels_are_centered(
    win_w: u32,
    win_h: u32,
    st: Status,
    mebibytes: Seq<char>,
    labels: Seq<Seq<char>>,
    w: Widths,
    k: int,
)
    requires
        win_h >= 30,
        0 <= k < 7,
        labels_fit(w.labels@),
        win_w <= 0x7FFF_FFFF,
        w.labels@[k] <= 0x7FFF,
    ensures
        ({
            let ops = toolbar_ops(win_w, win_h, st, mebibytes, labels, w);
            let b = button_at(win_w, w.labels@, k);
            ops[ops.len() - 7 + k] matches Op::Text { x, text, color } && x == b.x + 11 && text
                == labels[k]
        }),
{
    law_toolbar_parts(win_w, win_h, st, mebibytes, labels, w, k);
    lemma_left_of(win_w, w.labels@, k);
}

/// The recording mark stands sixteen pixels behind the status line; the padlock behind it,
/// or in its place if nothing is recorded.
pub proof fn law_toolbar_marks(
    win_w: u32,
    win_h: u32,
    st: Status,
    mebibytes: Seq<char>,
    labels: Seq<Seq<char>>,
    w: Widths,
)
    requires
        win_h >= 30,
        w.status <= 0xFFFF && w.rec <= 0xFFFF,
    ensures
        ({
            let ops = toolbar_ops(win_w, win_h, st, mebibytes, labels, w);
            let at = 42 + w.status;
            let lock = if st.recording {
                at + 14 + w.rec + 18
            } else {
                at
            };
            let n = if st.recording {
                6int
            } else {
                4
            };
            &&& st.recording ==> (ops[4] matches Op::Fill { x, y, w, h, color } && x == at && w == 8
                && h == 8)
            &&& st.recording ==> (ops[5] matches Op::Text { x, text, color } && x == at + 14)
            &&& st.security@.len() > 0 ==> (ops[n] matches Op::Fill { x, y, w, h, color } && x
                == lock)
            &&& st.security@.len() > 0 ==> (ops[n + 2] matches Op::Text { x, text, color } && x
                == lock + 15 && text == st.security@)
        }),
{
}

} // verus!
