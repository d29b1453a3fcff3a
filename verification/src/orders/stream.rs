//! How an update is cut into orders, and which way lines and boxes go.

use crate::orders::canvas::{CanvasView, Rect};
use crate::orders::cursor::Reading;
use crate::orders::header::{field_bytes_of, flag_set, wire_field_bytes};
use crate::orders::layout::{moved_to, unsigned16};
use crate::orders::primary::{lemma_line_step, Line};
use crate::orders::processor::{ProcessOutcome, ProcessorView};
use crate::orders::secondary::applied;
use vstd::prelude::*;

verus! {

/// How many bytes of field flags an order type has.
pub proof fn law_flag_byte_counts(t: u8)
    ensures
        t == 0x00 || t == 0x02 || t == 0x0A ==> field_bytes_of(t) == Some(1u8),
        t == 0x01 || t == 0x09 || t == 0x0D || t == 0x18 ==> field_bytes_of(t) == Some(2u8),
        t == 0x13 || t == 0x1B ==> field_bytes_of(t) == Some(3u8),
        t > 0x1B ==> field_bytes_of(t) is None,
        field_bytes_of(t) matches Some(n) ==> 1 <= n <= 3,
{
}

/// How many of them are on the wire: bit 6 of the control byte leaves one out, bit 7 two.
pub open spec fn flags_on_wire(control: u8, n: int) -> int {
    let m = n - control as int / 64 % 2 - 2 * (control as int / 128);
    if m < 0 {
        0
    } else {
        m
    }
}

/// The number that field flags of up to three bytes make, the lowest first.
pub open spec fn flags_number(b: Seq<u8>, i: int, n: int) -> int {
    if n <= 0 {
        0
    } else if n == 1 {
        b[i] as int
    } else if n == 2 {
        b[i] + 256 * b[i + 1]
    } else {
        b[i] + 256 * b[i + 1] + 65536 * b[i + 2]
    }
}

proof fn lemma_control(control: u8)
    ensures
        flag_set(control, 0x01) == (control % 2 == 1),
        flag_set(control, 0x02) == (control / 2 % 2 == 1),
        flag_set(control, 0x04) == (control / 4 % 2 == 1),
        flag_set(control, 0x08) == (control / 8 % 2 == 1),
        flag_set(control, 0x10) == (control / 16 % 2 == 1),
        flag_set(control, 0x20) == (control / 32 % 2 == 1),
        flag_set(control, 0x40) == (control / 64 % 2 == 1),
        flag_set(control, 0x80) == (control / 128 == 1),
        control >> 2 == control / 4,
{
    assert((control & 1 != 0) == (control % 2 == 1) && (control & 2 != 0) == (control / 2 % 2 == 1)
        && (control & 4 != 0) == (control / 4 % 2 == 1) && (control & 8 != 0) == (control / 8 % 2
        == 1) && (control & 16 != 0) == (control / 16 % 2 == 1) && (control & 32 != 0) == (control
        / 32 % 2 == 1) && (control & 64 != 0) == (control / 64 % 2 == 1) && (control & 128 != 0)
        == (control / 128 == 1) && control >> 2 == control / 4) by (bit_vector);
}

proof fn lemma_or_bytes(a: u8, b: u8, c: u8)
    ensures
        0u32 | ((a as u32) << 0u32) == a,
        (a as u32) | ((b as u32) << 8u32) == a + 256 * b,
        ((a + 256 * b) as u32) | ((c as u32) << 16u32) == a + 256 * b + 65536 * c,
{
    assert(0u32 | ((a as u32) << 0u32) == a as u32) by (bit_vector);
    assert((a as u32) | ((b as u32) << 8u32) == a + 256 * b) by (bit_vector);
    assert(((a + 256 * b) as u32) | ((c as u32) << 16u32) == a + 256 * b + 65536 * c)
        by (bit_vector);
}

/// The field flags are read in that order, and the reading ends behind them.
pub proof fn law_field_flags(d: Reading, control: u8, n: u8)
    requires
        d.live(),
        n <= 3,
        d.remaining() >= flags_on_wire(control, n as int),
    ensures
        ({
            let (e, ff) = d.field_flags(control, n);
            let m = flags_on_wire(control, n as int);
            e == moved_to(d, d.pos + m) && ff == flags_number(d.data, d.pos, m)
        }),
{
    lemma_control(control);
    let m = wire_field_bytes(control, n);
    assert(m == flags_on_wire(control, n as int));
    let (a, b, c) = (d.data[d.pos], d.data[d.pos + 1], d.data[d.pos + 2]);
    lemma_or_bytes(a, b, c);
    let d1 = moved_to(d, d.pos + 1);
    let d2 = moved_to(d, d.pos + 2);
    let d3 = moved_to(d, d.pos + 3);
    let f1 = a as u32;
    let f2 = (a + 256 * b) as u32;
    let f3 = (a + 256 * b + 65536 * c) as u32;
    assert(d3.flag_bytes(3, m, f3) == (d3, f3));
    if m >= 3 {
        assert(d2.flag_bytes(2, m, f2) == d3.flag_bytes(3, m, f3));
    }
    if m >= 2 {
        assert(d1.flag_bytes(1, m, f1) == d2.flag_bytes(2, m, f2));
    }
    if m >= 1 {
        assert(d.flag_bytes(0, m, 0) == d1.flag_bytes(1, m, f1));
    }
}

/// A box between inclusive edges holds the pixels between them, the edges among them.
pub proof fn law_inclusive_edges(left: i32, top: i32, right: i32, bottom: i32, x: int, y: int)
    requires
        -0x3fff_ffff <= left && right <= 0x3fff_ffff,
        -0x3fff_ffff <= top && bottom <= 0x3fff_ffff,
        left <= 0x4000_0000 && -0x3fff_ffff <= right,
        top <= 0x4000_0000 && -0x3fff_ffff <= bottom,
    ensures
        Rect::inclusive(left, top, right, bottom).contains(x, y) <==> left <= x <= right && top
            <= y <= bottom,
{
}

/// A primary order: a type if bit 3 of the control byte is set, else that of the order
/// before; the field flags; new bounds if bit 2 is set and bit 5 is not; then the fields,
/// in delta form if bit 4 is set. It is clipped to the bounds exactly if bit 2 is set.
pub proof fn law_primary_header(s: ProcessorView, d: Reading, control: u8, t: u8, n: u8)
    requires
        d.live(),
        d.remaining() >= 4,
        field_bytes_of(t) == Some(n),
        if control / 8 % 2 == 1 {
            t == d.data[d.pos]
        } else {
            s.order_type == Some(t)
        },
    ensures
        ({
            let p = d.pos + (if control / 8 % 2 == 1 {
                1int
            } else {
                0
            });
            let m = flags_on_wire(control, n as int);
            let ff = flags_number(d.data, p, m) as u32;
            let delta = control / 16 % 2 == 1;
            let e = moved_to(d, p + m);
            let typed = ProcessorView { order_type: Some(t), ..s };
            if control / 4 % 2 == 0 {
                s.primary(d, control) == typed.render(e, t, ff, delta, None)
            } else {
                let (f, b) = if control / 32 % 2 == 1 {
                    (e, s.bounds)
                } else {
                    s.bounds.updated(e)
                };
                f.ok() ==> s.primary(d, control) == ProcessorView { bounds: b, ..typed }.render(
                    f,
                    t,
                    ff,
                    delta,
                    Some(Rect::inclusive(b.left, b.top, b.right, b.bottom)),
                )
            }
        }),
{
    lemma_control(control);
    let p = d.pos + (if control / 8 % 2 == 1 {
        1int
    } else {
        0
    });
    let d1 = moved_to(d, p);
    law_flag_byte_counts(t);
    law_field_flags(d1, control, n);
    assert(ProcessorView { bounds: s.bounds, order_type: Some(t), ..s } =~= (ProcessorView {
        order_type: Some(t),
        ..s
    }));
}

/// A primary order before any type is known, or of a type that does not exist, is an error
/// and draws nothing.
pub proof fn law_unknown_types_are_errors(s: ProcessorView, d: Reading, control: u8)
    requires
        d.live(),
        d.remaining() >= 1,
        if control / 8 % 2 == 1 {
            field_bytes_of(d.data[d.pos]) is None
        } else {
            s.order_type matches Some(t) ==> field_bytes_of(t) is None
        },
    ensures
        !s.primary(d, control).0.ok(),
        s.primary(d, control).1.canvas == s.canvas,
{
    lemma_control(control);
}

/// A secondary order: the length, the flags and the type, in two, two and one bytes, then
/// a payload of seven bytes more than the length, or what is left. It goes to the caches;
/// nothing else changes, and the stream goes on behind the payload.
pub proof fn law_secondary_framing(s: ProcessorView, d: Reading)
    requires
        d.live(),
        d.remaining() >= 5,
    ensures
        ({
            let b = d.data;
            let end = d.pos + 5 + unsigned16(b, d.pos) + 7;
            let stop = if end <= b.len() {
                end
            } else {
                b.len() as int
            };
            let (e, t) = s.secondary(d);
            &&& e == moved_to(d, stop)
            &&& t == (ProcessorView { caches: t.caches, ..s })
            &&& t.caches == applied(
                b[d.pos + 4],
                unsigned16(b, d.pos + 2) as u16,
                b.subrange(d.pos + 5, stop),
                s.caches,
            ).1
        }),
{
}

/// One more order of the stream. An even control byte is an alternate secondary order: with
/// 0x0D in its upper six bits it has four more bytes, with 0 two, and others end the update.
/// Bit 1 of an odd one tells secondary from primary orders.
pub proof fn law_stream_step(s: ProcessorView, d: Reading, total: nat, out: ProcessOutcome)
    requires
        d.live(),
        d.remaining() >= 5,
        out.count() < total <= 0xffff,
    ensures
        ({
            let control = d.data[d.pos];
            let p = moved_to(d, d.pos + 1);
            let now = s.orders(d, total, out);
            let passed = ProcessOutcome { skipped: (out.skipped + 1) as usize, ..out };
            let counted = ProcessOutcome { orders: (out.orders + 1) as usize, ..out };
            if control % 2 == 0 {
                if control / 4 == 0x0D {
                    now == s.orders(moved_to(d, d.pos + 5), total, passed)
                } else if control / 4 == 0 {
                    now == s.orders(moved_to(d, d.pos + 3), total, passed)
                } else {
                    now == (p, s, passed)
                }
            } else if control / 2 % 2 == 1 {
                let (e, t) = s.secondary(p);
                if e.ok() {
                    now == t.orders(e, total, counted)
                } else {
                    now == (e, t, out)
                }
            } else {
                let (e, t, r) = s.primary(p, control);
                if !e.ok() {
                    now == (e, t, out)
                } else if r.w <= 0 || r.h <= 0 {
                    now == t.orders(e, total, counted)
                } else {
                    now == t.orders(
                        e,
                        total,
                        ProcessOutcome {
                            dirty: match out.dirty {
                                None => Some(r),
                                Some(a) => Some(a.join(r)),
                            },
                            ..counted
                        },
                    )
                }
            }
        }),
{
    lemma_control(d.data[d.pos]);
    assert(out.draw(Rect { x: 0, y: 0, w: 0, h: 0 }) == out.decode());
}

/// The stream ends with the announced number of orders, or with the data.
pub proof fn law_stream_ends(s: ProcessorView, d: Reading, total: nat, out: ProcessOutcome)
    requires
        out.count() >= total || d.remaining() <= 0,
    ensures
        s.orders(d, total, out) == (d, s, out),
{
}

/// An update starts with the number of orders, in two bytes.
pub proof fn law_update_starts_with_the_count(s: ProcessorView, data: Seq<u8>)
    requires
        2 <= data.len() <= usize::MAX,
    ensures
        s.update(data) == s.orders(
            Reading { data, pos: 2, err: None },
            unsigned16(data, 0) as nat,
            ProcessOutcome { dirty: None, orders: 0, skipped: 0 },
        ),
{
}

/// The join of two boxes with pixels is the smallest box around both: a pixel is in it
/// exactly if it is in no column left or right of both, and in no row above or below both.
pub proof fn law_join_is_the_smallest_box(a: Rect, b: Rect, x: int, y: int)
    requires
        0 < a.w && 0 < a.h && 0 < b.w && 0 < b.h,
        -0x3fff_ffff <= a.x && a.x + a.w <= 0x3fff_ffff,
        -0x3fff_ffff <= a.y && a.y + a.h <= 0x3fff_ffff,
        -0x3fff_ffff <= b.x && b.x + b.w <= 0x3fff_ffff,
        -0x3fff_ffff <= b.y && b.y + b.h <= 0x3fff_ffff,
    ensures
        a.join(b).contains(x, y) <==> (a.x <= x || b.x <= x) && (x < a.x + a.w || x < b.x + b.w)
            && (a.y <= y || b.y <= y) && (y < a.y + a.h || y < b.y + b.h),
{
}

/// The meet of two boxes holds the pixels that are in both.
pub proof fn law_meet_is_the_common_box(a: Rect, b: Rect, x: int, y: int)
    requires
        0 <= a.w && 0 <= a.h && 0 <= b.w && 0 <= b.h,
        -0x3fff_ffff <= a.x && a.x + a.w <= 0x3fff_ffff,
        -0x3fff_ffff <= a.y && a.y + a.h <= 0x3fff_ffff,
        -0x3fff_ffff <= b.x && b.x + b.w <= 0x3fff_ffff,
        -0x3fff_ffff <= b.y && b.y + b.h <= 0x3fff_ffff,
    ensures
        a.meet(b).contains(x, y) <==> a.contains(x, y) && b.contains(x, y),
{
}

/// What an order may touch is the part of its box that lies on the canvas and in the clip.
pub proof fn law_clip_is_what_is_shared(
    canvas: CanvasView,
    dst: Rect,
    clip: Option<Rect>,
    x: int,
    y: int,
)
    requires
        0 <= dst.w && 0 <= dst.h,
        -0x3fff_ffff <= dst.x && dst.x + dst.w <= 0x3fff_ffff,
        -0x3fff_ffff <= dst.y && dst.y + dst.h <= 0x3fff_ffff,
        clip matches Some(b) ==> 0 <= b.w && 0 <= b.h && -0x3fff_ffff <= b.x && b.x + b.w
            <= 0x3fff_ffff && -0x3fff_ffff <= b.y && b.y + b.h <= 0x3fff_ffff,
        canvas.width <= 0xffff,
        canvas.height <= 0xffff,
    ensures
        canvas.clip(dst, clip).contains(x, y) <==> dst.contains(x, y) && 0 <= x < canvas.width && 0
            <= y < canvas.height && (clip matches Some(b) ==> b.contains(x, y)),
{
}

/// How far a pixel is off the line between two points, as an area.
pub open spec fn off_line(l: Line, x: int, y: int) -> int {
    (y - l.y0) * (l.x1 - l.x0) - (x - l.x0) * (l.y1 - l.y0)
}

spec fn lead(l: Line) -> int {
    l.b * l.dx() - l.a * l.dy()
}

spec fn balanced(l: Line) -> bool {
    &&& -l.dx() <= 2 * lead(l) <= l.dx() || l.dx() < l.dy()
    &&& -l.dy() <= 2 * lead(l) <= l.dy() || l.dy() < l.dx()
}

proof fn lemma_err(l: Line)
    ensures
        l.err() == lead(l) + l.dx() - l.dy(),
{
    assert((l.b + 1) * l.dx() == l.b * l.dx() + l.dx()) by (nonlinear_arith);
    assert((l.a + 1) * l.dy() == l.a * l.dy() + l.dy()) by (nonlinear_arith);
}

proof fn lemma_balance(l: Line)
    requires
        l.on_way(),
        !l.at_end(),
        balanced(l),
    ensures
        balanced(l.next()),
        l.dx() >= l.dy() ==> l.next().a == l.a + 1,
        l.dy() >= l.dx() ==> l.next().b == l.b + 1,
{
    lemma_line_step(l);
    lemma_err(l);
    lemma_err(l.next());
}

proof fn lemma_off_line(l: Line)
    requires
        l.on_way(),
        balanced(l),
    ensures
        ({
            let off = off_line(l, l.x(), l.y());
            &&& -l.dx() <= 2 * off <= l.dx() || l.dx() < l.dy()
            &&& -l.dy() <= 2 * off <= l.dy() || l.dy() < l.dx()
        }),
{
    let (a, b, dx, dy) = (l.a, l.b, l.dx(), l.dy());
    let off = off_line(l, l.x(), l.y());
    let down = l.y0 < l.y1;
    let right = l.x0 < l.x1;
    assert(b * dx - a * dy == lead(l));
    if right && down {
        assert(off == b * dx - a * dy);
    } else if right {
        assert(off == -(b * dx - a * dy)) by (nonlinear_arith)
            requires
                off == (-b) * dx - a * (-dy),
        ;
    } else if down {
        assert(off == -(b * dx - a * dy)) by (nonlinear_arith)
            requires
                off == b * (-dx) - (-a) * dy,
        ;
    } else {
        assert(off == b * dx - a * dy) by (nonlinear_arith)
            requires
                off == (-b) * (-dx) - (-a) * (-dy),
        ;
    }
}

proof fn lemma_straight(l: Line, x: int, y: int)
    requires
        l.on_way(),
        balanced(l),
        l.passes(x, y),
    ensures
        ({
            let off = off_line(l, x, y);
            &&& -l.dx() <= 2 * off <= l.dx() || l.dx() < l.dy()
            &&& -l.dy() <= 2 * off <= l.dy() || l.dy() < l.dx()
        }),
    decreases l.steps_left(),
{
    if l.x() == x && l.y() == y {
        lemma_off_line(l);
    } else {
        lemma_line_step(l);
        lemma_balance(l);
        lemma_straight(l.next(), x, y);
    }
}

/// A line is straight: each of its pixels is at most half a pixel off the true line,
/// along the shorter of its two extents.
pub proof fn law_lines_are_straight(x0: int, y0: int, x1: int, y1: int, x: int, y: int)
    requires
        Line::between(x0, y0, x1, y1).passes(x, y),
    ensures
        ({
            let off = (y - y0) * (x1 - x0) - (x - x0) * (y1 - y0);
            let dx = if x0 < x1 {
                x1 - x0
            } else {
                x0 - x1
            };
            let dy = if y0 < y1 {
                y1 - y0
            } else {
                y0 - y1
            };
            let long = if dx < dy {
                dy
            } else {
                dx
            };
            -long <= 2 * off <= long
        }),
{
    let l = Line::between(x0, y0, x1, y1);
    assert(lead(l) == 0) by {
        assert(0 * l.dx() == 0 && 0 * l.dy() == 0) by (nonlinear_arith);
    }
    lemma_straight(l, x, y);
}

proof fn lemma_columns(l: Line, x: int)
    requires
        l.on_way(),
        balanced(l),
        l.dx() >= l.dy(),
        if l.x0 < l.x1 {
            l.x() <= x <= l.x1
        } else {
            l.x1 <= x <= l.x()
        },
    ensures
        exists|y: int| l.passes(x, y),
    decreases l.steps_left(),
{
    if l.x() == x {
        assert(l.passes(x, l.y()));
    } else {
        lemma_line_step(l);
        lemma_balance(l);
        lemma_columns(l.next(), x);
        let y = choose|y: int| l.next().passes(x, y);
        assert(l.passes(x, y));
    }
}

proof fn lemma_rows(l: Line, y: int)
    requires
        l.on_way(),
        balanced(l),
        l.dy() >= l.dx(),
        if l.y0 < l.y1 {
            l.y() <= y <= l.y1
        } else {
            l.y1 <= y <= l.y()
        },
    ensures
        exists|x: int| l.passes(x, y),
    decreases l.steps_left(),
{
    if l.y() == y {
        assert(l.passes(l.x(), y));
    } else {
        lemma_line_step(l);
        lemma_balance(l);
        lemma_rows(l.next(), y);
        let x = choose|x: int| l.next().passes(x, y);
        assert(l.passes(x, y));
    }
}

/// A line has no holes: a flat one has a pixel in each column between its ends, a steep
/// one in each row.
pub proof fn law_lines_have_no_holes(x0: int, y0: int, x1: int, y1: int, at: int)
    ensures
        ({
            let l = Line::between(x0, y0, x1, y1);
            let dx = if x0 < x1 {
                x1 - x0
            } else {
                x0 - x1
            };
            let dy = if y0 < y1 {
                y1 - y0
            } else {
                y0 - y1
            };
            &&& dx >= dy && (x0 <= at <= x1 || x1 <= at <= x0) ==> exists|y: int| l.passes(at, y)
            &&& dy >= dx && (y0 <= at <= y1 || y1 <= at <= y0) ==> exists|x: int| l.passes(x, at)
        }),
{
    let l = Line::between(x0, y0, x1, y1);
    assert(lead(l) == 0) by {
        assert(0 * l.dx() == 0 && 0 * l.dy() == 0) by (nonlinear_arith);
    }
    if l.dx() >= l.dy() && (x0 <= at <= x1 || x1 <= at <= x0) {
        lemma_columns(l, at);
    }
    if l.dy() >= l.dx() && (y0 <= at <= y1 || y1 <= at <= y0) {
        lemma_rows(l, at);
    }
}

} // verus!
