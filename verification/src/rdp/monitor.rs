//! The monitor layout that a client announces.

use crate::orders::canvas::{max, min};
use crate::text::{chars_of, strings_of};
use crate::text::parse::{parse_i32, signed32, split_at_first, split_once, trim, trimmed};
use vstd::prelude::*;

verus! {

/// Properties of a monitor.
#[derive(Debug, Clone, Copy, PartialEq, Eq, Structural)]
pub struct MonitorFlags {
    pub bits: u32,
}

impl MonitorFlags {
    /// The layout's primary monitor.
    pub const PRIMARY: u32 = 1;

    pub fn contains(&self, flags: u32) -> (r: bool)
        ensures
            r == (self.bits & flags == flags),
    {
        self.bits & flags == flags
    }
}

/// A monitor of the layout, with inclusive edges.
#[derive(Debug, Clone, Copy, PartialEq, Eq, Structural)]
pub struct Monitor {
    pub left: i32,
    pub top: i32,
    pub right: i32,
    pub bottom: i32,
    pub flags: MonitorFlags,
}

/// The number that a text with white space around it writes.
pub open spec fn number_in(s: Seq<char>) -> Option<i32> {
    signed32(trimmed(s))
}

/// Two numbers with a character between them.
pub open spec fn pair_in(s: Seq<char>, c: char) -> Option<(i32, i32)> {
    match split_at_first(s, c) {
        Some((a, b)) => match (number_in(a), number_in(b)) {
            (Some(x), Some(y)) => Some((x, y)),
            _ => None,
        },
        None => None,
    }
}

/// The size and the position that a geometry `WIDTHxHEIGHT+LEFT+TOP` writes; the
/// position may be missing, the size must be positive.
pub open spec fn geometry(s: Seq<char>) -> Option<((i32, i32), (i32, i32))> {
    let (size, pos) = match split_at_first(s, '+') {
        Some((size, pos)) => (size, pair_in(pos, '+')),
        None => (s, Some((0i32, 0i32))),
    };
    match (pair_in(size, 'x'), pos) {
        (Some((w, h)), Some(p)) => if w > 0 && h > 0 {
            Some(((w, h), p))
        } else {
            None
        },
        _ => None,
    }
}

/// A monitor of the given size and position; edges beyond the 32-bit range wrap.
pub open spec fn monitor_of(size: (i32, i32), pos: (i32, i32), primary: bool) -> Monitor {
    Monitor {
        left: pos.0,
        top: pos.1,
        right: pos.0.wrapping_add(size.0).wrapping_sub(1),
        bottom: pos.1.wrapping_add(size.1).wrapping_sub(1),
        flags: MonitorFlags {
            bits: if primary {
                MonitorFlags::PRIMARY
            } else {
                0
            },
        },
    }
}

fn parse_pair(s: &[char], c: char) -> (r: Option<(i32, i32)>)
    ensures
        r == pair_in(s@, c),
{
    match split_once(s, c) {
        Some((a, b)) => match (parse_i32(trim(a)), parse_i32(trim(b))) {
            (Some(x), Some(y)) => Some((x, y)),
            _ => None,
        },
        None => None,
    }
}

/// Parse a geometry `WIDTHxHEIGHT+LEFT+TOP` (e.g. `1920x1080+0+0`; the
/// `+LEFT+TOP` is optional and defaults to `+0+0`) into a [`Monitor`] with
/// inclusive right and bottom edges. `primary` marks it as the layout's primary
/// monitor.
pub fn parse_monitor(s: &str, primary: bool) -> (r: Option<Monitor>)
    ensures
        match r {
            Some(m) => geometry(s@) matches Some((size, pos)) && m == monitor_of(
                size,
                pos,
                primary,
            ),
            None => geometry(s@) is None,
        },
{
    let chars: Vec<char> = chars_of(s);
    let all: &[char] = chars.as_slice();
    let (size, pos): (Option<(i32, i32)>, Option<(i32, i32)>) = match split_once(all, '+') {
        Some((size, rest)) => (parse_pair(size, 'x'), parse_pair(rest, '+')),
        None => (parse_pair(all, 'x'), Some((0, 0))),
    };
    match (size, pos) {
        (Some((w, h)), Some((left, top))) => {
            if w <= 0 || h <= 0 {
                return None;
            }
            Some(
                Monitor {
                    left,
                    top,
                    right: left.wrapping_add(w).wrapping_sub(1),
                    bottom: top.wrapping_add(h).wrapping_sub(1),
                    flags: MonitorFlags {
                        bits: if primary {
                            MonitorFlags::PRIMARY
                        } else {
                            0
                        },
                    },
                },
            )
        },
        _ => None,
    }
}

/// The smallest rectangle around the monitors: left, top, right, bottom.
pub open spec fn hull(m: Seq<Monitor>) -> (int, int, int, int)
    decreases m.len(),
{
    if m.len() <= 1 {
        (m[0].left as int, m[0].top as int, m[0].right as int, m[0].bottom as int)
    } else {
        let (left, top, right, bottom) = hull(m.drop_last());
        let x = m.last();
        (
            min(left, x.left as int),
            min(top, x.top as int),
            max(right, x.right as int),
            max(bottom, x.bottom as int),
        )
    }
}

/// An extent held between 1 and the largest that a desktop can have.
pub open spec fn desktop_extent(n: int) -> u16 {
    min(max(n, 1), 0xFFFF) as u16
}

fn extent_of(from: i32, to: i32) -> (r: u16)
    ensures
        r == desktop_extent(to - from + 1),
{
    let n: i64 = to as i64 - from as i64 + 1;
    if n < 1 {
        1
    } else if n > 0xFFFF {
        0xFFFF
    } else {
        n as u16
    }
}

/// Bounding-box size `(width, height)` of a monitor layout: the value that the
/// desktop size must have when the layout is announced (else the server silently
/// drops the monitor block). None for an empty layout.
pub fn monitors_bounding_size(monitors: &[Monitor]) -> (r: Option<(u16, u16)>)
    ensures
        monitors@.len() == 0 ==> r is None,
        monitors@.len() > 0 ==> ({
            let (left, top, right, bottom) = hull(monitors@);
            r == Some((desktop_extent(right - left + 1), desktop_extent(bottom - top + 1)))
        }),
{
    if monitors.len() == 0 {
        return None;
    }
    let mut left: i32 = monitors[0].left;
    let mut top: i32 = monitors[0].top;
    let mut right: i32 = monitors[0].right;
    let mut bottom: i32 = monitors[0].bottom;
    let mut i: usize = 1;
    assert(monitors@.take(1)[0] == monitors@[0]);
    while i < monitors.len()
        invariant
            1 <= i <= monitors@.len(),
            hull(monitors@.take(i as int)) == (
                left as int,
                top as int,
                right as int,
                bottom as int,
            ),
        decreases monitors@.len() - i,
    {
        let m: Monitor = monitors[i];
        if m.left < left {
            left = m.left;
        }
        if m.top < top {
            top = m.top;
        }
        if m.right > right {
            right = m.right;
        }
        if m.bottom > bottom {
            bottom = m.bottom;
        }
        i = i + 1;
        assert(monitors@.take(i as int).drop_last() =~= monitors@.take(i - 1));
    }
    assert(monitors@.take(i as int) =~= monitors@);
    Some((extent_of(left, right), extent_of(top, bottom)))
}

/// Every monitor of a layout lies within its bounding box.
pub proof fn law_bounding_box_covers_every_monitor(m: Seq<Monitor>, i: int)
    requires
        0 <= i < m.len(),
    ensures
        ({
            let (left, top, right, bottom) = hull(m);
            &&& left <= m[i].left
            &&& top <= m[i].top
            &&& m[i].right <= right
            &&& m[i].bottom <= bottom
        }),
    decreases m.len(),
{
    if m.len() > 1 && i < m.len() - 1 {
        law_bounding_box_covers_every_monitor(m.drop_last(), i);
    }
}

/// The layout that a list of geometries writes: those that cannot be read are left
/// out, and the first of the list is the primary monitor if it can be read.
pub open spec fn layout_of(specs: Seq<Seq<char>>) -> Seq<Monitor>
    decreases specs.len(),
{
    if specs.len() == 0 {
        Seq::empty()
    } else {
        let before = layout_of(specs.drop_last());
        match geometry(specs.last()) {
            Some((size, pos)) => before.push(monitor_of(size, pos, specs.len() == 1)),
            None => before,
        }
    }
}

/// Read a list of geometries.
pub fn parse_layout(specs: &Vec<String>) -> (r: Vec<Monitor>)
    ensures
        r@ == layout_of(strings_of(specs@)),
{
    let ghost all = strings_of(specs@);
    let mut out: Vec<Monitor> = Vec::new();
    let mut i: usize = 0;
    assert(all.take(0) =~= Seq::<Seq<char>>::empty());
    while i < specs.len()
        invariant
            i <= specs@.len(),
            all == strings_of(specs@),
            out@ == layout_of(all.take(i as int)),
        decreases specs.len() - i,
    {
        assert(all.take(i + 1).drop_last() =~= all.take(i as int));
        assert(all.take(i + 1).last() == specs@[i as int]@);
        if let Some(m) = parse_monitor(specs[i].as_str(), i == 0) {
            out.push(m);
        }
        i = i + 1;
    }
    assert(all.take(specs@.len() as int) =~= all);
    out
}

/// The desktop size to ask for: that of the layout, or the given one without a layout.
pub fn requested_size(monitors: &[Monitor], width: u16, height: u16) -> (r: (u16, u16))
    ensures
        monitors@.len() == 0 ==> r == (width, height),
        monitors@.len() > 0 ==> ({
            let (left, top, right, bottom) = hull(monitors@);
            r == (desktop_extent(right - left + 1), desktop_extent(bottom - top + 1))
        }),
{
    match monitors_bounding_size(monitors) {
        Some(size) => size,
        None => (width, height),
    }
}

} // verus!
