//! Which pixels regions, monitors and frames stand for.

use crate::orders::canvas::{CanvasView, Rect};
use crate::protocol::mppc::MppcState;
use crate::rdp::active::{
    opening_event, openings, ActiveSettings, ActiveView, KindView, Opening, OpeningSettings,
};
use crate::rdp::clipboard::{file_answer, range_answer, ClipState, ClipTaskView, FileUse, TextUse};
use crate::rdp::fastpath::{
    any_compressed, fast_path_frame, law_rebuilt_orders_are_found, orders_in, plain_update, updates,
    Chunk,
};
use crate::rdp::frame::{joined, overlaid, region_of, UpdateRegion};
use crate::rdp::layout::{all_chunk_bytes, law_updates_are_cut_apart};
use crate::rdp::monitor::{desktop_extent, geometry, hull, layout_of, monitor_of, Monitor};
use crate::rdp::pdu::Action;
use crate::rdp::sink::{is_lit, lit, lit_in_row, lit_in_rows, region_pixels};
use crate::rdp::channels::wanted;
use crate::rdp::startup::wlc_controls;
use crate::text::laws::{glued, law_decimals_are_read_back, law_glued_texts_are_taken_apart};
use crate::text::parse::{is_white, lemma_split_behind, trim_end, trim_start, trimmed};
use crate::text::decimal;
use crate::wire::{number16, number32};
use vstd::prelude::*;

verus! {

/// The region of a box on a desktop holds the pixels of the box, no more and no fewer.
pub proof fn law_region_of_a_box(width: u16, height: u16, r: Rect, x: int, y: int)
    requires
        0 <= r.x && 0 < r.w && r.x + r.w <= width,
        0 <= r.y && 0 < r.h && r.y + r.h <= height,
    ensures
        region_of(width, height, r).contains(x, y) <==> r.x <= x < r.x + r.w && r.y <= y < r.y
            + r.h,
{
}

/// A region that is cut to a desktop loses what lies beyond, if some of it lies on it.
pub proof fn law_cut_regions(r: UpdateRegion, width: u16, height: u16, x: int, y: int)
    requires
        r.left <= r.right && r.top <= r.bottom,
        r.left < width && r.top < height,
    ensures
        r.cut(width, height).contains(x, y) <==> r.contains(x, y) && x < width && y < height,
{
}

/// The join of two regions is the smallest region around both.
pub proof fn law_joined_regions_are_smallest(a: UpdateRegion, b: UpdateRegion, x: int, y: int)
    requires
        a.left <= a.right && a.top <= a.bottom,
        b.left <= b.right && b.top <= b.bottom,
    ensures
        a.join(b).contains(x, y) <==> (a.left <= x || b.left <= x) && (x <= a.right || x <= b.right)
            && (a.top <= y || b.top <= y) && (y <= a.bottom || y <= b.bottom),
        joined(None, b) == b,
        joined(Some(a), b) == a.join(b),
{
}

/// A region that is copied brings over the pixels of the other frame inside it and leaves
/// those outside.
pub proof fn law_copied_regions(
    on: CanvasView,
    from: CanvasView,
    r: UpdateRegion,
    x: int,
    y: int,
)
    requires
        r.left <= r.right && r.top <= r.bottom,
        r.right < on.width && r.bottom < on.height,
    ensures
        (overlaid(on, from, r).at)(x, y) == (if r.left <= x <= r.right && r.top <= y <= r.bottom {
            (from.at)(x, y)
        } else {
            (on.at)(x, y)
        }),
        overlaid(on, from, r).width == on.width,
        overlaid(on, from, r).height == on.height,
{
}

/// The number of pixels of a region is the product of its extents, edges counted.
pub proof fn law_region_pixels(r: UpdateRegion)
    requires
        r.left <= r.right && r.top <= r.bottom,
    ensures
        region_pixels(r) == (r.right - r.left + 1) * (r.bottom - r.top + 1),
{
}

proof fn lemma_lit_row(cv: CanvasView, over: int, y: int, n: nat)
    ensures
        lit_in_row(cv, over, y, n) <= n,
        lit_in_row(cv, over, y, n) == 0 <==> forall|x: int| 0 <= x < n ==> !is_lit(cv, over, x, y),
        lit_in_row(cv, over, y, n) == n <==> forall|x: int| 0 <= x < n ==> is_lit(cv, over, x, y),
    decreases n,
{
    if n > 0 {
        lemma_lit_row(cv, over, y, (n - 1) as nat);
        assert(is_lit(cv, over, n - 1, y) || !is_lit(cv, over, n - 1, y));
    }
}

/// A frame without lit pixels counts none, and one more lit pixel in a row counts one more.
/// A pixel is lit if its red, green and blue come to more than the limit.
pub proof fn law_lit_pixels_are_counted(cv: CanvasView, over: int, x: nat, y: nat)
    ensures
        lit_in_row(cv, over, y as int, x) <= x,
        lit_in_row(cv, over, y as int, x) == 0 <==> forall|i: int|
            0 <= i < x ==> !is_lit(cv, over, i, y as int),
        lit_in_row(cv, over, y as int, x) == x <==> forall|i: int|
            0 <= i < x ==> is_lit(cv, over, i, y as int),
        lit_in_rows(cv, over, (y + 1) as nat) == lit_in_rows(cv, over, y) + lit_in_row(
            cv,
            over,
            y as int,
            cv.width as nat,
        ),
        lit_in_rows(cv, over, 0) == 0,
        lit(cv, over) == lit_in_rows(cv, over, cv.height as nat),
        is_lit(cv, over, x as int, y as int) <==> (cv.at)(x as int, y as int).0 + (cv.at)(
            x as int,
            y as int,
        ).1 + (cv.at)(x as int, y as int).2 > over,
{
    lemma_lit_row(cv, over, y as int, x);
}

/// A monitor has the extents and the place that it is given.
pub proof fn law_monitor_extents(size: (i32, i32), pos: (i32, i32), primary: bool)
    requires
        1 <= size.0 && 1 <= size.1,
        pos.0 + size.0 <= i32::MAX && pos.1 + size.1 <= i32::MAX,
    ensures
        ({
            let m = monitor_of(size, pos, primary);
            &&& m.left == pos.0
            &&& m.top == pos.1
            &&& m.right - m.left + 1 == size.0
            &&& m.bottom - m.top + 1 == size.1
            &&& m.flags.bits == (if primary {
                1u32
            } else {
                0
            })
        }),
{
}

proof fn lemma_decimal_is_plain(n: nat, i: int)
    requires
        0 <= i < decimal(n).len(),
    ensures
        '0' <= decimal(n)[i] <= '9',
{
    crate::text::laws::law_numbers_are_read_back(n, 10);
    assert(crate::text::parse::is_digit(decimal(n)[i], 10));
}

proof fn lemma_decimal_trimmed(n: nat)
    ensures
        trimmed(decimal(n)) == decimal(n),
        forall|i: int|
            0 <= i < decimal(n).len() ==> '0' <= #[trigger] decimal(n)[i] <= '9',
{
    let s = decimal(n);
    crate::text::laws::law_numbers_are_read_back(n, 10);
    assert forall|i: int| 0 <= i < s.len() implies '0' <= #[trigger] s[i] <= '9' by {
        lemma_decimal_is_plain(n, i);
    }
    assert(!is_white(s[0]));
    assert(trim_start(s) == s);
    assert(!is_white(s[s.len() - 1]));
    assert(trim_end(s) == s);
}

/// A geometry that is written as `WIDTHxHEIGHT+LEFT+TOP` is read back; without a place the
/// monitor stands at the origin.
pub proof fn law_geometries_are_read_back(w: nat, h: nat, l: nat, t: nat)
    requires
        1 <= w <= 0x7FFF_FFFF && 1 <= h <= 0x7FFF_FFFF,
        l <= 0x7FFF_FFFF && t <= 0x7FFF_FFFF,
    ensures
        geometry(
            decimal(w) + seq!['x'] + decimal(h) + seq!['+'] + (decimal(l) + seq!['+'] + decimal(t)),
        ) == Some(((w as i32, h as i32), (l as i32, t as i32))),
        geometry(decimal(w) + seq!['x'] + decimal(h)) == Some(
            ((w as i32, h as i32), (0i32, 0i32)),
        ),
{
    law_decimals_are_read_back(w, 0);
    law_decimals_are_read_back(h, 0);
    law_decimals_are_read_back(l, 0);
    law_decimals_are_read_back(t, 0);
    lemma_decimal_trimmed(w);
    lemma_decimal_trimmed(h);
    lemma_decimal_trimmed(l);
    lemma_decimal_trimmed(t);
    let size = decimal(w) + seq!['x'] + decimal(h);
    let pos = decimal(l) + seq!['+'] + decimal(t);
    let all = size + seq!['+'] + pos;
    assert(all =~= decimal(w) + seq!['x'] + decimal(h) + seq!['+'] + pos);
    assert forall|k: int| 0 <= k < size.len() implies size[k] != '+' by {
        if k < decimal(w).len() {
            assert(size[k] == decimal(w)[k]);
        } else if k > decimal(w).len() {
            assert(size[k] == decimal(h)[k - decimal(w).len() - 1]);
        }
    }
    lemma_split_behind(size, '+', pos);
    lemma_split_behind(decimal(w), 'x', decimal(h));
    lemma_split_behind(decimal(l), '+', decimal(t));
    crate::text::parse::lemma_find(size, '+', 0);
    assert(crate::text::parse::find(size, '+', 0) is None);
}

/// The box around monitors is the smallest: each of its edges is that of a monitor.
pub proof fn law_bounding_box_is_smallest(m: Seq<Monitor>)
    requires
        m.len() > 0,
    ensures
        exists|i: int| 0 <= i < m.len() && hull(m).0 == (#[trigger] m[i]).left,
        exists|i: int| 0 <= i < m.len() && hull(m).1 == (#[trigger] m[i]).top,
        exists|i: int| 0 <= i < m.len() && hull(m).2 == (#[trigger] m[i]).right,
        exists|i: int| 0 <= i < m.len() && hull(m).3 == (#[trigger] m[i]).bottom,
    decreases m.len(),
{
    if m.len() == 1 {
        assert(hull(m).0 == m[0].left);
    } else {
        let f = m.drop_last();
        law_bounding_box_is_smallest(f);
        let (a, b, c, d) = hull(f);
        let i0 = choose|i: int| 0 <= i < f.len() && a == (#[trigger] f[i]).left;
        let i1 = choose|i: int| 0 <= i < f.len() && b == (#[trigger] f[i]).top;
        let i2 = choose|i: int| 0 <= i < f.len() && c == (#[trigger] f[i]).right;
        let i3 = choose|i: int| 0 <= i < f.len() && d == (#[trigger] f[i]).bottom;
        assert(m[i0] == f[i0] && m[i1] == f[i1] && m[i2] == f[i2] && m[i3] == f[i3]);
        assert(m.last() == m[m.len() - 1]);
    }
}

/// Extents of a desktop are kept between 1 and 65535.
pub proof fn law_desktop_extents(n: int)
    ensures
        1 <= n <= 65535 ==> desktop_extent(n) == n,
        n < 1 ==> desktop_extent(n) == 1,
        n > 65535 ==> desktop_extent(n) == 65535,
{
}

/// Every geometry that can be read is a monitor of the layout, in order; only the first of
/// the list is the primary one.
pub proof fn law_layouts(specs: Seq<Seq<char>>)
    requires
        forall|i: int| 0 <= i < specs.len() ==> geometry(#[trigger] specs[i]) is Some,
    ensures
        layout_of(specs).len() == specs.len(),
        forall|i: int|
            0 <= i < specs.len() ==> #[trigger] layout_of(specs)[i] == monitor_of(
                (geometry(specs[i])->0).0,
                (geometry(specs[i])->0).1,
                i == 0,
            ),
    decreases specs.len(),
{
    if specs.len() > 0 {
        let f = specs.drop_last();
        assert forall|i: int| 0 <= i < f.len() implies geometry(#[trigger] f[i]) is Some by {
            assert(f[i] == specs[i]);
        }
        law_layouts(f);
        assert(specs.last() == specs[specs.len() - 1]);
        assert forall|i: int| 0 <= i < specs.len() implies #[trigger] layout_of(specs)[i]
            == monitor_of((geometry(specs[i])->0).0, (geometry(specs[i])->0).1, i == 0) by {
            if i < f.len() {
                assert(layout_of(specs)[i] == layout_of(f)[i]);
                assert(f[i] == specs[i]);
            }
        }
    }
}

/// The trail of a pointer that was nowhere yet holds the desktop's pixels up to 48 to each
/// side of it; afterwards it also holds what it held before.
pub proof fn law_pointer_trail(s: ActiveView, x: u16, y: u16, px: int, py: int)
    requires
        x < s.width && y < s.height,
        s.width <= 0x7FFF && s.height <= 0x7FFF,
    ensures
        s.moved_over(x, y).trail is Some,
        s.trail is None ==> (s.moved_over(x, y).trail->0.contains(px, py) <==> x - 48 <= px <= x
            + 48 && y - 48 <= py <= y + 48 && 0 <= px < s.width && 0 <= py < s.height),
        s.trail matches Some(t) ==> t.contains(px, py) ==> s.moved_over(x, y).trail->0.contains(
            px,
            py,
        ),
        s.moved_over(x, y) == (ActiveView { trail: s.moved_over(x, y).trail, ..s }),
{
}

/// Eight clean streams in a row clear the failures; each failure counts one, and ends the
/// run of clean ones.
pub proof fn law_streaks(s: ActiveView)
    requires
        s.ok_streak < 1000 && s.fail_streak < 1000,
    ensures
        s.order_ok().ok_streak == s.ok_streak + 1,
        s.order_ok().fail_streak == (if s.ok_streak + 1 >= 8 {
            0
        } else {
            s.fail_streak
        }),
        s.order_failed().ok_streak == 0,
        s.order_failed().fail_streak == s.fail_streak + 1,
{
}

/// Drawing orders in a plain PDU are found: a whole update at once, the parts of a split
/// one when the last has come.
pub proof fn law_plain_orders_are_found(s: ActiveView, fph: u8, frag: u8, data: Seq<u8>)
    requires
        fph % 4 == 0,
        frag < 4,
        data.len() <= 0xFFFF,
        (data.len() + 6) % 0x8000 >= 3,
    ensures
        ({
            let f = fast_path_frame(fph, plain_update((16 * frag) as u8, data));
            let (t, k) = s.classified(Action::FastPath, f);
            let a = s.assembly;
            if frag == 0 {
                k == KindView::Orders(data) && t.assembly == a
            } else if frag == 2 {
                k == KindView::Nothing && t.assembly.active && t.assembly.buf == data
            } else if !a.active {
                k == KindView::Nothing && t.assembly == a
            } else if frag == 1 {
                k == KindView::Orders(a.buf + data) && !t.assembly.active
            } else {
                k == KindView::Nothing && t.assembly.active && t.assembly.buf == a.buf + data
            }
        }),
{
    let header = (16 * frag) as u8;
    let c = Chunk { header, flags: None, data };
    let list = seq![c];
    let body = plain_update(header, data);
    let f = fast_path_frame(fph, body);
    assert(list.skip(1) =~= Seq::empty());
    assert(all_chunk_bytes(list.skip(1)) =~= Seq::<u8>::empty());
    assert(all_chunk_bytes(list) =~= body);
    law_updates_are_cut_apart(fph, list);
    law_rebuilt_orders_are_found(fph, header, data);
    assert(header % 0x40 == header);
    assert(!any_compressed(updates(f))) by {
        assert(updates(f) == list);
    }
}

/// What is not fast-path goes to the decoder as it is, and so does an update that holds no
/// drawing orders.
pub proof fn law_other_pdus_are_passed_on(s: ActiveView, frame: Seq<u8>)
    ensures
        s.classified(Action::X224, frame) == (s, KindView::Stage(frame)),
        !any_compressed(updates(frame)) && orders_in(frame) is None ==> s.classified(
            Action::FastPath,
            frame,
        ).1 == KindView::Stage(frame),
{
}

/// The opening always says that the session is being attached; the key list comes before
/// that, the arbitration event, the controls and the repaint behind it, in this order,
/// each exactly if it is wished for.
pub proof fn law_opening_order(s: OpeningSettings, event: Option<u32>)
    ensures
        ({
            let o = openings(s, event);
            let k = if s.key_list {
                1int
            } else {
                0
            };
            let e = if event is Some {
                1int
            } else {
                0
            };
            let c = if s.desktop_controls {
                1int
            } else {
                0
            };
            &&& o.len() == k + 1 + e + c + (if s.no_repaint {
                0int
            } else {
                1
            })
            &&& s.key_list ==> o[0] == Opening::KeyList
            &&& o[k] == Opening::Attaching
            &&& event matches Some(t) ==> o[k + 1] == Opening::Arbitrate(t)
            &&& s.desktop_controls ==> o[k + 1 + e] == Opening::DesktopControls
            &&& !s.no_repaint ==> o[k + 1 + e + c] == Opening::Repaint
        }),
{
}

/// The event to open with is the configured number; 1 where nothing is configured; none
/// where 0 is, or without arbitration.
pub proof fn law_opening_events(n: nat)
    requires
        n <= 0xFFFF_FFFF,
    ensures
        opening_event(true, Some(decimal(n))) == (if n == 0 {
            None
        } else {
            Some(n as u32)
        }),
        opening_event(true, None) == Some(1u32),
        opening_event(false, Some(decimal(n))) is None,
        opening_event(false, None) is None,
{
    reveal_strlit("0");
    law_decimals_are_read_back(n, 0);
    crate::text::laws::law_numbers_are_read_back(n, 10);
    crate::text::laws::law_numbers_are_read_back(0, 10);
    if decimal(n) == "0"@ {
        assert(decimal(n)[0] == '0');
    }
    assert(decimal(0) =~= "0"@);
}

/// A remote that asks for text (13 or 1) is sent the clipboard's; one that asks for the
/// descriptor of files (0xC0DE) is sent that of the offered file; other requests are
/// refused.
pub proof fn law_requested_data(s: ClipState, id: u32)
    ensures
        ({
            let t = s.task(crate::protocol::cliprdr::ClipView::FormatDataRequest { format_id: id });
            &&& id == 13 || id == 1 ==> t == ClipTaskView::ReadText(TextUse::Send)
            &&& id == 0xC0DE && s.file is Some ==> t == ClipTaskView::ReadFile(FileUse::Describe)
            &&& (id != 13 && id != 1 && (id != 0xC0DE || s.file is None)) ==> t
                == ClipTaskView::Reply(seq![crate::rdp::clipboard::refusal()])
        }),
{
}

/// A request for a range of the offered file is served from its place, at most 8388608
/// bytes at a time.
pub proof fn law_requested_ranges(
    s: ClipState,
    id: u32,
    index: u32,
    position: u64,
    requested: u32,
)
    requires
        s.file is Some,
    ensures
        s.task(
            crate::protocol::cliprdr::ClipView::FileContentsRequest {
                stream_id: id,
                lindex: index,
                size_only: false,
                position,
                requested,
            },
        ) == (ClipTaskView::ReadRange {
            stream_id: id,
            position,
            len: if requested <= 8388608 {
                requested
            } else {
                8388608
            },
        }),
        s.task(
            crate::protocol::cliprdr::ClipView::FileContentsRequest {
                stream_id: id,
                lindex: index,
                size_only: true,
                position,
                requested,
            },
        ) == ClipTaskView::ReadFile(FileUse::Size(id)),
{
}

/// Answers about a file are of type 9 and name the stream; the size has eight bytes, the
/// low half first, and a range is the bytes themselves. A refusal has flag 2 instead of 1.
pub proof fn law_file_answers(id: u32, name: Seq<char>, size: u64, b: Seq<u8>)
    requires
        b.len() <= 0xffff_fff0,
    ensures
        ({
            let a = file_answer(FileUse::Size(id), Some((name, size)));
            &&& number16(a, 0) == 9 && number16(a, 2) == 1 && number32(a, 4) == 12
            &&& a.len() == 20 && number32(a, 8) == id
            &&& number32(a, 12) + 0x1_0000_0000 * number32(a, 16) == size
        }),
        ({
            let a = range_answer(id, Some(b));
            &&& number16(a, 0) == 9 && number16(a, 2) == 1 && number32(a, 4) == 4 + b.len()
            &&& number32(a, 8) == id && a.skip(12) == b
        }),
        ({
            let a = range_answer(id, None);
            &&& number16(a, 0) == 9 && number16(a, 2) == 2 && number32(a, 4) == 4
            &&& a.len() == 12 && number32(a, 8) == id
        }),
        file_answer(FileUse::Size(id), None) == range_answer(id, None),
{
    let i = crate::wire::bytes32(id);
    let z = crate::wire::bytes64(size);
    crate::wire::law_byte_order(b, 0, 0, id, size);
    crate::protocol::clip_layout::law_message_layout(9, 1, i + z);
    crate::protocol::clip_layout::law_message_layout(9, 1, i + b);
    crate::protocol::clip_layout::law_message_layout(9, 2, i);
    let m1 = file_answer(FileUse::Size(id), Some((name, size)));
    assert forall|k: int| 0 <= k < 12 implies m1[8 + k] == (i + z)[k] by {
        assert(m1.skip(8)[k] == m1[8 + k]);
    }
    assert(m1[8] == i[0] && m1[9] == i[1] && m1[10] == i[2] && m1[11] == i[3]);
    assert(m1[12] == z[0] && m1[13] == z[1] && m1[14] == z[2] && m1[15] == z[3]);
    assert(m1[16] == z[4] && m1[17] == z[5] && m1[18] == z[6] && m1[19] == z[7]);
    let m2 = range_answer(id, Some(b));
    assert forall|k: int| 0 <= k < 4 implies m2[8 + k] == i[k] by {
        assert(m2.skip(8)[k] == m2[8 + k]);
    }
    assert(m2[8] == i[0] && m2[9] == i[1] && m2[10] == i[2] && m2[11] == i[3]);
    assert(m2.skip(12) =~= b) by {
        assert(m2.skip(8) =~= i + b);
        assert(m2.skip(12) =~= m2.skip(8).skip(4));
        assert((i + b).skip(4) =~= b);
    }
    let m3 = range_answer(id, None);
    assert forall|k: int| 0 <= k < 4 implies m3[8 + k] == i[k] by {
        assert(m3.skip(8)[k] == m3[8 + k]);
    }
    assert(m3[8] == i[0] && m3[9] == i[1] && m3[10] == i[2] && m3[11] == i[3]);
}

/// A wish for all channels covers each; a list covers the channels on it, whatever white
/// space stands around their names, and no others.
pub proof fn law_wished_channels(list: Seq<Seq<char>>, name: Seq<char>)
    requires
        list.len() > 0,
        forall|k: int, i: int|
            0 <= k < list.len() && 0 <= i < list[k].len() ==> #[trigger] list[k][i] != ',',
    ensures
        wanted("1"@, name),
        glued(list, ',') != "1"@ ==> (wanted(glued(list, ','), name) <==> exists|k: int|
            0 <= k < list.len() && trimmed(#[trigger] list[k]) == name),
{
    law_glued_texts_are_taken_apart(list, ',');
}

/// The whole of the composite holds each of its pixels.
pub proof fn law_everything_is_shown(s: ActiveView, x: int, y: int)
    requires
        s.composite.width > 0,
        s.composite.height > 0,
    ensures
        s.everything().contains(x, y) <==> 0 <= x < s.composite.width && 0 <= y
            < s.composite.height,
{
}

/// Showing what is pending leaves nothing pending and counts a frame if there was any.
pub proof fn law_shown_frames_are_counted(s: ActiveView)
    requires
        s.frames < u64::MAX,
    ensures
        s.shown().pending is None,
        s.shown().frames == s.frames + (if s.pending is Some {
            1int
        } else {
            0
        }),
        s.shown().composite == s.composite,
{
}

/// Each control message of the desktop handshake starts with its own length and the same
/// header; then come the curtain (0x1f), the dynamic resolution (0x14) twice, and the
/// desktop configuration (0x27).
pub proof fn law_desktop_controls(k: int)
    requires
        0 <= k < 4,
    ensures
        wlc_controls().len() == 4,
        ({
            let m = wlc_controls()[k];
            &&& m.len() == number16(m, 0)
            &&& number16(m, 2) == 0x17
            &&& number16(m, 4) == 0x3f4
            &&& number32(m, 6) == 0x103ea
            &&& m[10] == 0 && m[11] == 1
            &&& m[14] == (if k == 0 {
                0x1fu8
            } else if k == 3 {
                0x27
            } else {
                0x14
            })
        }),
{
}

/// Nothing is announced before the server is ready, nor while the clipboard's text is the one
/// that is known; a change is announced, and known from then on. An empty text counts as
/// none.
pub proof fn law_changes_are_announced(s: ClipState, text: Option<Seq<char>>)
    ensures
        ({
            let now = if text matches Some(t) && t.len() > 0 {
                text
            } else {
                None
            };
            let next = ClipState { known: now, ..s };
            if s.ready && now != s.known {
                s.polled(text) == (next, Some(next.announcement()))
            } else {
                s.polled(text) == (s, None::<Seq<u8>>)
            }
        }),
        s.after(crate::protocol::cliprdr::ClipView::MonitorReady) == (ClipState {
            ready: true,
            ..s
        }),
{
}

/// A session that has just become active has a blank desktop of its size, what was left over
/// in its buffer, and nothing else yet.
pub proof fn law_fresh_sessions(
    settings: ActiveSettings,
    width: u16,
    height: u16,
    io: u16,
    user: u16,
    share: u32,
    buf: Seq<u8>,
    decomp: MppcState,
)
    ensures
        ({
            let s = ActiveView::fresh(settings, width, height, io, user, share, buf, decomp);
            &&& s.settings == settings
            &&& s.width == width && s.height == height
            &&& s.io_channel_id == io && s.user_channel_id == user && s.share_id == share
            &&& s.composite.width == width && s.composite.height == height
            &&& s.orders.canvas.width == width && s.orders.canvas.height == height
            &&& s.buf == buf && s.decomp == decomp
            &&& s.extra.len() == 0 && s.assembly.buf.len() == 0 && !s.assembly.active
            &&& s.pending is None && s.trail is None && !s.curtain_applied
            &&& s.fail_streak == 0 && s.ok_streak == 0 && s.frames == 0 && s.pdus == 0
        }),
{
}

} // verus!
