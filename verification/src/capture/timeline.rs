//! The frames of a connection in time, both directions merged. The bodies are
//! encrypted, but the sizes are enough to see when the server starts to stream
//! graphics and which client frames precede it.

use crate::capture::{segs_of, Seg, SegView};
use crate::wire::{le32_at, push_slice, u32_at};
use vstd::prelude::*;

verus! {

/// A frame that is complete.
#[derive(Debug, Clone, Copy, PartialEq, Eq, Structural)]
pub struct FrameEvent {
    /// When it was complete, since the first segment.
    pub at: u64,
    pub to_server: bool,
    pub msg_type: u8,
    pub len: usize,
}

/// The type and the body length of the frame at the start of `b`, if all of it is
/// there. The header is a little-endian number: the type above 24 bits of length.
/// A frame without a body does not count.
pub open spec fn frame_at_start(b: Seq<u8>) -> Option<(u8, nat)> {
    let len = (le32_at(b, 0) % 0x1000000) as nat;
    if b.len() >= 4 && len > 0 && 4 + len <= b.len() {
        Some(((le32_at(b, 0) / 0x1000000) as u8, len))
    } else {
        None
    }
}

/// The frames at the start of `b`.
pub open spec fn frames_in(b: Seq<u8>) -> Seq<(u8, nat)>
    decreases b.len(),
{
    match frame_at_start(b) {
        Some((t, n)) => if n > 0 && 4 + n <= b.len() {
            seq![(t, n)] + frames_in(b.skip(4 + n as int))
        } else {
            Seq::empty()
        },
        None => Seq::empty(),
    }
}

/// What is left behind the frames at the start of `b`.
pub open spec fn after_frames(b: Seq<u8>) -> Seq<u8>
    decreases b.len(),
{
    match frame_at_start(b) {
        Some((t, n)) => if n > 0 && 4 + n <= b.len() {
            after_frames(b.skip(4 + n as int))
        } else {
            b
        },
        None => b,
    }
}

/// The frames of a run as events.
pub open spec fn events_of(frames: Seq<(u8, nat)>, at: u64, to_server: bool) -> Seq<FrameEvent> {
    Seq::new(
        frames.len(),
        |i: int| FrameEvent { at, to_server, msg_type: frames[i].0, len: frames[i].1 as usize },
    )
}

/// The bytes of both directions that are not a whole frame yet, and the frames so
/// far.
#[verifier::ext_equal]
pub struct Progress {
    pub client: Seq<u8>,
    pub server: Seq<u8>,
    pub events: Seq<FrameEvent>,
}

impl Progress {
    pub open spec fn start() -> Progress {
        Progress { client: Seq::empty(), server: Seq::empty(), events: Seq::empty() }
    }

    /// A segment arrives.
    pub open spec fn take_in(self, s: SegView, t0: u64) -> Progress {
        let buf = (if s.to_server {
            self.client
        } else {
            self.server
        }) + s.payload;
        let at = if s.ts >= t0 {
            (s.ts - t0) as u64
        } else {
            0
        };
        Progress {
            client: if s.to_server {
                after_frames(buf)
            } else {
                self.client
            },
            server: if s.to_server {
                self.server
            } else {
                after_frames(buf)
            },
            events: self.events + events_of(frames_in(buf), at, s.to_server),
        }
    }
}

/// Whether two segments are records of one packet, which the capture makes at
/// several layers.
pub open spec fn same_packet(a: SegView, b: SegView) -> bool {
    a.to_server == b.to_server && a.seq == b.seq && a.payload.len() == b.payload.len()
}

/// Whether the segment at place `k` of `order` is the first record of its packet.
pub open spec fn is_first_record(segs: Seq<SegView>, order: Seq<usize>, k: int) -> bool {
    forall|j: int|
        0 <= j < k ==> !same_packet(segs[#[trigger] order[j] as int], segs[order[k] as int])
}

/// The progress after the first `k` segments of `order`, each packet once.
pub open spec fn progress(segs: Seq<SegView>, order: Seq<usize>, k: nat) -> Progress
    decreases k,
{
    if k == 0 {
        Progress::start()
    } else {
        let before = progress(segs, order, (k - 1) as nat);
        if is_first_record(segs, order, k - 1) {
            before.take_in(segs[order[k - 1] as int], segs[order[0] as int].ts)
        } else {
            before
        }
    }
}

/// The frames of a connection whose segments are taken in the given order.
pub open spec fn frame_events(segs: Seq<SegView>, order: Seq<usize>) -> Seq<FrameEvent> {
    progress(segs, order, order.len()).events
}

fn read_frame(b: &[u8]) -> (r: Option<(u8, usize)>)
    ensures
        match r {
            Some((t, n)) => frame_at_start(b@) == Some((t, n as nat)),
            None => frame_at_start(b@) is None,
        },
{
    if b.len() < 4 {
        return None;
    }
    let header: u32 = u32_at(b, 0);
    let len: usize = (header % 0x1000000) as usize;
    if len == 0 || len > b.len() - 4 {
        return None;
    }
    Some(((header / 0x1000000) as u8, len))
}

/// Take the whole frames out of a buffer.
fn drain_frames(buf: &mut Vec<u8>, at: u64, to_server: bool, events: &mut Vec<FrameEvent>)
    ensures
        final(buf)@ == after_frames(old(buf)@),
        final(events)@ == old(events)@ + events_of(frames_in(old(buf)@), at, to_server),
{
    let ghost all = buf@;
    let ghost mut done: Seq<(u8, nat)> = Seq::empty();
    assert(done + frames_in(all) =~= frames_in(all));
    assert(events@ =~= old(events)@ + events_of(done, at, to_server));
    loop
        invariant
            all == old(buf)@,
            after_frames(all) == after_frames(buf@),
            frames_in(all) == done + frames_in(buf@),
            events@ == old(events)@ + events_of(done, at, to_server),
        decreases buf@.len(),
    {
        match read_frame(buf.as_slice()) {
            Some((msg_type, len)) => {
                let ghost before = buf@;
                events.push(FrameEvent { at, to_server, msg_type, len });
                let rest: Vec<u8> = buf.split_off(4 + len);
                *buf = rest;
                proof {
                    assert(buf@ =~= before.skip(4 + len as int));
                    let more = done.push((msg_type, len as nat));
                    assert(more + frames_in(buf@) =~= done + frames_in(before));
                    assert(events_of(more, at, to_server) =~= events_of(done, at, to_server).push(
                        FrameEvent { at, to_server, msg_type, len },
                    ));
                    done = more;
                    assert(events@ =~= old(events)@ + events_of(done, at, to_server));
                }
            },
            None => {
                assert(done + frames_in(buf@) =~= done);
                return;
            },
        }
    }
}

fn first_record(segs: &[Seg], order: &[usize], k: usize) -> (r: bool)
    requires
        k < order@.len(),
        forall|i: int| 0 <= i < order@.len() ==> #[trigger] order@[i] < segs@.len(),
    ensures
        r == is_first_record(segs_of(segs@), order@, k as int),
{
    let s: &Seg = &segs[order[k]];
    let mut j: usize = 0;
    while j < k
        invariant
            j <= k,
            k < order@.len(),
            forall|i: int| 0 <= i < order@.len() ==> #[trigger] order@[i] < segs@.len(),
            s@ == segs_of(segs@)[order@[k as int] as int],
            forall|i: int|
                0 <= i < j ==> !same_packet(segs_of(segs@)[#[trigger] order@[i] as int], s@),
        decreases k - j,
    {
        let t: &Seg = &segs[order[j]];
        assert(t@ == segs_of(segs@)[order@[j as int] as int]);
        if t.to_server == s.to_server && t.seq == s.seq && t.payload.len() == s.payload.len() {
            assert(same_packet(segs_of(segs@)[order@[j as int] as int], s@));
            return false;
        }
        j = j + 1;
    }
    true
}

/// The frames of a connection in time: each with the moment at which it was
/// complete. Packets that the capture recorded more than once count once.
pub fn timeline(segs: &[Seg], order: &[usize]) -> (events: Vec<FrameEvent>)
    requires
        forall|i: int| 0 <= i < order@.len() ==> #[trigger] order@[i] < segs@.len(),
    ensures
        events@ == frame_events(segs_of(segs@), order@),
{
    let ghost all = segs_of(segs@);
    let mut client: Vec<u8> = Vec::new();
    let mut server: Vec<u8> = Vec::new();
    let mut events: Vec<FrameEvent> = Vec::new();
    let mut k: usize = 0;
    assert(Progress { client: client@, server: server@, events: events@ } =~= progress(
        all,
        order@,
        0,
    ));
    while k < order.len()
        invariant
            k <= order@.len(),
            all == segs_of(segs@),
            forall|i: int| 0 <= i < order@.len() ==> #[trigger] order@[i] < segs@.len(),
            (Progress { client: client@, server: server@, events: events@ }) == progress(
                all,
                order@,
                k as nat,
            ),
        decreases order@.len() - k,
    {
        if first_record(segs, order, k) {
            let s: &Seg = &segs[order[k]];
            let t0: u64 = segs[order[0]].ts;
            assert(s@ == all[order@[k as int] as int]);
            assert(t0 == all[order@[0] as int].ts);
            let at: u64 = if s.ts >= t0 {
                s.ts - t0
            } else {
                0
            };
            if s.to_server {
                push_slice(&mut client, s.payload.as_slice());
                drain_frames(&mut client, at, true, &mut events);
            } else {
                push_slice(&mut server, s.payload.as_slice());
                drain_frames(&mut server, at, false, &mut events);
            }
        }
        k = k + 1;
    }
    events
}

/// A server frame above this size carries graphics.
pub const LARGE_FRAME: usize = 300;

/// Whether an event is a large frame of the server.
pub open spec fn is_large(e: FrameEvent) -> bool {
    !e.to_server && e.len > LARGE_FRAME
}

/// The first large frame of the server.
pub fn first_graphics(events: &[FrameEvent]) -> (r: Option<usize>)
    ensures
        match r {
            Some(i) => i < events@.len() && is_large(events@[i as int]) && forall|k: int|
                0 <= k < i ==> !is_large(#[trigger] events@[k]),
            None => forall|k: int| 0 <= k < events@.len() ==> !is_large(#[trigger] events@[k]),
        },
{
    let mut i: usize = 0;
    while i < events.len()
        invariant
            i <= events@.len(),
            forall|k: int| 0 <= k < i ==> !is_large(#[trigger] events@[k]),
        decreases events@.len() - i,
    {
        if !events[i].to_server && events[i].len > LARGE_FRAME {
            return Some(i);
        }
        i = i + 1;
    }
    None
}

/// Which of `n` events to list: those around the start of the graphics, or all if
/// there is none or all are asked for. Both ends belong to it.
pub fn window(n: usize, first: Option<usize>, full: bool) -> (r: (usize, usize))
    requires
        first matches Some(i) ==> i < n && n + 8 <= usize::MAX,
    ensures
        r == (match first {
            Some(i) => if full {
                (0usize, n)
            } else {
                (
                    if i >= 25 {
                        (i - 25) as usize
                    } else {
                        0
                    },
                    (i + 8) as usize,
                )
            },
            None => (0usize, n),
        }),
{
    match first {
        Some(i) => {
            if full {
                (0, n)
            } else {
                (
                    if i >= 25 {
                        i - 25
                    } else {
                        0
                    },
                    i + 8,
                )
            }
        },
        None => (0, n),
    }
}

/// The bytes of a direction are cut into the same frames however they are cut into
/// segments: taking in two pieces one after the other finds the frames of both
/// together.
pub proof fn law_frames_do_not_depend_on_segments(a: Seq<u8>, b: Seq<u8>)
    ensures
        frames_in(a + b) == frames_in(a) + frames_in(after_frames(a) + b),
        after_frames(a + b) == after_frames(after_frames(a) + b),
    decreases a.len(),
{
    match frame_at_start(a) {
        Some((t, n)) => {
            let all = a + b;
            assert(all[0] == a[0] && all[1] == a[1] && all[2] == a[2] && all[3] == a[3]);
            assert(frame_at_start(all) == Some((t, n)));
            assert(all.skip(4 + n as int) =~= a.skip(4 + n as int) + b);
            law_frames_do_not_depend_on_segments(a.skip(4 + n as int), b);
            assert(frames_in(all) =~= frames_in(a) + frames_in(after_frames(a) + b));
        },
        None => {
            assert(frames_in(a) + frames_in(a + b) =~= frames_in(a + b));
        },
    }
}

} // verus!
