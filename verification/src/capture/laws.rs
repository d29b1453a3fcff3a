//! Where a capture file keeps its packets, and packets their segments and frames.

use crate::capture::timeline::{
    after_frames, frame_at_start, frames_in, is_first_record, is_large, progress, same_packet,
    FrameEvent, Progress,
};
use crate::capture::{
    aligned, be16, be32, carried, in_order, ip_at, packets, placed, segment_of, segments_in,
    stream_of, tcp_at, SegView,
};
use crate::wire::number32;
use vstd::prelude::*;

verus! {

/// The number in the two bytes at `i`, the high one first.
pub open spec fn network16(b: Seq<u8>, i: int) -> int {
    256 * b[i] + b[i + 1]
}

/// The number in the four bytes at `i`, the highest one first.
pub open spec fn network32(b: Seq<u8>, i: int) -> int {
    16777216 * b[i] + 65536 * b[i + 1] + 256 * b[i + 2] + b[i + 3]
}

/// Whether the four bytes at `i` are an address.
pub open spec fn address_stands_at(b: Seq<u8>, i: int, ip: [u8; 4]) -> bool {
    b[i] == ip[0] && b[i + 1] == ip[1] && b[i + 2] == ip[2] && b[i + 3] == ip[3]
}

/// A packet whose IPv4 header stands at byte 14, or at 18 behind a VLAN tag, and whose TCP
/// header follows it. The low half of the first byte of the one, and the high half of byte
/// 12 of the other, count the words of the headers; the payload ends where the IP header
/// says. The segment goes to the server if that is the destination, and comes from it if
/// it is the source; the other port is the client's.
pub proof fn law_segments_of_packets(p: Seq<u8>, server: [u8; 4], port: u16, ts: u64, ip: int)
    requires
        p.len() >= 14,
        network16(p, 12) == 0x0800 && ip == 14 || network16(p, 12) == 0x8100 && ip == 18,
        p.len() >= ip + 20,
        p[ip] / 16 == 4,
        p[ip + 9] == 6,
        ({
            let tcp = ip + 4 * (p[ip] % 16);
            let start = tcp + 4 * (p[tcp + 12] / 16);
            let end = ip + network16(p, ip + 2);
            p.len() >= tcp + 20 && start < end <= p.len()
        }),
    ensures
        ({
            let tcp = ip + 4 * (p[ip] % 16);
            let start = tcp + 4 * (p[tcp + 12] / 16);
            let end = ip + network16(p, ip + 2);
            let inbound = address_stands_at(p, ip + 16, server) && network16(p, tcp + 2) == port;
            let outbound = address_stands_at(p, ip + 12, server) && network16(p, tcp) == port;
            let r = segment_of(p, server, port, ts);
            &&& inbound || outbound ==> (r matches Some(s) && s.ts == ts && s.to_server == inbound
                && s.seq == network32(p, tcp + 4) && s.payload == p.subrange(start, end)
                && s.client_port == (if inbound {
                network16(p, tcp)
            } else {
                network16(p, tcp + 2)
            }))
            &&& !inbound && !outbound ==> r is None
        }),
{
    reveal(segment_of);
    let tcp = ip + 4 * (p[ip] % 16);
    assert(be16(p, 12) == network16(p, 12));
    assert(ip_at(p) == Some(ip));
    assert(p[ip] % 0x10 * 4 == 4 * (p[ip] % 16));
    assert(tcp_at(p) == Some(tcp));
    assert(p[tcp + 12] / 0x10 * 4 == 4 * (p[tcp + 12] / 16));
    assert(be16(p, ip + 2) == network16(p, ip + 2));
    assert(be16(p, tcp) == network16(p, tcp));
    assert(be16(p, tcp + 2) == network16(p, tcp + 2));
    assert(be32(p, tcp + 4) == network32(p, tcp + 4));
}

/// What is no IPv4 packet with TCP gives no segment.
pub proof fn law_other_packets(p: Seq<u8>, server: [u8; 4], port: u16, ts: u64)
    requires
        p.len() < 14 || (network16(p, 12) != 0x0800 && network16(p, 12) != 0x8100) || (network16(
            p,
            12,
        ) == 0x0800 && p.len() >= 34 && (p[14] / 16 != 4 || p[23] != 6)) || (network16(p, 12)
            == 0x8100 && p.len() >= 38 && (p[18] / 16 != 4 || p[27] != 6)),
    ensures
        segment_of(p, server, port, ts) is None,
{
    reveal(segment_of);
    assert(p.len() >= 14 ==> be16(p, 12) == network16(p, 12));
    assert(tcp_at(p) is None);
}

/// An enhanced packet block (type 6) holds its length, an interface, the high and the low
/// half of the timestamp, the captured and the original length, and the packet from byte
/// 28 on. The next block starts at a multiple of four.
pub proof fn law_enhanced_blocks(data: Seq<u8>, off: int)
    requires
        0 <= off,
        off + 28 <= data.len(),
        number32(data, off) == 6,
        28 + number32(data, off + 20) <= number32(data, off + 4),
        off + number32(data, off + 4) <= data.len(),
    ensures
        ({
            let len = number32(data, off + 4);
            let n = number32(data, off + 20);
            let next = off + len + (if len % 4 == 0 {
                0
            } else {
                4 - len % 4
            });
            let rest = packets(data, next);
            let all = packets(data, off);
            &&& all.len() == rest.len() + 1
            &&& all[0].0 == number32(data, off + 12) * 0x1_0000_0000 + number32(data, off + 16)
            &&& all[0].1 == data.subrange(off + 28, off + 28 + n)
            &&& all.skip(1) == rest
        }),
{
    let len = number32(data, off + 4);
    assert(aligned(len) == len + (if len % 4 == 0 {
        0
    } else {
        4 - len % 4
    }));
    assert(packets(data, off).skip(1) =~= packets(data, off + aligned(len)));
}

/// A simple packet block (type 3) holds its length, the original length and the packet from
/// byte 12 on, cut to the room in front of the length at the end; it has no timestamp.
pub proof fn law_simple_blocks(data: Seq<u8>, off: int)
    requires
        0 <= off,
        off + 16 <= data.len(),
        number32(data, off) == 3,
        16 <= number32(data, off + 4),
        off + number32(data, off + 4) <= data.len(),
    ensures
        ({
            let len = number32(data, off + 4);
            let n = if number32(data, off + 8) <= len - 16 {
                number32(data, off + 8)
            } else {
                len - 16
            };
            let all = packets(data, off);
            &&& all.len() > 0
            &&& all[0].0 == 0
            &&& all[0].1 == data.subrange(off + 12, off + 12 + n)
            &&& all.skip(1) == packets(data, off + (len + 3) / 4 * 4)
        }),
{
    assert(packets(data, off).skip(1) =~= packets(data, off + aligned(number32(data, off + 4))));
}

/// Other blocks are passed over; a block that is cut short, or says that it is shorter than
/// its own head and tail, ends the file.
pub proof fn law_other_blocks(data: Seq<u8>, off: int)
    requires
        0 <= off,
        off + 8 <= data.len(),
    ensures
        ({
            let len = number32(data, off + 4);
            &&& len < 12 || off + len > data.len() ==> packets(data, off).len() == 0
            &&& 12 <= len && off + len <= data.len() && number32(data, off) != 6 && number32(
                data,
                off,
            ) != 3 ==> packets(data, off) == packets(data, off + (len + 3) / 4 * 4)
        }),
{
}

/// A frame: the length of its body in three bytes, the lowest first, its type, its body.
pub open spec fn framed(t: u8, body: Seq<u8>) -> Seq<u8> {
    let n = body.len();
    seq![(n % 256) as u8, (n / 256 % 256) as u8, (n / 65536) as u8, t] + body
}

/// Frames one after another.
pub open spec fn all_framed(types: Seq<u8>, bodies: Seq<Seq<u8>>) -> Seq<u8>
    decreases bodies.len(),
{
    if bodies.len() == 0 {
        Seq::empty()
    } else {
        framed(types[0], bodies[0]) + all_framed(types.skip(1), bodies.skip(1))
    }
}

proof fn lemma_one_frame(t: u8, body: Seq<u8>, rest: Seq<u8>)
    requires
        0 < body.len() < 0x100_0000,
    ensures
        frame_at_start(framed(t, body) + rest) == Some((t, body.len())),
        (framed(t, body) + rest).skip(4 + body.len() as int) == rest,
{
    let b = framed(t, body) + rest;
    let n = body.len();
    assert(b[0] == n % 256 && b[1] == n / 256 % 256 && b[2] == n / 65536 && b[3] == t);
    assert(n == n % 256 + 256 * (n / 256 % 256) + 65536 * (n / 65536));
    assert(b.skip(4 + n as int) =~= rest);
}

/// Frames are read back with their types and lengths, and what is not a whole frame stays.
pub proof fn law_frames_are_read_back(types: Seq<u8>, bodies: Seq<Seq<u8>>, rest: Seq<u8>)
    requires
        types.len() == bodies.len(),
        forall|k: int| 0 <= k < bodies.len() ==> 0 < (#[trigger] bodies[k]).len() < 0x100_0000,
        frame_at_start(rest) is None,
    ensures
        ({
            let b = all_framed(types, bodies) + rest;
            &&& frames_in(b).len() == bodies.len()
            &&& forall|k: int|
                0 <= k < bodies.len() ==> #[trigger] frames_in(b)[k] == (types[k], bodies[k].len())
            &&& after_frames(b) == rest
        }),
    decreases bodies.len(),
{
    let b = all_framed(types, bodies) + rest;
    if bodies.len() == 0 {
        assert(b =~= rest);
    } else {
        let tail = all_framed(types.skip(1), bodies.skip(1)) + rest;
        assert(b =~= framed(types[0], bodies[0]) + tail);
        lemma_one_frame(types[0], bodies[0], tail);
        assert forall|k: int| 0 <= k < bodies.skip(1).len() implies 0 < (#[trigger] bodies.skip(
            1,
        )[k]).len() < 0x100_0000 by {
            assert(bodies.skip(1)[k] == bodies[k + 1]);
        }
        law_frames_are_read_back(types.skip(1), bodies.skip(1), rest);
        assert(frames_in(b) == seq![(types[0], bodies[0].len())] + frames_in(tail));
        assert forall|k: int| 0 <= k < bodies.len() implies #[trigger] frames_in(b)[k] == (
            types[k],
            bodies[k].len(),
        ) by {
            if k > 0 {
                assert(frames_in(b)[k] == frames_in(tail)[k - 1]);
                assert(types.skip(1)[k - 1] == types[k]);
                assert(bodies.skip(1)[k - 1] == bodies[k]);
            }
        }
    }
}

/// A frame of which a byte is missing is not read.
pub proof fn law_cut_frames_wait(t: u8, body: Seq<u8>, n: int)
    requires
        0 < body.len() < 0x100_0000,
        0 <= n < 4 + body.len(),
    ensures
        frame_at_start(framed(t, body).take(n)) is None,
{
    let b = framed(t, body).take(n);
    let m = body.len();
    if n >= 4 {
        assert(b[0] == m % 256 && b[1] == m / 256 % 256 && b[2] == m / 65536 && b[3] == t);
        assert(m == m % 256 + 256 * (m / 256 % 256) + 65536 * (m / 65536));
    }
}

/// Segments that come in the order of their numbers are joined in that order; one whose
/// number is there already adds nothing.
pub proof fn law_segments_are_joined(s: Seq<(u32, Seq<u8>)>, seq: u32, data: Seq<u8>)
    requires
        s.len() > 0 ==> s.last().0 <= seq,
    ensures
        in_order(placed(s, seq, data)) == (if s.len() > 0 && s.last().0 == seq {
            in_order(s)
        } else {
            in_order(s) + data
        }),
        in_order(Seq::<(u32, Seq<u8>)>::empty()).len() == 0,
{
    assert(s.push((seq, data)).drop_last() =~= s);
}

/// A segment that comes late goes in front of the ones with higher numbers.
pub proof fn law_late_segments_go_in_front(s: Seq<(u32, Seq<u8>)>, seq: u32, data: Seq<u8>, last: (u32, Seq<u8>))
    requires
        seq < last.0,
    ensures
        in_order(placed(s.push(last), seq, data)) == in_order(placed(s, seq, data)) + last.1,
{
    let t = s.push(last);
    assert(t.drop_last() =~= s);
    let p = placed(s, seq, data);
    assert(p.push(last).drop_last() =~= p);
}

/// A segment counts for its own direction, and only for it.
pub proof fn law_directions_are_kept_apart(
    segs: Seq<SegView>,
    order: Seq<usize>,
    k: usize,
    to_server: bool,
)
    ensures
        stream_of(segs, order.push(k), to_server) == (if segs[k as int].to_server == to_server {
            placed(
                stream_of(segs, order, to_server),
                segs[k as int].seq,
                segs[k as int].payload,
            )
        } else {
            stream_of(segs, order, to_server)
        }),
        carried(segs, order.push(k), to_server) == carried(segs, order, to_server) + (if segs[
            k as int
        ].to_server == to_server {
            segs[k as int].payload.len()
        } else {
            0
        }),
{
    assert(order.push(k).drop_last() =~= order);
}

/// A packet of the capture counts by itself, behind those before it.
pub proof fn law_packets_count_one_by_one(
    p: Seq<(u64, Seq<u8>)>,
    ts: u64,
    packet: Seq<u8>,
    server: [u8; 4],
    port: u16,
)
    ensures
        segments_in(p.push((ts, packet)), server, port) == (match segment_of(
            packet,
            server,
            port,
            ts,
        ) {
            Some(s) => segments_in(p, server, port).push(s),
            None => segments_in(p, server, port),
        }),
        segments_in(Seq::<(u64, Seq<u8>)>::empty(), server, port).len() == 0,
{
    assert(p.push((ts, packet)).drop_last() =~= p);
}

/// A segment completes frames of its own direction: they are listed at the time since the
/// first segment, and what is left waits. The other direction is not touched.
pub proof fn law_segments_complete_frames(p: Progress, s: SegView, t0: u64, k: int)
    requires
        s.ts >= t0,
    ensures
        ({
            let q = p.take_in(s, t0);
            let buf = if s.to_server {
                p.client + s.payload
            } else {
                p.server + s.payload
            };
            let n = p.events.len();
            &&& q.events.len() == n + frames_in(buf).len()
            &&& q.events.take(n as int) == p.events
            &&& 0 <= k < frames_in(buf).len() ==> q.events[n + k].at == s.ts - t0 && q.events[n
                + k].to_server == s.to_server && q.events[n + k].msg_type == frames_in(buf)[k].0
            &&& s.to_server ==> q.client == after_frames(buf) && q.server == p.server
            &&& !s.to_server ==> q.server == after_frames(buf) && q.client == p.client
        }),
{
    let q = p.take_in(s, t0);
    assert(q.events.take(p.events.len() as int) =~= p.events);
}

/// A record of a packet that was recorded before counts nothing; the first one counts.
pub proof fn law_records_count_once(segs: Seq<SegView>, order: Seq<usize>, k: nat, j: int)
    requires
        k < order.len(),
        0 <= j < k,
    ensures
        ({
            let (a, b) = (segs[order[j] as int], segs[order[k as int] as int]);
            a.to_server == b.to_server && a.seq == b.seq && a.payload.len() == b.payload.len()
                ==> progress(segs, order, k + 1) == progress(segs, order, k)
        }),
        (forall|i: int|
            0 <= i < k ==> {
                let (a, b) = (segs[#[trigger] order[i] as int], segs[order[k as int] as int]);
                a.to_server != b.to_server || a.seq != b.seq || a.payload.len() != b.payload.len()
            }) ==> progress(segs, order, k + 1) == progress(segs, order, k).take_in(
            segs[order[k as int] as int],
            segs[order[0] as int].ts,
        ),
{
    let (a, b) = (segs[order[j] as int], segs[order[k as int] as int]);
    if a.to_server == b.to_server && a.seq == b.seq && a.payload.len() == b.payload.len() {
        assert(!is_first_record(segs, order, k as int)) by {
            assert(same_packet(segs[order[j] as int], segs[order[k as int] as int]));
        }
    }
    if forall|i: int|
        0 <= i < k ==> {
            let (a, b) = (segs[#[trigger] order[i] as int], segs[order[k as int] as int]);
            a.to_server != b.to_server || a.seq != b.seq || a.payload.len() != b.payload.len()
        } {
        assert(is_first_record(segs, order, k as int)) by {
            assert forall|i: int| 0 <= i < k implies !same_packet(
                segs[#[trigger] order[i] as int],
                segs[order[k as int] as int],
            ) by {}
        }
    }
}

/// A frame of the server with more than 300 bytes is a large one.
pub proof fn law_large_frames(e: FrameEvent)
    ensures
        is_large(e) <==> !e.to_server && e.len > 300,
{
}

} // verus!
