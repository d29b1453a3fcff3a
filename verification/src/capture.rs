//! Offline analysis of a packet capture: the TCP segments of a pcapng file that
//! belong to the remote-control port, put back into byte streams and frames.

pub mod laws;
pub mod timeline;

use crate::wire::{le32_at, push_slice, u32_at};
use vstd::prelude::*;
use vstd::slice::slice_subrange;

verus! {

/// A TCP segment carrying payload, with capture timestamp and direction.
#[derive(Debug)]
pub struct Seg {
    pub ts: u64,
    pub client_port: u16,
    pub to_server: bool,
    pub seq: u32,
    pub payload: Vec<u8>,
}

/// What a segment is.
#[verifier::ext_equal]
pub struct SegView {
    pub ts: u64,
    pub client_port: u16,
    pub to_server: bool,
    pub seq: u32,
    pub payload: Seq<u8>,
}

impl View for Seg {
    type V = SegView;

    open spec fn view(&self) -> SegView {
        SegView {
            ts: self.ts,
            client_port: self.client_port,
            to_server: self.to_server,
            seq: self.seq,
            payload: self.payload@,
        }
    }
}

/// The segments that each element of a list is.
pub open spec fn segs_of(v: Seq<Seg>) -> Seq<SegView> {
    Seq::new(v.len(), |i: int| v[i]@)
}

/// The big-endian 16-bit number at `i`.
pub open spec fn be16(b: Seq<u8>, i: int) -> u16 {
    (0x100 * b[i] + b[i + 1]) as u16
}

/// The big-endian 32-bit number at `i`.
pub open spec fn be32(b: Seq<u8>, i: int) -> u32 {
    (0x1000000 * b[i] + 0x10000 * b[i + 1] + 0x100 * b[i + 2] + b[i + 3]) as u32
}

fn be16_at(b: &[u8], i: usize) -> (r: u16)
    requires
        i + 2 <= b@.len(),
    ensures
        r == be16(b@, i as int),
{
    0x100 * b[i] as u16 + b[i + 1] as u16
}

fn be32_at(b: &[u8], i: usize) -> (r: u32)
    requires
        i + 4 <= b@.len(),
    ensures
        r == be32(b@, i as int),
{
    0x1000000 * b[i] as u32 + 0x10000 * b[i + 1] as u32 + 0x100 * b[i + 2] as u32 + b[i + 3] as u32
}

/// Where the IPv4 header of an Ethernet packet starts: behind the plain header, or
/// behind a VLAN tag.
pub open spec fn ip_at(p: Seq<u8>) -> Option<int> {
    if p.len() < 14 {
        None
    } else if be16(p, 12) == 0x0800 {
        Some(14)
    } else if be16(p, 12) == 0x8100 {
        Some(18)
    } else {
        None
    }
}

/// Where the TCP header starts, if the packet is a complete IPv4 header with TCP.
pub open spec fn tcp_at(p: Seq<u8>) -> Option<int> {
    match ip_at(p) {
        None => None,
        Some(ip) => {
            let tcp = ip + p[ip] % 0x10 * 4;
            if p.len() < ip + 20 || p[ip] / 0x10 != 4 || p[ip + 9] != 6 || p.len() < tcp + 20 {
                None
            } else {
                Some(tcp)
            }
        },
    }
}

/// The TCP payload: from behind the TCP header to the end that the IP header
/// announces.
pub open spec fn payload_of(p: Seq<u8>) -> Option<Seq<u8>> {
    match (ip_at(p), tcp_at(p)) {
        (Some(ip), Some(tcp)) => {
            let start = tcp + p[tcp + 12] / 0x10 * 4;
            let end = ip + be16(p, ip + 2);
            if start < end <= p.len() {
                Some(p.subrange(start, end))
            } else {
                None
            }
        },
        _ => None,
    }
}

/// Whether the four bytes at `i` are an address.
pub open spec fn address_at(p: Seq<u8>, i: int, ip: [u8; 4]) -> bool {
    p[i] == ip[0] && p[i + 1] == ip[1] && p[i + 2] == ip[2] && p[i + 3] == ip[3]
}

/// The segment of a packet that goes to or comes from the server's port.
#[verifier::opaque]
pub open spec fn segment_of(p: Seq<u8>, server_ip: [u8; 4], port: u16, ts: u64) -> Option<SegView> {
    match (ip_at(p), tcp_at(p), payload_of(p)) {
        (Some(ip), Some(tcp), Some(payload)) => {
            let src_port = be16(p, tcp);
            let dst_port = be16(p, tcp + 2);
            let seq = be32(p, tcp + 4);
            if address_at(p, ip + 16, server_ip) && dst_port == port {
                Some(SegView { ts, client_port: src_port, to_server: true, seq, payload })
            } else if address_at(p, ip + 12, server_ip) && src_port == port {
                Some(SegView { ts, client_port: dst_port, to_server: false, seq, payload })
            } else {
                None
            }
        },
        _ => None,
    }
}

fn is_address(p: &[u8], i: usize, ip: &[u8; 4]) -> (r: bool)
    requires
        i + 4 <= p@.len(),
    ensures
        r == address_at(p@, i as int, *ip),
{
    p[i] == ip[0] && p[i + 1] == ip[1] && p[i + 2] == ip[2] && p[i + 3] == ip[3]
}

/// The segment of a raw Ethernet packet, if it carries payload of the server's
/// port.
pub fn parse_segment(pkt: &[u8], server_ip: &[u8; 4], port: u16, ts: u64) -> (r: Option<Seg>)
    ensures
        match r {
            Some(s) => segment_of(pkt@, *server_ip, port, ts) == Some(s@),
            None => segment_of(pkt@, *server_ip, port, ts) is None,
        },
{
    reveal(segment_of);
    assert(pkt.len() == pkt@.len());
    if pkt.len() < 14 {
        return None;
    }
    let ethertype: u16 = be16_at(pkt, 12);
    let ip: usize = if ethertype == 0x0800 {
        14
    } else if ethertype == 0x8100 {
        18
    } else {
        return None;
    };
    if pkt.len() < ip + 20 {
        return None;
    }
    if pkt[ip] / 0x10 != 4 {
        return None;
    }
    let tcp: usize = ip + (pkt[ip] % 0x10) as usize * 4;
    if pkt[ip + 9] != 6 {
        return None;
    }
    if pkt.len() < tcp + 20 {
        return None;
    }
    let start: usize = tcp + (pkt[tcp + 12] / 0x10) as usize * 4;
    let end: usize = ip + be16_at(pkt, ip + 2) as usize;
    if end <= start || end > pkt.len() {
        return None;
    }
    let src_port: u16 = be16_at(pkt, tcp);
    let dst_port: u16 = be16_at(pkt, tcp + 2);
    let seq: u32 = be32_at(pkt, tcp + 4);
    let to_server: bool = is_address(pkt, ip + 16, server_ip) && dst_port == port;
    let from_server: bool = is_address(pkt, ip + 12, server_ip) && src_port == port;
    if !to_server && !from_server {
        return None;
    }
    Some(
        Seg {
            ts,
            client_port: if to_server {
                src_port
            } else {
                dst_port
            },
            to_server,
            seq,
            payload: vstd::slice::slice_to_vec(slice_subrange(pkt, start, end)),
        },
    )
}

/// The block type of an enhanced packet block.
pub const ENHANCED_PACKET: u32 = 6;

/// The block type of a simple packet block.
pub const SIMPLE_PACKET: u32 = 3;

/// The block at `off`: its length, if it is a whole block.
pub open spec fn block_at(data: Seq<u8>, off: int) -> Option<int> {
    if off + 8 <= data.len() && le32_at(data, off + 4) >= 12 && off + le32_at(data, off + 4)
        <= data.len() {
        Some(le32_at(data, off + 4) as int)
    } else {
        None
    }
}

/// How much of its packet a simple packet block of `len` bytes holds: all of it, or
/// what fits between the head of the block and the length at its end.
pub open spec fn simple_len(data: Seq<u8>, off: int, len: int) -> int {
    if le32_at(data, off + 8) <= len - 16 {
        le32_at(data, off + 8) as int
    } else {
        len - 16
    }
}

/// The timestamp and the packet of the block at `off`. A simple packet block has no
/// timestamp, which counts as 0. A block of another kind, or an enhanced one whose
/// packet is cut short, has no packet.
pub open spec fn packet_at(data: Seq<u8>, off: int) -> Option<(u64, Seq<u8>)> {
    if le32_at(data, off) == ENHANCED_PACKET && off + 28 <= data.len() && off + 28 + le32_at(
        data,
        off + 20,
    ) <= data.len() {
        Some(
            (
                (0x1_0000_0000 * le32_at(data, off + 12) + le32_at(data, off + 16)) as u64,
                data.subrange(off + 28, off + 28 + le32_at(data, off + 20)),
            ),
        )
    } else if le32_at(data, off) == SIMPLE_PACKET {
        match block_at(data, off) {
            Some(len) => if len >= 16 {
                Some((0, data.subrange(off + 12, off + 12 + simple_len(data, off, len))))
            } else {
                None
            },
            None => None,
        }
    } else {
        None
    }
}

/// A length rounded up to a multiple of four.
pub open spec fn aligned(n: int) -> int {
    (n + 3) / 4 * 4
}

/// The packets of a pcapng file from `off` on, with their timestamps.
pub open spec fn packets(data: Seq<u8>, off: int) -> Seq<(u64, Seq<u8>)>
    decreases data.len() + 4 - off,
{
    match block_at(data, off) {
        None => Seq::empty(),
        Some(len) => if len < 12 {
            Seq::empty()
        } else {
            let rest = packets(data, off + aligned(len));
            match packet_at(data, off) {
                Some(p) => seq![p] + rest,
                None => rest,
            }
        },
    }
}

/// The segments among packets.
pub open spec fn segments_in(
    p: Seq<(u64, Seq<u8>)>,
    server_ip: [u8; 4],
    port: u16,
) -> Seq<SegView>
    decreases p.len(),
{
    if p.len() == 0 {
        Seq::empty()
    } else {
        let before = segments_in(p.drop_last(), server_ip, port);
        match segment_of(p.last().1, server_ip, port, p.last().0) {
            Some(s) => before.push(s),
            None => before,
        }
    }
}

fn read_block(data: &[u8], off: usize) -> (r: Option<usize>)
    ensures
        match r {
            Some(n) => block_at(data@, off as int) == Some(n as int),
            None => block_at(data@, off as int) is None,
        },
{
    assert(data.len() == data@.len());
    if off > data.len() || data.len() - off < 8 {
        return None;
    }
    let len: u32 = u32_at(data, off + 4);
    if len < 12 || len as u64 > (data.len() - off) as u64 {
        return None;
    }
    Some(len as usize)
}

fn read_packet(data: &[u8], off: usize, len: usize) -> (r: Option<(u64, &[u8])>)
    requires
        block_at(data@, off as int) == Some(len as int),
    ensures
        match r {
            Some((ts, p)) => packet_at(data@, off as int) == Some((ts, p@)),
            None => packet_at(data@, off as int) is None,
        },
{
    assert(data.len() == data@.len());
    let left: usize = data.len() - off;
    let kind: u32 = u32_at(data, off);
    if kind == ENHANCED_PACKET {
        if left < 28 {
            return None;
        }
        let cap: u32 = u32_at(data, off + 20);
        if cap as u64 > (left - 28) as u64 {
            return None;
        }
        let ts: u64 = 0x1_0000_0000 * u32_at(data, off + 12) as u64 + u32_at(data, off + 16) as u64;
        Some((ts, slice_subrange(data, off + 28, off + 28 + cap as usize)))
    } else if kind == SIMPLE_PACKET {
        if len < 16 {
            return None;
        }
        let whole: u32 = u32_at(data, off + 8);
        let cap: usize = if whole as u64 <= (len - 16) as u64 {
            whole as usize
        } else {
            len - 16
        };
        Some((0, slice_subrange(data, off + 12, off + 12 + cap)))
    } else {
        None
    }
}

/// The segments of a pcapng file that belong to the server's port, in the order of
/// the file, and how many packets the file holds.
pub fn extract_segments(data: &[u8], server_ip: &[u8; 4], port: u16) -> (r: (Vec<Seg>, u64))
    ensures
        segs_of(r.0@) == segments_in(packets(data@, 0), *server_ip, port),
        r.1 == packets(data@, 0).len(),
{
    assert(data.len() == data@.len());
    let mut segs: Vec<Seg> = Vec::new();
    let mut count: u64 = 0;
    let mut off: usize = 0;
    let ghost mut done: Seq<(u64, Seq<u8>)> = Seq::empty();
    assert(segs_of(segs@) =~= Seq::<SegView>::empty());
    assert(done + packets(data@, 0) =~= packets(data@, 0));
    loop
        invariant
            data.len() == data@.len(),
            off <= data@.len(),
            packets(data@, 0) == done + packets(data@, off as int),
            segs_of(segs@) == segments_in(done, *server_ip, port),
            count == done.len(),
            count <= off,
        decreases data@.len() - off,
    {
        let len: usize = match read_block(data, off) {
            Some(len) => len,
            None => {
                assert(done + packets(data@, off as int) =~= done);
                return (segs, count);
            },
        };
        let left: usize = data.len() - off;
        let ghost before = done;
        let ghost segs0 = segs@;
        if let Some((ts, pkt)) = read_packet(data, off, len) {
            proof {
                done = done.push((ts, pkt@));
                assert(done.drop_last() =~= before);
            }
            if let Some(seg) = parse_segment(pkt, server_ip, port, ts) {
                segs.push(seg);
                assert(segs_of(segs@) =~= segs_of(segs0).push(seg@));
            }
            count = count + 1;
        }
        let pad: usize = (4 - len % 4) % 4;
        assert(aligned(len as int) == len + pad);
        assert(done + packets(data@, off + aligned(len as int)) =~= before + packets(
            data@,
            off as int,
        ));
        if pad > left - len {
            // The padding of the last block is missing.
            assert(packets(data@, off + aligned(len as int)) =~= Seq::empty());
            assert(done + packets(data@, off + aligned(len as int)) =~= done);
            return (segs, count);
        }
        off = off + len + pad;
    }
}

/// The client ports of segments, each once, in the order in which they turn up.
pub open spec fn ports(segs: Seq<SegView>) -> Seq<u16>
    decreases segs.len(),
{
    if segs.len() == 0 {
        Seq::empty()
    } else {
        let before = ports(segs.drop_last());
        if before.contains(segs.last().client_port) {
            before
        } else {
            before.push(segs.last().client_port)
        }
    }
}

fn has_port(v: &Vec<u16>, port: u16) -> (r: bool)
    ensures
        r == v@.contains(port),
{
    let mut i: usize = 0;
    while i < v.len()
        invariant
            i <= v@.len(),
            forall|k: int| 0 <= k < i ==> v@[k] != port,
        decreases v@.len() - i,
    {
        if v[i] == port {
            return true;
        }
        i = i + 1;
    }
    false
}

/// The connections of a capture, by client port, in the order in which they turn
/// up.
pub fn connections(segs: &[Seg]) -> (r: Vec<u16>)
    ensures
        r@ == ports(segs_of(segs@)),
{
    let mut out: Vec<u16> = Vec::new();
    let mut i: usize = 0;
    let ghost all = segs_of(segs@);
    assert(all.take(0) =~= Seq::empty());
    while i < segs.len()
        invariant
            i <= segs@.len(),
            all == segs_of(segs@),
            out@ == ports(all.take(i as int)),
        decreases segs@.len() - i,
    {
        let port: u16 = segs[i].client_port;
        if !has_port(&out, port) {
            out.push(port);
        }
        i = i + 1;
        assert(all.take(i as int).drop_last() =~= all.take(i - 1));
    }
    assert(all.take(i as int) =~= all);
    out
}

/// Every connection is listed once, and every segment's connection is listed.
pub proof fn law_connections_are_distinct_and_complete(segs: Seq<SegView>)
    ensures
        ports(segs).no_duplicates(),
        forall|i: int| 0 <= i < segs.len() ==> ports(segs).contains(#[trigger] segs[i].client_port),
    decreases segs.len(),
{
    if segs.len() > 0 {
        let rest = segs.drop_last();
        law_connections_are_distinct_and_complete(rest);
        let before = ports(rest);
        let last = segs.last().client_port;
        assert forall|i: int| 0 <= i < segs.len() implies ports(segs).contains(
            #[trigger] segs[i].client_port,
        ) by {
            if i < rest.len() {
                assert(rest[i] == segs[i]);
                assert(before.contains(rest[i].client_port));
                let k = choose|k: int| 0 <= k < before.len() && before[k] == segs[i].client_port;
                assert(ports(segs)[k] == segs[i].client_port);
            } else if !before.contains(last) {
                assert(ports(segs)[before.len() as int] == last);
            }
        }
    }
}

/// Whether segment `a` comes before segment `b` in time: by its timestamp, and by
/// its place in the capture where the timestamps are the same.
pub open spec fn earlier(segs: Seq<SegView>, a: int, b: int) -> bool {
    segs[a].ts < segs[b].ts || (segs[a].ts == segs[b].ts && a < b)
}

/// Whether `order` goes through segments in time.
pub open spec fn in_time(segs: Seq<SegView>, order: Seq<usize>) -> bool {
    forall|i: int, j: int|
        0 <= i < j < order.len() ==> earlier(segs, #[trigger] order[i] as int, #[trigger] order[j] as int)
}

/// Whether segment `i` belongs to a connection.
pub open spec fn belongs(segs: Seq<SegView>, i: int, port: u16) -> bool {
    segs[i].client_port == port
}

/// The segments of a connection in time: their places in the capture.
pub fn connection_in_time(segs: &[Seg], port: u16) -> (order: Vec<usize>)
    ensures
        in_time(segs_of(segs@), order@),
        forall|k: int|
            0 <= k < order@.len() ==> #[trigger] order@[k] < segs@.len() && belongs(
                segs_of(segs@),
                order@[k] as int,
                port,
            ),
        forall|i: usize|
            i < segs@.len() && belongs(segs_of(segs@), i as int, port) ==> order@.contains(i),
{
    let ghost all = segs_of(segs@);
    let mut order: Vec<usize> = Vec::new();
    let mut i: usize = 0;
    while i < segs.len()
        invariant
            i <= segs@.len(),
            all == segs_of(segs@),
            in_time(all, order@),
            forall|k: int|
                0 <= k < order@.len() ==> #[trigger] order@[k] < i && belongs(
                    all,
                    order@[k] as int,
                    port,
                ),
            forall|j: usize| j < i && belongs(all, j as int, port) ==> order@.contains(j),
        decreases segs@.len() - i,
    {
        if segs[i].client_port == port {
            let ts: u64 = segs[i].ts;
            let mut at: usize = order.len();
            while at > 0 && segs[order[at - 1]].ts > ts
                invariant
                    i < segs@.len(),
                    all == segs_of(segs@),
                    ts == all[i as int].ts,
                    at <= order@.len(),
                    in_time(all, order@),
                    forall|k: int|
                        0 <= k < order@.len() ==> #[trigger] order@[k] < i && belongs(
                            all,
                            order@[k] as int,
                            port,
                        ),
                    forall|k: int|
                        at <= k < order@.len() ==> all[#[trigger] order@[k] as int].ts > ts,
                decreases at,
            {
                at = at - 1;
            }
            let ghost before = order@;
            order.insert(at, i);
            proof {
                lemma_insert_in_time(all, before, at as int, i);
                assert forall|j: usize| j < i + 1 && belongs(all, j as int, port) implies order@.contains(
                    j,
                ) by {
                    if j < i {
                        assert(before.contains(j));
                        let k = choose|k: int| 0 <= k < before.len() && before[k] == j;
                        if k < at {
                            assert(order@[k] == j);
                        } else {
                            assert(order@[k + 1] == j);
                        }
                    } else {
                        assert(order@[at as int] == i);
                    }
                }
            }
        }
        i = i + 1;
    }
    order
}

proof fn lemma_insert_in_time(segs: Seq<SegView>, order: Seq<usize>, at: int, i: usize)
    requires
        in_time(segs, order),
        0 <= at <= order.len(),
        forall|k: int| 0 <= k < order.len() ==> #[trigger] order[k] < i,
        forall|k: int| at <= k < order.len() ==> segs[#[trigger] order[k] as int].ts > segs[i as int].ts,
        at > 0 ==> segs[order[at - 1] as int].ts <= segs[i as int].ts,
    ensures
        in_time(segs, order.insert(at, i)),
{
    let new = order.insert(at, i);
    assert forall|a: int, b: int| 0 <= a < b < new.len() implies earlier(
        segs,
        #[trigger] new[a] as int,
        #[trigger] new[b] as int,
    ) by {
        if a < at {
            assert(new[a] == order[a]);
            if b == at {
                if a < at - 1 {
                    assert(earlier(segs, order[a] as int, order[at - 1] as int));
                }
            } else if b < at {
                assert(new[b] == order[b]);
                assert(earlier(segs, order[a] as int, order[b] as int));
            } else {
                assert(new[b] == order[b - 1]);
                assert(earlier(segs, order[a] as int, order[b - 1] as int));
            }
        } else if a == at {
            assert(new[b] == order[b - 1]);
        } else {
            assert(new[a] == order[a - 1]);
            assert(new[b] == order[b - 1]);
            assert(earlier(segs, order[a - 1] as int, order[b - 1] as int));
        }
    }
}

/// Whether sequence numbers go up.
pub open spec fn ascending(s: Seq<(u32, Seq<u8>)>) -> bool {
    forall|i: int, j: int| 0 <= i < j < s.len() ==> #[trigger] s[i].0 < #[trigger] s[j].0
}

/// A segment put at its place by its sequence number; one whose number is there
/// already (a retransmission) changes nothing.
pub open spec fn placed(s: Seq<(u32, Seq<u8>)>, seq: u32, data: Seq<u8>) -> Seq<(u32, Seq<u8>)>
    decreases s.len(),
{
    if s.len() == 0 || s.last().0 < seq {
        s.push((seq, data))
    } else if s.last().0 == seq {
        s
    } else {
        placed(s.drop_last(), seq, data).push(s.last())
    }
}

/// The payloads one after another.
pub open spec fn in_order(s: Seq<(u32, Seq<u8>)>) -> Seq<u8>
    decreases s.len(),
{
    if s.len() == 0 {
        Seq::empty()
    } else {
        in_order(s.drop_last()) + s.last().1
    }
}

/// One direction of a connection: its segments by sequence number, so that they can
/// be put in order even if they arrive out of order in the capture.
pub struct Stream {
    segments: Vec<(u32, Vec<u8>)>,
}

impl View for Stream {
    type V = Seq<(u32, Seq<u8>)>;

    closed spec fn view(&self) -> Seq<(u32, Seq<u8>)> {
        Seq::new(self.segments@.len(), |i: int| (self.segments@[i].0, self.segments@[i].1@))
    }
}

impl Default for Stream {
    fn default() -> (r: Self)
        ensures
            r@.len() == 0,
    {
        Stream { segments: Vec::new() }
    }
}

impl Stream {
    /// Add a segment.
    pub fn add_segment(&mut self, seq: u32, payload: &[u8])
        requires
            ascending(old(self)@),
        ensures
            ascending(final(self)@),
            final(self)@ == placed(old(self)@, seq, payload@),
    {
        let ghost before = self@;
        let mut at: usize = self.segments.len();
        while at > 0 && self.segments[at - 1].0 > seq
            invariant
                self@ == before,
                at <= self@.len(),
                self@.len() == self.segments@.len(),
                forall|k: int| at <= k < self@.len() ==> (#[trigger] self@[k]).0 > seq,
            decreases at,
        {
            at = at - 1;
            assert(self@[at as int].0 == self.segments@[at as int].0);
        }
        proof {
            if at > 0 {
                assert(self@[at - 1].0 == self.segments@[at - 1].0);
            }
            lemma_placed(before, at as int, seq, payload@);
        }
        if at > 0 && self.segments[at - 1].0 == seq {
            return;
        }
        self.segments.insert(at, (seq, vstd::slice::slice_to_vec(payload)));
        assert(self@ =~= before.insert(at as int, (seq, payload@)));
    }

    /// The bytes of the stream.
    pub fn reassemble(&self) -> (out: Vec<u8>)
        ensures
            out@ == in_order(self@),
    {
        let mut out: Vec<u8> = Vec::new();
        let mut i: usize = 0;
        assert(self@.take(0) =~= Seq::empty());
        while i < self.segments.len()
            invariant
                i <= self.segments@.len(),
                self@.len() == self.segments@.len(),
                out@ == in_order(self@.take(i as int)),
            decreases self.segments@.len() - i,
        {
            push_slice(&mut out, self.segments[i].1.as_slice());
            i = i + 1;
            assert(self@.take(i as int).drop_last() =~= self@.take(i - 1));
        }
        assert(self@.take(i as int) =~= self@);
        out
    }
}

/// Where a segment is put, told by its place.
proof fn lemma_placed(s: Seq<(u32, Seq<u8>)>, at: int, seq: u32, data: Seq<u8>)
    requires
        ascending(s),
        0 <= at <= s.len(),
        forall|k: int| at <= k < s.len() ==> (#[trigger] s[k]).0 > seq,
        at > 0 ==> s[at - 1].0 <= seq,
    ensures
        ascending(placed(s, seq, data)),
        placed(s, seq, data) == (if at > 0 && s[at - 1].0 == seq {
            s
        } else {
            s.insert(at, (seq, data))
        }),
    decreases s.len(),
{
    if at == s.len() {
        assert(s.insert(at, (seq, data)) =~= s.push((seq, data)));
        if s.len() > 0 && s.last().0 != seq {
            assert forall|i: int, j: int| 0 <= i < j < s.len() + 1 implies (#[trigger] s.push(
                (seq, data),
            )[i]).0 < (#[trigger] s.push((seq, data))[j]).0 by {
                if j == s.len() && i < s.len() - 1 {
                    assert(s[i].0 < s[s.len() - 1].0);
                }
            }
        }
    } else {
        let rest = s.drop_last();
        assert forall|i: int, j: int| 0 <= i < j < rest.len() implies #[trigger] rest[i].0
            < #[trigger] rest[j].0 by {
            assert(s[i].0 < s[j].0);
        }
        lemma_placed(rest, at, seq, data);
        let new = placed(s, seq, data);
        if at > 0 && s[at - 1].0 == seq {
            assert(new =~= s);
        } else {
            assert(new =~= s.insert(at, (seq, data)));
            assert forall|i: int, j: int| 0 <= i < j < new.len() implies (#[trigger] new[i]).0 < (
            #[trigger] new[j]).0 by {
                let last = s.len() - 1;
                if j == new.len() - 1 {
                    assert(new[j] == s[last]);
                    if i < at {
                        assert(new[i] == s[i]);
                        assert(s[i].0 < s[last].0);
                    } else if i > at {
                        assert(new[i] == s[i - 1]);
                        assert(s[i - 1].0 < s[last].0);
                    }
                } else {
                    let p = placed(rest, seq, data);
                    assert(new[i] == p[i]);
                    assert(new[j] == p[j]);
                    assert(p[i].0 < p[j].0);
                }
            }
        }
    }
}

/// Segments are put in order no matter how they arrive: two segments with different
/// sequence numbers may change places.
pub proof fn law_arrival_order_does_not_matter(
    s: Seq<(u32, Seq<u8>)>,
    a: (u32, Seq<u8>),
    b: (u32, Seq<u8>),
)
    requires
        ascending(s),
        a.0 != b.0,
    ensures
        placed(placed(s, a.0, a.1), b.0, b.1) == placed(placed(s, b.0, b.1), a.0, a.1),
    decreases s.len(),
{
    reveal_with_fuel(placed, 3);
    let ab = placed(placed(s, a.0, a.1), b.0, b.1);
    let ba = placed(placed(s, b.0, b.1), a.0, a.1);
    if s.len() == 0 {
        let sa = s.push(a);
        let sb = s.push(b);
        assert(sa.drop_last() =~= s);
        assert(sb.drop_last() =~= s);
        assert(ab =~= ba);
    } else {
        let rest = s.drop_last();
        let last = s.last();
        assert forall|i: int, j: int| 0 <= i < j < rest.len() implies #[trigger] rest[i].0
            < #[trigger] rest[j].0 by {
            assert(s[i].0 < s[j].0);
        }
        law_arrival_order_does_not_matter(rest, a, b);
        let pa = placed(rest, a.0, a.1);
        let pb = placed(rest, b.0, b.1);
        assert(s.push(a).drop_last() =~= s);
        assert(s.push(b).drop_last() =~= s);
        assert(pa.push(last).drop_last() =~= pa);
        assert(pb.push(last).drop_last() =~= pb);
        assert(pa.push(last).push(b).drop_last() =~= pa.push(last));
        assert(pb.push(last).push(a).drop_last() =~= pb.push(last));
        assert(ab =~= ba);
    }
}

/// The stream of one direction of a connection, its segments taken in the given
/// order.
pub open spec fn stream_of(segs: Seq<SegView>, order: Seq<usize>, to_server: bool) -> Seq<
    (u32, Seq<u8>),
>
    decreases order.len(),
{
    if order.len() == 0 {
        Seq::empty()
    } else {
        let before = stream_of(segs, order.drop_last(), to_server);
        let s = segs[order.last() as int];
        if s.to_server == to_server {
            placed(before, s.seq, s.payload)
        } else {
            before
        }
    }
}

/// The stream of one direction of a connection.
pub fn connection_stream(segs: &[Seg], order: &[usize], to_server: bool) -> (r: Stream)
    requires
        forall|k: int| 0 <= k < order@.len() ==> #[trigger] order@[k] < segs@.len(),
    ensures
        ascending(r@),
        r@ == stream_of(segs_of(segs@), order@, to_server),
{
    let mut r = Stream::default();
    let ghost all = segs_of(segs@);
    let mut i: usize = 0;
    assert(order@.take(0) =~= Seq::empty());
    assert(r@ =~= Seq::empty());
    while i < order.len()
        invariant
            i <= order@.len(),
            all == segs_of(segs@),
            forall|k: int| 0 <= k < order@.len() ==> #[trigger] order@[k] < segs@.len(),
            ascending(r@),
            r@ == stream_of(all, order@.take(i as int), to_server),
        decreases order@.len() - i,
    {
        let s: &Seg = &segs[order[i]];
        assert(s@ == all[order@[i as int] as int]);
        if s.to_server == to_server {
            r.add_segment(s.seq, s.payload.as_slice());
        }
        i = i + 1;
        assert(order@.take(i as int).drop_last() =~= order@.take(i - 1));
    }
    assert(order@.take(i as int) =~= order@);
    r
}

/// How many payload bytes segments of one direction carry.
pub open spec fn carried(segs: Seq<SegView>, order: Seq<usize>, to_server: bool) -> nat
    decreases order.len(),
{
    if order.len() == 0 {
        0
    } else {
        let s = segs[order.last() as int];
        carried(segs, order.drop_last(), to_server) + if s.to_server == to_server {
            s.payload.len()
        } else {
            0
        }
    }
}

/// How many payload bytes segments of one direction carry, retransmissions
/// included.
pub fn bytes_carried(segs: &[Seg], order: &[usize], to_server: bool) -> (n: u64)
    requires
        forall|k: int| 0 <= k < order@.len() ==> #[trigger] order@[k] < segs@.len(),
        carried(segs_of(segs@), order@, to_server) <= u64::MAX,
    ensures
        n == carried(segs_of(segs@), order@, to_server),
{
    let ghost all = segs_of(segs@);
    let mut n: u64 = 0;
    let mut i: usize = 0;
    assert(order@.take(0) =~= Seq::empty());
    while i < order.len()
        invariant
            i <= order@.len(),
            all == segs_of(segs@),
            forall|k: int| 0 <= k < order@.len() ==> #[trigger] order@[k] < segs@.len(),
            carried(all, order@, to_server) <= u64::MAX,
            n == carried(all, order@.take(i as int), to_server),
        decreases order@.len() - i,
    {
        let s: &Seg = &segs[order[i]];
        i = i + 1;
        proof {
            assert(s@ == all[order@[i - 1] as int]);
            assert(order@.take(i as int).drop_last() =~= order@.take(i - 1));
            lemma_carried_grows(all, order@, i as int, to_server);
        }
        if s.to_server == to_server {
            n = n + s.payload.len() as u64;
        }
    }
    assert(order@.take(i as int) =~= order@);
    n
}

proof fn lemma_carried_grows(segs: Seq<SegView>, order: Seq<usize>, n: int, to_server: bool)
    requires
        0 <= n <= order.len(),
    ensures
        carried(segs, order.take(n), to_server) <= carried(segs, order, to_server),
    decreases order.len() - n,
{
    if n == order.len() {
        assert(order.take(n) =~= order);
    } else {
        lemma_carried_grows(segs, order, n + 1, to_server);
        assert(order.take(n + 1).drop_last() =~= order.take(n));
    }
}

} // verus!
