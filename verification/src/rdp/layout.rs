//! Where the parts of PDUs, updates and events stand on the wire.

use crate::protocol::cliprdr::{
    is_text_format, law_long_list_is_read_back, law_text_list_is_detected, long_list, offers_text,
    parsed, text_data, ClipView,
};
use crate::protocol::mppc::MppcState;
use crate::protocol::mppc_tokens::{law_texts_come_back, literals, packed, stream};
use crate::protocol::transport::{behind, front, Front};
use crate::rdp::channels::{
    arbitration_event, curtain_event, dvc_command_name, server_event, takeover_event, ArbitrationChannel,
    ArbitrationPolicy,
};
use crate::rdp::clipboard::ClipState;
use crate::rdp::fastpath::{
    chunk_at, chunk_end, chunks, fast_path_frame, fragmentation_of, inflated, is_compressed,
    law_rebuilt_orders_are_found, orders_in, plain_update, rebuilt, records, updates, Chunk,
    Fragmentation,
};
use crate::rdp::frame::UpdateRegion;
use crate::rdp::pdu::{complete_pdu, short_cap, short_rev2, Action};
use crate::rdp::refresh::{rectangle_message, whole_desktop};
use crate::rdp::startup::empty_key_list;
use crate::text::utf16;
use crate::wire::{
    bytes16, bytes32, lemma_bytes32, lemma_unit_bytes, number16, number32, unit_bytes, zero_bytes,
};
use vstd::prelude::*;

verus! {

/// An update on the wire: the header, the compression flags if there are any, the length
/// with its low byte first, the data.
pub open spec fn chunk_bytes(c: Chunk) -> Seq<u8> {
    let n = c.data.len();
    (match c.flags {
        Some(f) => seq![c.header, f],
        None => seq![c.header],
    }) + seq![(n % 256) as u8, (n / 256) as u8] + c.data
}

/// Whether an update can be written: it has flags exactly if the top bits of its header
/// are 10, and its length fits.
pub open spec fn chunk_fits(c: Chunk) -> bool {
    c.data.len() < 65536 && (c.flags is Some <==> 0x80 <= c.header < 0xC0)
}

/// The bytes of updates in a row.
pub open spec fn all_chunk_bytes(c: Seq<Chunk>) -> Seq<u8>
    decreases c.len(),
{
    if c.len() == 0 {
        Seq::empty()
    } else {
        chunk_bytes(c[0]) + all_chunk_bytes(c.skip(1))
    }
}

proof fn lemma_one_chunk(frame: Seq<u8>, pos: int, c: Chunk)
    requires
        0 <= pos,
        pos + chunk_bytes(c).len() <= frame.len(),
        frame.subrange(pos, pos + chunk_bytes(c).len()) == chunk_bytes(c),
        chunk_fits(c),
    ensures
        chunk_end(frame, pos) == Some(pos + chunk_bytes(c).len()),
        chunk_at(frame, pos, pos + chunk_bytes(c).len()) == c,
{
    let b = chunk_bytes(c);
    let at = frame.subrange(pos, pos + b.len());
    let n = c.data.len() as int;
    assert(frame[pos] == at[0] && at[0] == c.header);
    assert(is_compressed(c.header) == (0x80 <= c.header < 0xC0));
    let h = if c.flags is Some {
        4int
    } else {
        3
    };
    assert(frame[pos + h - 2] == at[h - 2] && at[h - 2] == n % 256);
    assert(frame[pos + h - 1] == at[h - 1] && at[h - 1] == n / 256);
    if c.flags is Some {
        assert(frame[pos + 1] == at[1]);
    }
    assert(b.len() == h + n);
    assert(frame.subrange(pos + h, pos + b.len()) =~= c.data) by {
        assert forall|k: int| 0 <= k < n implies frame[pos + h + k] == c.data[k] by {
            assert(at[h + k] == b[h + k]);
        }
    }
}

proof fn lemma_chunks(frame: Seq<u8>, pos: int, c: Seq<Chunk>)
    requires
        0 <= pos <= frame.len(),
        frame.skip(pos) == all_chunk_bytes(c),
        forall|k: int| 0 <= k < c.len() ==> chunk_fits(#[trigger] c[k]),
    ensures
        chunks(frame, pos) == c,
    decreases c.len(),
{
    if c.len() == 0 {
        assert(frame.skip(pos).len() == 0);
        assert(chunks(frame, pos) =~= c);
    } else {
        let b = chunk_bytes(c[0]);
        let rest = all_chunk_bytes(c.skip(1));
        let tail = frame.skip(pos);
        assert(tail == b + rest);
        assert(frame.subrange(pos, pos + b.len()) =~= b) by {
            assert forall|k: int| 0 <= k < b.len() implies frame[pos + k] == b[k] by {
                assert(tail[k] == frame[pos + k]);
            }
        }
        lemma_one_chunk(frame, pos, c[0]);
        assert(frame.skip(pos + b.len()) =~= rest) by {
            assert forall|k: int| 0 <= k < rest.len() implies frame[pos + b.len() + k]
                == rest[k] by {
                assert(tail[b.len() + k] == frame[pos + (b.len() + k)]);
            }
        }
        lemma_chunks(frame, pos + b.len(), c.skip(1));
        assert(chunks(frame, pos) =~= c);
    }
}

/// A fast-path PDU is cut into the updates that it was made of.
pub proof fn law_updates_are_cut_apart(fph: u8, c: Seq<Chunk>)
    requires
        fph % 4 == 0,
        c.len() > 0,
        forall|k: int| 0 <= k < c.len() ==> chunk_fits(#[trigger] c[k]),
    ensures
        updates(fast_path_frame(fph, all_chunk_bytes(c))) == c,
{
    let body = all_chunk_bytes(c);
    let frame = fast_path_frame(fph, body);
    assert(body.len() >= chunk_bytes(c[0]).len());
    let n = if 2 + body.len() < 0x80 {
        2int
    } else {
        3
    };
    assert(frame.skip(n) =~= body);
    lemma_chunks(frame, n, c);
}

/// The length of a fast-path PDU covers all of it: one byte below 0x80, else two, the high
/// one first with its top bit set.
pub proof fn law_fast_path_lengths(fph: u8, body: Seq<u8>)
    requires
        body.len() < 0x7FFD,
    ensures
        ({
            let f = fast_path_frame(fph, body);
            &&& f[0] == fph
            &&& if f[1] < 0x80 {
                f[1] == f.len() && f.skip(2) == body
            } else {
                (f[1] - 0x80) * 256 + f[2] == f.len() && f.skip(3) == body
            }
        }),
{
    let f = fast_path_frame(fph, body);
    if f[1] < 0x80 {
        assert(f.skip(2) =~= body);
    } else {
        assert(f.skip(3) =~= body);
    }
}

/// A fast-path PDU is taken out of a stream whole, and what follows stays.
pub proof fn law_fast_path_pdus_are_taken_whole(fph: u8, body: Seq<u8>, rest: Seq<u8>)
    requires
        fph % 4 == 0,
        0 < body.len() < 0x7FFD,
    ensures
        complete_pdu(fast_path_frame(fph, body) + rest) == Some(
            (Action::FastPath, fast_path_frame(fph, body), rest),
        ),
{
    let f = fast_path_frame(fph, body);
    law_fast_path_lengths(fph, body);
    let all = f + rest;
    assert(all[0] == f[0] && all[1] == f[1] && all[2] == f[2]);
    assert(all.take(f.len() as int) =~= f);
    assert(all.skip(f.len() as int) =~= rest);
}

/// A PDU in a TPKT (version 3, then a byte, then the length with its high byte first) is
/// taken out of a stream whole.
pub proof fn law_tpkt_pdus_are_taken_whole(f: Seq<u8>, rest: Seq<u8>)
    requires
        4 <= f.len() < 65536,
        f[0] == 3,
        f[2] * 256 + f[3] == f.len(),
    ensures
        complete_pdu(f + rest) == Some((Action::X224, f, rest)),
{
    let all = f + rest;
    assert(all[0] == f[0] && all[2] == f[2] && all[3] == f[3]);
    assert(all.take(f.len() as int) =~= f);
    assert(all.skip(f.len() as int) =~= rest);
}

/// A PDU of which a byte is missing is not taken.
pub proof fn law_cut_pdus_wait(f: Seq<u8>, n: int)
    requires
        4 <= f.len() < 65536,
        f[0] == 3 && f[2] * 256 + f[3] == f.len(),
        0 <= n < f.len(),
    ensures
        complete_pdu(f.take(n)) is None,
{
}

/// Bits 4 and 5 of an update header: 0 is a whole update, 1 the last part of one, 2 the
/// first, 3 one between.
pub proof fn law_fragmentation_bits(header: u8)
    ensures
        fragmentation_of(header) == Fragmentation::Single <==> header / 16 % 4 == 0,
        fragmentation_of(header) == Fragmentation::Last <==> header / 16 % 4 == 1,
        fragmentation_of(header) == Fragmentation::First <==> header / 16 % 4 == 2,
        fragmentation_of(header) == Fragmentation::Next <==> header / 16 % 4 == 3,
{
}

/// The compressed updates among some.
pub open spec fn compressed_ones(c: Seq<Chunk>) -> Seq<Chunk> {
    c.filter(|x: Chunk| x.flags is Some)
}

proof fn lemma_all_chunk_bytes_push(c: Seq<Chunk>, last: Chunk)
    ensures
        all_chunk_bytes(c.push(last)) == all_chunk_bytes(c) + chunk_bytes(last),
    decreases c.len(),
{
    let all = c.push(last);
    if c.len() == 0 {
        assert(all.skip(1) =~= Seq::empty());
        assert(all_chunk_bytes(all.skip(1)) =~= Seq::<u8>::empty());
        assert(all_chunk_bytes(all) =~= all_chunk_bytes(c) + chunk_bytes(last));
    } else {
        assert(all.skip(1) =~= c.skip(1).push(last));
        lemma_all_chunk_bytes_push(c.skip(1), last);
        assert(all_chunk_bytes(all) =~= all_chunk_bytes(c) + chunk_bytes(last));
    }
}

/// The records of a PDU are its compressed updates as they stand on the wire, one after
/// the other.
pub proof fn law_records_are_the_compressed_updates(c: Seq<Chunk>)
    requires
        forall|k: int| 0 <= k < c.len() ==> chunk_fits(#[trigger] c[k]),
    ensures
        records(c) == all_chunk_bytes(compressed_ones(c)),
    decreases c.len(),
{
    let p = |x: Chunk| x.flags is Some;
    reveal(Seq::filter);
    if c.len() == 0 {
        assert(compressed_ones(c) =~= Seq::empty());
    } else {
        let before = c.drop_last();
        assert forall|k: int| 0 <= k < before.len() implies chunk_fits(#[trigger] before[k]) by {
            assert(before[k] == c[k]);
        }
        law_records_are_the_compressed_updates(before);
        let last = c.last();
        assert(chunk_fits(last));
        assert(compressed_ones(c) == (if p(last) {
            before.filter(p).push(last)
        } else {
            before.filter(p)
        }));
        if last.flags is Some {
            lemma_all_chunk_bytes_push(compressed_ones(before), last);
            assert(records(c) =~= records(before) + chunk_bytes(last));
        }
    }
}

/// Bit 5 of the compression flags says that the data are packed; bit 6 starts again at the
/// front of the window, bit 7 also clears it. What comes out of packed data stands behind
/// the write position.
pub proof fn law_updates_are_inflated(s: MppcState, flags: u8, text: Seq<u8>)
    requires
        s.wf(),
        text.len() <= 65536,
        flags < 64 ==> s.offset + text.len() <= 65536,
    ensures
        ({
            let data = packed(stream(literals(text)));
            let (t, out) = inflated(s, flags, data);
            let start = if flags >= 128 {
                s.reset(true, true)
            } else if flags >= 64 {
                s.reset(true, false)
            } else {
                s
            };
            if flags / 32 % 2 == 1 {
                out == text && t.offset == start.offset + text.len()
            } else {
                out == data && t == start
            }
        }),
{
    let data = packed(stream(literals(text)));
    let start = s.reset(flags / 0x40 % 2 == 1, flags / 0x80 == 1);
    assert(s.reset(false, true) == s.reset(true, true));
    assert(start.wf());
    law_texts_come_back(text, start);
}

/// Drawing orders that are sent packed arrive: the PDU is cut apart, the update expanded,
/// and found again with its fragmentation and its bytes.
pub proof fn law_packed_orders_arrive(fph: u8, frag: u8, s: MppcState, text: Seq<u8>)
    requires
        fph % 4 == 0,
        frag < 4,
        s.wf(),
        0 < text.len() <= 0xFFFF,
        (text.len() + 6) % 0x8000 >= 3,
        s.offset + text.len() <= 65536,
        packed(stream(literals(text))).len() < 65536,
    ensures
        ({
            let c = Chunk {
                header: (0x80 + 16 * frag) as u8,
                flags: Some(0x20u8),
                data: packed(stream(literals(text))),
            };
            let out = rebuilt(fph, s, updates(fast_path_frame(fph, all_chunk_bytes(seq![c]))));
            &&& out.len() == 1
            &&& orders_in(out[0]) == Some((fragmentation_of((16 * frag) as u8), text))
        }),
{
    let c = Chunk {
        header: (0x80 + 16 * frag) as u8,
        flags: Some(0x20u8),
        data: packed(stream(literals(text))),
    };
    let list = seq![c];
    law_updates_are_cut_apart(fph, list);
    law_updates_are_inflated(s, 0x20, text);
    law_rebuilt_orders_are_found(fph, c.header, text);
    assert(list.drop_last() =~= Seq::empty());
    assert(list.last() == c);
    assert(rebuilt(fph, s, list.drop_last()) =~= Seq::<Seq<u8>>::empty());
    assert(crate::rdp::fastpath::inflate_all(s, list.drop_last()) == s);
    assert(rebuilt(fph, s, list) == Seq::<Seq<u8>>::empty().push(
        fast_path_frame(fph, plain_update((c.header % 0x40) as u8, text)),
    ));
}

proof fn lemma_data_header(
    m: Seq<u8>,
    total: u16,
    source: u16,
    share: u32,
    body: u16,
    kind: u8,
    rest: Seq<u8>,
)
    requires
        m == bytes16(total) + bytes16(0x17) + bytes16(source) + bytes32(share) + seq![0u8, 2]
            + bytes16(body) + seq![kind, 0u8] + bytes16(0) + rest,
    ensures
        m.len() == 18 + rest.len(),
        number16(m, 0) == total,
        number16(m, 2) == 0x17,
        number16(m, 4) == source,
        number32(m, 6) == share,
        m[11] == 2,
        number16(m, 12) == body,
        m[14] == kind,
        m[15] == 0,
        m.skip(18) == rest,
{
    lemma_bytes32(share);
    assert(m[6] == bytes32(share)[0] && m[7] == bytes32(share)[1] && m[8] == bytes32(share)[2]
        && m[9] == bytes32(share)[3]);
    assert(m.skip(18) =~= rest);
}

/// A message about a rectangle is 30 bytes long and says so. It names the source, the
/// share and its kind; its rectangle is left, top, right, bottom from byte 22 on.
pub proof fn law_rectangle_message_layout(kind: u8, source: u16, share: u32, r: UpdateRegion)
    ensures
        ({
            let m = rectangle_message(kind, source, share, r);
            &&& m.len() == 30 && number16(m, 0) == 30 && number16(m, 2) == 0x17
            &&& number16(m, 4) == source
            &&& number32(m, 6) == share
            &&& m[11] == 2 && number16(m, 12) == 16
            &&& m[14] == kind
            &&& m[18] == 1
            &&& number16(m, 22) == r.left
            &&& number16(m, 24) == r.top
            &&& number16(m, 26) == r.right
            &&& number16(m, 28) == r.bottom
        }),
{
    let m = rectangle_message(kind, source, share, r);
    let rest = seq![1u8, 0, 0, 0] + crate::rdp::refresh::rectangle(r);
    assert(m =~= bytes16(30) + bytes16(0x17) + bytes16(source) + bytes32(share) + seq![0u8, 2]
        + bytes16(16) + seq![kind, 0u8] + bytes16(0) + rest);
    lemma_data_header(m, 30, source, share, 16, kind, rest);
    assert forall|k: int| 0 <= k < 12 implies m[18 + k] == rest[k] by {
        assert(m.skip(18)[k] == m[18 + k]);
    }
    assert(m[18] == rest[0]);
    assert(m[22] == rest[4] && m[23] == rest[5] && m[24] == rest[6] && m[25] == rest[7]);
    assert(m[26] == rest[8] && m[27] == rest[9] && m[28] == rest[10] && m[29] == rest[11]);
}

/// The whole of a desktop holds each of its pixels and no other; it starts at the origin.
pub proof fn law_whole_desktop(width: u16, height: u16, x: int, y: int)
    requires
        width > 0,
        height > 0,
    ensures
        whole_desktop(width, height).contains(x, y) <==> 0 <= x < width && 0 <= y < height,
        UpdateRegion::whole(width, height).contains(x, y) <==> 0 <= x < width && 0 <= y < height,
{
}

/// An empty key list is 42 bytes long and says so; it has no keys, and is the first and
/// the last part of the list.
pub proof fn law_key_list_layout(source: u16, share: u32, k: int)
    ensures
        ({
            let m = empty_key_list(source, share);
            &&& m.len() == 42 && number16(m, 0) == 42 && number16(m, 2) == 0x17
            &&& number16(m, 4) == source
            &&& number32(m, 6) == share
            &&& m[11] == 2 && number16(m, 12) == 28
            &&& m[14] == 0x2b
            &&& m[38] == 3
            &&& 15 <= k < 42 && k != 38 ==> m[k] == 0
        }),
{
    let m = empty_key_list(source, share);
    let rest = zero_bytes(20) + seq![0x03u8] + zero_bytes(3);
    assert(m =~= bytes16(42) + bytes16(0x17) + bytes16(source) + bytes32(share) + seq![0u8, 2]
        + bytes16(28) + seq![0x2bu8, 0] + bytes16(0) + rest);
    lemma_data_header(m, 42, source, share, 28, 0x2b, rest);
    assert(m[38] == rest[20]) by {
        assert(m.skip(18)[20] == m[38]);
    }
    if 18 <= k < 42 && k != 38 {
        assert(m.skip(18)[k - 18] == m[k]);
    }
}

/// An arbitration event: the tag 2, the length 16, the type and the argument.
pub proof fn law_arbitration_event_layout(event_type: u32, arg: u32)
    ensures
        ({
            let m = arbitration_event(event_type, arg);
            &&& m.len() == 16
            &&& number32(m, 0) == 2
            &&& number32(m, 4) == 16
            &&& number32(m, 8) == event_type
            &&& number32(m, 12) == arg
            &&& server_event(m) == event_type
        }),
{
    let m = arbitration_event(event_type, arg);
    lemma_bytes32(2);
    lemma_bytes32(16);
    lemma_bytes32(event_type);
    lemma_bytes32(arg);
    assert(m[0] == bytes32(2)[0] && m[1] == bytes32(2)[1] && m[2] == bytes32(2)[2] && m[3]
        == bytes32(2)[3]);
    assert(m[4] == bytes32(16)[0] && m[5] == bytes32(16)[1] && m[6] == bytes32(16)[2] && m[7]
        == bytes32(16)[3]);
    assert(m[8] == bytes32(event_type)[0] && m[9] == bytes32(event_type)[1] && m[10] == bytes32(
        event_type,
    )[2] && m[11] == bytes32(event_type)[3]);
    assert(m[12] == bytes32(arg)[0] && m[13] == bytes32(arg)[1] && m[14] == bytes32(arg)[2]
        && m[15] == bytes32(arg)[3]);
}

/// The event of a payload stands at byte 8; a shorter payload has the event 0.
pub proof fn law_server_events(payload: Seq<u8>)
    ensures
        server_event(payload) == (if payload.len() >= 12 {
            number32(payload, 8)
        } else {
            0
        }),
{
}

/// A curtain event: the tag 1, the length 12, the type.
pub proof fn law_curtain_event_layout(t: u32)
    ensures
        ({
            let m = curtain_event(t);
            &&& m.len() == 12
            &&& number32(m, 0) == 1
            &&& number32(m, 4) == 12
            &&& number32(m, 8) == t
        }),
{
    let m = curtain_event(t);
    lemma_bytes32(1);
    lemma_bytes32(12);
    lemma_bytes32(t);
    assert(m[0] == bytes32(1)[0] && m[1] == bytes32(1)[1] && m[2] == bytes32(1)[2] && m[3]
        == bytes32(1)[3]);
    assert(m[4] == bytes32(12)[0] && m[5] == bytes32(12)[1] && m[6] == bytes32(12)[2] && m[7]
        == bytes32(12)[3]);
    assert(m[8] == bytes32(t)[0] && m[9] == bytes32(t)[1] && m[10] == bytes32(t)[2] && m[11]
        == bytes32(t)[3]);
}

/// A take-over event: the tag 2, the length 1036, the type 5, then the units of the
/// client's name, as many as fit in 512, and nulls.
pub proof fn law_takeover_event_layout(name: Seq<char>, k: int)
    requires
        0 <= k < 512,
    ensures
        ({
            let m = takeover_event(name);
            let u = utf16(name);
            &&& m.len() == 1036
            &&& number32(m, 0) == 2
            &&& number32(m, 4) == 1036
            &&& number32(m, 8) == 5
            &&& number16(m, 12 + 2 * k) == (if k < u.len() {
                u[k] as int
            } else {
                0
            })
        }),
{
    let m = takeover_event(name);
    let u = utf16(name);
    let units = if u.len() <= 512 {
        u
    } else {
        u.take(512)
    };
    lemma_unit_bytes(units);
    lemma_bytes32(2);
    lemma_bytes32(1036);
    lemma_bytes32(5);
    let field = unit_bytes(units) + zero_bytes((2 * (512 - units.len())) as nat);
    let head = bytes32(2) + bytes32(1036) + bytes32(5);
    assert(m =~= head + field);
    assert forall|i: int| 0 <= i < 12 implies m[i] == head[i] by {}
    assert(head[0] == bytes32(2)[0] && head[1] == bytes32(2)[1] && head[2] == bytes32(2)[2]
        && head[3] == bytes32(2)[3]);
    assert(head[4] == bytes32(1036)[0] && head[5] == bytes32(1036)[1] && head[6] == bytes32(1036)[2]
        && head[7] == bytes32(1036)[3]);
    assert(head[8] == bytes32(5)[0] && head[9] == bytes32(5)[1] && head[10] == bytes32(5)[2]
        && head[11] == bytes32(5)[3]);
    assert(m[12 + 2 * k] == field[2 * k] && m[12 + 2 * k + 1] == field[2 * k + 1]);
    if k < units.len() {
        assert(units[k] == u[k]);
        assert(field[2 * k] == unit_bytes(units)[2 * k]);
        assert(field[2 * k + 1] == unit_bytes(units)[2 * k + 1]);
    } else {
        assert(field[2 * k] == 0);
        assert(field[2 * k + 1] == 0);
    }
}

/// A busy host (event 1) is taken over once, where that is allowed; a configured reply is
/// sent once to any other event, and to a busy host that is not taken over. Nothing else
/// is sent.
pub proof fn law_arbitration_answers(c: ArbitrationChannel, event: u32, p: ArbitrationPolicy)
    ensures
        ({
            let (d, sent) = c.answer(event, p);
            let take = event == 1 && p.takeover && !c.takeover_sent;
            let reply = !take && c.replies_sent == 0 && p.reply is Some;
            &&& d.takeover_sent == (c.takeover_sent || take)
            &&& d.replies_sent == (if reply {
                1u32
            } else {
                c.replies_sent
            })
            &&& sent.len() == (if take || reply {
                1int
            } else {
                0
            })
            &&& take ==> sent[0] == takeover_event(p.client_name@)
            &&& reply ==> sent[0] == arbitration_event(p.reply->0, 0)
        }),
{
}

/// In a Demand Active (an MCS indication in a TPKT whose share control type ends in 1) the
/// capability sets follow the source descriptor: their number, two bytes of padding, then
/// the sets. A first set of type 0x13 and less than 40 bytes is found there.
pub proof fn law_short_sets_are_found(f: Seq<u8>, u: int, first: int)
    requires
        f.len() >= 15,
        f[0] == 3,
        f[7] == 0x68,
        u == (if f[13] < 0x80 {
            14int
        } else {
            15
        }),
        u + 12 <= f.len(),
        f[u + 2] % 16 == 1,
        first == u + 18 + number16(f, u + 10),
        first + 4 <= f.len(),
        number16(f, first - 4) >= 1,
    ensures
        number16(f, first) == 0x13 && number16(f, first + 2) < 40 ==> short_rev2(f) == Some(first),
        short_rev2(f) == short_cap(f, first, number16(f, first - 4) as nat),
{
}

/// A set that is complete, or of another type, is passed over by its length; the search
/// ends with the number of sets, or with the frame.
pub proof fn law_complete_sets_are_passed_over(f: Seq<u8>, p: int, n: nat)
    requires
        0 <= p,
    ensures
        n == 0 || p + 4 > f.len() ==> short_cap(f, p, n) is None,
        n > 0 && p + 4 <= f.len() && (number16(f, p) != 0x13 || number16(f, p + 2) >= 40)
            ==> short_cap(f, p, n) == short_cap(f, p + number16(f, p + 2), (n - 1) as nat),
{
}

/// Other frames have no such sets.
pub proof fn law_other_frames_have_no_sets(f: Seq<u8>)
    requires
        f.len() < 15 || f[0] != 3 || f[7] != 0x68 || f[if f[13] < 0x80 {
            16int
        } else {
            17
        }] % 16 != 1,
    ensures
        short_rev2(f) is None,
{
}

/// A frame header that announces more than 8388608 bytes is not believed; a whole frame is
/// taken, and bytes that are not a whole frame stay.
pub proof fn law_frames_in_the_buffer(rx: Seq<u8>)
    ensures
        ({
            let n = rx[0] + 256 * rx[1] + 65536 * rx[2];
            &&& rx.len() < 4 ==> front(rx) == Front::Incomplete && behind(rx) == rx
            &&& rx.len() >= 4 && n > 8388608 ==> front(rx) == Front::Oversized(n as nat) && behind(
                rx,
            ) == rx
            &&& rx.len() >= 4 && n <= 8388608 && rx.len() < 4 + n ==> front(rx)
                == Front::Incomplete && behind(rx) == rx
            &&& rx.len() >= 4 && n <= 8388608 && rx.len() >= 4 + n ==> front(rx) == Front::Whole(
                rx[3],
                rx.subrange(4, 4 + n),
            ) && behind(rx) == rx.skip(4 + n)
        }),
{
}

proof fn lemma_plain_units(s: Seq<char>)
    requires
        forall|i: int| 0 <= i < s.len() ==> (#[trigger] s[i]) as int <= 0xFFFF,
    ensures
        utf16(s).len() == s.len(),
    decreases s.len(),
{
    if s.len() > 0 {
        let f = s.drop_last();
        assert forall|i: int| 0 <= i < f.len() implies (#[trigger] f[i]) as int <= 0xFFFF by {
            assert(f[i] == s[i]);
        }
        lemma_plain_units(f);
        assert(s[s.len() - 1] as int <= 0xFFFF);
        crate::text::lemma_char(s.last());
    }
}

/// An announcement of the client is read as one with text exactly if there is text.
pub proof fn law_announcements_are_read(s: ClipState)
    ensures
        parsed(s.announcement()) == Some(ClipView::FormatList { has_text: s.known is Some }),
{
    reveal_strlit("");
    reveal_strlit("FileGroupDescriptorW");
    let text = (13u32, "");
    let file = (0xC0DEu32, "FileGroupDescriptorW");
    lemma_plain_units(""@);
    lemma_plain_units("FileGroupDescriptorW"@);
    lemma_unit_bytes(utf16(""@));
    lemma_unit_bytes(utf16("FileGroupDescriptorW"@));
    let l = if s.known is Some && s.file is Some {
        seq![text, file]
    } else if s.known is Some {
        seq![text]
    } else if s.file is Some {
        seq![file]
    } else {
        Seq::<(u32, &str)>::empty()
    };
    let none = Seq::<(u32, &str)>::empty();
    assert(seq![text].drop_last() =~= none);
    assert(seq![file].drop_last() =~= none);
    assert(seq![text, file].drop_last() =~= seq![text]);
    assert(long_list(none) =~= Seq::<u8>::empty());
    assert(long_list(seq![text]) =~= bytes32(13) + text_data(""@));
    assert(long_list(seq![file]) =~= bytes32(0xC0DE) + text_data("FileGroupDescriptorW"@));
    assert(long_list(l) =~= s.offers());
    if l.len() > 0 {
        law_long_list_is_read_back(l);
        if s.known is Some {
            assert(is_text_format(l[0].0));
            assert(offers_text(l));
        } else {
            assert(!offers_text(l));
        }
    } else {
        law_text_list_is_detected(false);
        assert(crate::protocol::cliprdr::short_text_list(false) =~= s.offers());
    }
}

/// The high half of the first byte names the command of a dynamic channel PDU, from 1 to 8;
/// the low half does not matter.
pub proof fn law_dvc_commands(low: u8)
    requires
        low < 16,
    ensures
        dvc_command_name((0x10 + low) as u8) == "CREATE"@,
        dvc_command_name((0x20 + low) as u8) == "DATA_FIRST"@,
        dvc_command_name((0x30 + low) as u8) == "DATA"@,
        dvc_command_name((0x40 + low) as u8) == "CLOSE"@,
        dvc_command_name((0x50 + low) as u8) == "CAPABILITY_REQUEST"@,
        dvc_command_name((0x60 + low) as u8) == "DATA_FIRST_COMPRESSED"@,
        dvc_command_name((0x70 + low) as u8) == "DATA_COMPRESSED"@,
        dvc_command_name((0x80 + low) as u8) == "SOFT_SYNC_REQUEST"@,
        dvc_command_name(low) == "?"@,
        dvc_command_name((0x90 + low) as u8) == "?"@,
{
}

} // verus!
