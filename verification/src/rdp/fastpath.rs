//! Fast-path output: splitting a PDU into its updates, decompressing them,
//! finding the drawing-order updates among them and joining their fragments.

use crate::protocol::mppc::{expand, MppcDecompressor, MppcState};
use crate::wire::{bytes16, contents, le16_at, lemma_bytes16, push_slice, push_u16, u16_at};
use std::collections::VecDeque;
use vstd::prelude::*;
use vstd::slice::slice_subrange;

verus! {

/// A fast-path output PDU: its header byte, the length of the whole (one byte up
/// to 127, else two, high byte first with its top bit set) and the body. A length
/// that does not fit in 15 bits loses what lies above them.
pub open spec fn fast_path_frame(fph: u8, body: Seq<u8>) -> Seq<u8> {
    let short = 2 + body.len();
    let long = 3 + body.len();
    if short < 0x80 {
        seq![fph, short as u8] + body
    } else {
        seq![fph, (0x80 + long / 0x100 % 0x80) as u8, (long % 0x100) as u8] + body
    }
}

/// Wrap a fast-path update body (update header and payload) in a fast-path
/// output PDU header.
pub fn wrap_fastpath(fph: u8, body: &[u8]) -> (out: Vec<u8>)
    requires
        body@.len() + 3 <= usize::MAX,
    ensures
        out@ == fast_path_frame(fph, body@),
{
    let mut out: Vec<u8> = Vec::new();
    out.push(fph);
    let short: usize = 2 + body.len();
    if short < 0x80 {
        out.push(short as u8);
    } else {
        let long: usize = 3 + body.len();
        out.push((0x80 + long / 0x100 % 0x80) as u8);
        out.push((long % 0x100) as u8);
    }
    push_slice(&mut out, body);
    assert(out@ =~= fast_path_frame(fph, body@));
    out
}

/// One update structure of a PDU: its header, its compression flags where it is
/// compressed, and its data.
pub struct Chunk {
    pub header: u8,
    pub flags: Option<u8>,
    pub data: Seq<u8>,
}

/// Whether an update header says that compression flags follow.
pub open spec fn is_compressed(header: u8) -> bool {
    header / 0x40 == 2
}

/// Where the size of the update at `pos` stands.
pub open spec fn size_at(frame: Seq<u8>, pos: int) -> int {
    if is_compressed(frame[pos]) {
        pos + 2
    } else {
        pos + 1
    }
}

/// Where the update at `pos` ends, if all of it is there.
pub open spec fn chunk_end(frame: Seq<u8>, pos: int) -> Option<int> {
    let at = size_at(frame, pos);
    if pos < frame.len() && at + 2 <= frame.len() && at + 2 + le16_at(frame, at)
        <= frame.len() {
        Some(at + 2 + le16_at(frame, at))
    } else {
        None
    }
}

/// The update at `pos`, which ends at `end`.
pub open spec fn chunk_at(frame: Seq<u8>, pos: int, end: int) -> Chunk {
    Chunk {
        header: frame[pos],
        flags: if is_compressed(frame[pos]) {
            Some(frame[pos + 1])
        } else {
            None
        },
        data: frame.subrange(size_at(frame, pos) + 2, end),
    }
}

/// The updates from `pos` on, up to the first that is cut short.
pub open spec fn chunks(frame: Seq<u8>, pos: int) -> Seq<Chunk>
    decreases frame.len() - pos,
{
    match chunk_end(frame, pos) {
        Some(end) => if pos < end {
            seq![chunk_at(frame, pos, end)] + chunks(frame, end)
        } else {
            Seq::empty()
        },
        None => Seq::empty(),
    }
}

/// Whether a PDU is a fast-path PDU with room for an update.
pub open spec fn is_fast_path(frame: Seq<u8>) -> bool {
    frame.len() >= 3 && frame[0] % 4 == 0
}

/// Where the updates of a fast-path PDU start.
pub open spec fn body_start(frame: Seq<u8>) -> int {
    if frame[1] >= 0x80 {
        3
    } else {
        2
    }
}

/// The updates of a fast-path PDU.
pub open spec fn updates(frame: Seq<u8>) -> Seq<Chunk> {
    if is_fast_path(frame) {
        chunks(frame, body_start(frame))
    } else {
        Seq::empty()
    }
}

/// An update without compression: header, size, data.
pub open spec fn plain_update(header: u8, data: Seq<u8>) -> Seq<u8> {
    seq![header] + bytes16(data.len() as u16) + data
}

/// The decompressor after one update, and what the update holds.
pub open spec fn inflated(s: MppcState, flags: u8, data: Seq<u8>) -> (MppcState, Seq<u8>) {
    let start = s.reset(flags / 0x40 % 2 == 1, flags / 0x80 == 1);
    if flags / 0x20 % 2 == 1 {
        let end = expand(data, 0, start);
        (end, end.history.subrange(start.offset as int, end.offset as int))
    } else {
        (start, data)
    }
}

/// The decompressor after all updates of a PDU.
pub open spec fn inflate_all(s: MppcState, c: Seq<Chunk>) -> MppcState
    decreases c.len(),
{
    if c.len() == 0 {
        s
    } else {
        let before = inflate_all(s, c.drop_last());
        match c.last().flags {
            Some(f) => inflated(before, f, c.last().data).0,
            None => before,
        }
    }
}

/// Each update of a PDU as a PDU of its own without compression. The update code
/// and the fragmentation stay; an update that decompresses to nothing, or to more
/// than its size field can say, is dropped.
pub open spec fn rebuilt(fph: u8, s: MppcState, c: Seq<Chunk>) -> Seq<Seq<u8>>
    decreases c.len(),
{
    if c.len() == 0 {
        Seq::empty()
    } else {
        let before = rebuilt(fph, s, c.drop_last());
        let last = c.last();
        match last.flags {
            None => before.push(fast_path_frame(fph, plain_update(last.header, last.data))),
            Some(f) => {
                let plain = inflated(inflate_all(s, c.drop_last()), f, last.data).1;
                if 0 < plain.len() <= 0xFFFF {
                    before.push(fast_path_frame(fph, plain_update(last.header % 0x40, plain)))
                } else {
                    before
                }
            },
        }
    }
}

/// Whether any of the updates is compressed.
pub open spec fn any_compressed(c: Seq<Chunk>) -> bool {
    exists|i: int| 0 <= i < c.len() && #[trigger] c[i].flags is Some
}

/// Result of running `maybe_decompress` over one fast-path PDU.
#[derive(Debug)]
pub enum Decomp {
    /// Not a compressed fast-path frame: process the original frame unchanged.
    Passthrough,
    /// A complete (decompressed) update to process now; further updates of this
    /// PDU were queued.
    Ready(Vec<u8>),
    /// No update of the PDU holds anything.
    Pending,
}

/// Decompress a fast-path PDU's updates. Each compressed update is decompressed
/// by itself (sharing the persistent history) and rebuilt as an uncompressed
/// update that keeps its fragmentation, so the order layer joins the plaintext
/// fragments. The first is returned and the rest go to the end of `extra`.
pub fn maybe_decompress(
    frame: &[u8],
    dec: &mut MppcDecompressor,
    extra: &mut VecDeque<Vec<u8>>,
) -> (r: Decomp)
    requires
        old(dec)@.wf(),
    ensures
        final(dec)@.wf(),
        final(dec)@ == inflate_all(old(dec)@, updates(frame@)),
        ({
            let out = rebuilt(frame@[0], old(dec)@, updates(frame@));
            match r {
                Decomp::Passthrough => {
                    &&& !any_compressed(updates(frame@))
                    &&& final(extra)@ == old(extra)@
                },
                Decomp::Ready(f) => {
                    &&& any_compressed(updates(frame@))
                    &&& out.len() > 0
                    &&& f@ == out[0]
                    &&& contents(final(extra)@) == contents(old(extra)@) + out.skip(1)
                },
                Decomp::Pending => {
                    &&& any_compressed(updates(frame@))
                    &&& out.len() == 0
                    &&& final(extra)@ == old(extra)@
                },
            }
        }),
{
    assert(frame.len() == frame@.len());
    if frame.len() < 3 || frame[0] % 4 != 0 {
        return Decomp::Passthrough;
    }
    let fph: u8 = frame[0];
    let ghost s0 = dec@;
    let mut pos: usize = if frame[1] >= 0x80 {
        3
    } else {
        2
    };
    let mut ready: VecDeque<Vec<u8>> = VecDeque::new();
    let mut any: bool = false;
    let ghost mut done: Seq<Chunk> = Seq::empty();
    assert(done + chunks(frame@, pos as int) =~= updates(frame@));
    assert(contents(ready@) =~= Seq::<Seq<u8>>::empty());
    while pos < frame.len()
        invariant_except_break
            updates(frame@) == done + chunks(frame@, pos as int),
        invariant
            frame.len() == frame@.len(),
            dec@.wf(),
            pos <= frame@.len(),
            any == any_compressed(done),
            dec@ == inflate_all(s0, done),
            contents(ready@) == rebuilt(fph, s0, done),
        ensures
            updates(frame@) == done,
        decreases frame@.len() - pos,
    {
        let uh: u8 = frame[pos];
        let compressed: bool = uh / 0x40 == 2;
        let head: usize = if compressed {
            4
        } else {
            3
        };
        if head > frame.len() - pos {
            assert(done + chunks(frame@, pos as int) =~= done);
            break;
        }
        let size: usize = u16_at(frame, pos + head - 2) as usize;
        let start: usize = pos + head;
        if size > frame.len() - start {
            assert(done + chunks(frame@, pos as int) =~= done);
            break;
        }
        let ghost before = done;
        let ghost chunk = chunk_at(frame@, pos as int, start + size);
        proof {
            assert(chunk_end(frame@, pos as int) == Some(start + size));
            done = done.push(chunk);
            assert(done.drop_last() =~= before);
            assert(done + chunks(frame@, start + size) =~= before + chunks(frame@, pos as int));
            lemma_any_push(before, chunk);
        }
        let data: &[u8] = slice_subrange(frame, start, start + size);
        let ghost ready0 = ready@;
        if compressed {
            any = true;
            let flags: u8 = frame[pos + 1];
            let plain: Vec<u8> = dec.decompress(
                data,
                flags / 0x20 % 2 == 1,
                flags / 0x40 % 2 == 1,
                flags / 0x80 == 1,
            );
            if plain.len() > 0 && plain.len() <= 0xFFFF {
                ready.push_back(rebuild(fph, uh % 0x40, plain.as_slice()));
            }
        } else {
            ready.push_back(rebuild(fph, uh, data));
        }
        assert(contents(ready@) =~= rebuilt(fph, s0, done));
        pos = start + size;
    }
    proof {
        if pos == frame@.len() {
            assert(done + chunks(frame@, pos as int) =~= done);
        }
    }
    if !any {
        return Decomp::Passthrough;
    }
    let ghost out = contents(ready@);
    match ready.pop_front() {
        Some(first) => {
            extra.append(&mut ready);
            assert(contents(extra@) =~= contents(old(extra)@) + out.skip(1));
            Decomp::Ready(first)
        },
        None => Decomp::Pending,
    }
}

proof fn lemma_any_push(c: Seq<Chunk>, last: Chunk)
    ensures
        any_compressed(c.push(last)) == (any_compressed(c) || last.flags is Some),
{
    let all = c.push(last);
    if any_compressed(c) {
        let i = choose|i: int| 0 <= i < c.len() && #[trigger] c[i].flags is Some;
        assert(all[i].flags is Some);
    }
    if last.flags is Some {
        assert(all[c.len() as int].flags is Some);
    }
    if any_compressed(all) {
        let i = choose|i: int| 0 <= i < all.len() && #[trigger] all[i].flags is Some;
        if i < c.len() {
            assert(c[i].flags is Some);
        }
    }
}

/// An uncompressed update as a PDU of its own.
fn rebuild(fph: u8, header: u8, data: &[u8]) -> (out: Vec<u8>)
    requires
        data@.len() <= 0xFFFF,
    ensures
        out@ == fast_path_frame(fph, plain_update(header, data@)),
{
    let mut body: Vec<u8> = Vec::new();
    body.push(header);
    push_u16(&mut body, data.len() as u16);
    push_slice(&mut body, data);
    assert(body@ =~= plain_update(header, data@));
    wrap_fastpath(fph, body.as_slice())
}

/// The records of a PDU's compressed updates, for replaying a session's
/// compressed stream offline: update header, compression flags, size, data.
pub open spec fn records(c: Seq<Chunk>) -> Seq<u8>
    decreases c.len(),
{
    if c.len() == 0 {
        Seq::empty()
    } else {
        let before = records(c.drop_last());
        match c.last().flags {
            Some(f) => before + seq![c.last().header, f] + bytes16(c.last().data.len() as u16)
                + c.last().data,
            None => before,
        }
    }
}

/// Exactly the bytes that the decompressor consumes of a PDU, as records.
pub fn mppc_records(frame: &[u8]) -> (out: Vec<u8>)
    ensures
        out@ == records(updates(frame@)),
{
    assert(frame.len() == frame@.len());
    let mut out: Vec<u8> = Vec::new();
    if frame.len() < 3 || frame[0] % 4 != 0 {
        return out;
    }
    let mut pos: usize = if frame[1] >= 0x80 {
        3
    } else {
        2
    };
    let ghost mut done: Seq<Chunk> = Seq::empty();
    assert(done + chunks(frame@, pos as int) =~= updates(frame@));
    while pos < frame.len()
        invariant
            frame.len() == frame@.len(),
            pos <= frame@.len(),
            updates(frame@) == done + chunks(frame@, pos as int),
            out@ == records(done),
        decreases frame@.len() - pos,
    {
        let uh: u8 = frame[pos];
        let compressed: bool = uh / 0x40 == 2;
        let head: usize = if compressed {
            4
        } else {
            3
        };
        if head > frame.len() - pos {
            assert(done + chunks(frame@, pos as int) =~= done);
            return out;
        }
        let size: usize = u16_at(frame, pos + head - 2) as usize;
        let start: usize = pos + head;
        if size > frame.len() - start {
            assert(done + chunks(frame@, pos as int) =~= done);
            return out;
        }
        let ghost before = done;
        let ghost chunk = chunk_at(frame@, pos as int, start + size);
        proof {
            assert(chunk_end(frame@, pos as int) == Some(start + size));
            done = done.push(chunk);
            assert(done.drop_last() =~= before);
            assert(done + chunks(frame@, start + size) =~= before + chunks(frame@, pos as int));
        }
        if compressed {
            out.push(uh);
            out.push(frame[pos + 1]);
            push_u16(&mut out, size as u16);
            push_slice(&mut out, slice_subrange(frame, start, start + size));
            assert(out@ =~= records(done));
        }
        pos = start + size;
    }
    assert(done + chunks(frame@, pos as int) =~= done);
    out
}

/// Which part of a split update this is.
#[derive(Debug, Clone, Copy, PartialEq, Eq, Structural)]
pub enum Fragmentation {
    Single,
    Last,
    First,
    Next,
}

/// The fragmentation in an update header.
pub open spec fn fragmentation_of(header: u8) -> Fragmentation {
    let bits = header / 0x10 % 4;
    if bits == 0 {
        Fragmentation::Single
    } else if bits == 1 {
        Fragmentation::Last
    } else if bits == 2 {
        Fragmentation::First
    } else {
        Fragmentation::Next
    }
}

/// The update code of drawing orders.
pub const UPDATE_ORDERS: u8 = 0;

/// A decoded update structure.
pub struct FastPathUpdate {
    pub code: u8,
    pub fragmentation: Fragmentation,
    pub data: Vec<u8>,
}

/// Where the header of a fast-path PDU ends: two bytes, or three where the length
/// takes two. A header that is cut short, or whose length does not even cover the
/// header, does not count.
pub open spec fn header_end(frame: Seq<u8>) -> Option<nat> {
    if frame.len() < 2 {
        None
    } else if frame[1] < 0x80 {
        if frame[1] >= 2 {
            Some(2)
        } else {
            None
        }
    } else if frame.len() >= 3 && 0x100 * (frame[1] - 0x80) + frame[2] >= 3 {
        Some(3)
    } else {
        None
    }
}

/// The update structure at the start of `b`: a known update code (0 to 6 and 8 to
/// 12), compression flags with a known type where bit 7 of the header is set, and
/// all of its data.
pub open spec fn update_in(b: Seq<u8>) -> Option<(u8, Fragmentation, Seq<u8>)> {
    let code = b[0] % 0x10;
    let at = if b[0] >= 0x80 {
        2int
    } else {
        1int
    };
    if b.len() < at + 2 || code == 7 || code > 12 || (at == 2 && b[1] % 0x10 > 3) || at + 2
        + le16_at(b, at) > b.len() {
        None
    } else {
        Some((code, fragmentation_of(b[0]), b.subrange(at + 2, at + 2 + le16_at(b, at))))
    }
}

/// `ironrdp_core::decode_cursor::<FastPathHeader>` of `ironrdp-pdu`, at the start
/// of a PDU. Trusted: it succeeds exactly where `header_end` says so, and leaves
/// the cursor there. It does not look at the action bits.
#[verifier::external_body]
fn read_header(frame: &[u8]) -> (r: Option<usize>)
    ensures
        match r {
            Some(n) => header_end(frame@) == Some(n as nat),
            None => header_end(frame@) is None,
        },
{
    let mut cursor = ironrdp_core::ReadCursor::new(frame);
    match ironrdp_core::decode_cursor::<ironrdp_pdu::fast_path::FastPathHeader>(&mut cursor) {
        Ok(_) => Some(cursor.pos()),
        Err(_) => None,
    }
}

/// `ironrdp_core::decode_cursor::<FastPathUpdatePdu>` of `ironrdp-pdu`. Trusted:
/// it succeeds exactly where `update_in` says so, with that update code,
/// fragmentation and data; compressed data comes as it is.
#[verifier::external_body]
fn read_update(bytes: &[u8]) -> (r: Option<FastPathUpdate>)
    ensures
        match r {
            Some(u) => update_in(bytes@) == Some((u.code, u.fragmentation, u.data@)),
            None => update_in(bytes@) is None,
        },
{
    let mut cursor = ironrdp_core::ReadCursor::new(bytes);
    match ironrdp_core::decode_cursor::<ironrdp_pdu::fast_path::FastPathUpdatePdu<'_>>(&mut cursor) {
        Ok(u) => Some(FastPathUpdate {
            code: u.update_code.as_u8(),
            fragmentation: match u.fragmentation {
                ironrdp_pdu::fast_path::Fragmentation::Single => Fragmentation::Single,
                ironrdp_pdu::fast_path::Fragmentation::Last => Fragmentation::Last,
                ironrdp_pdu::fast_path::Fragmentation::First => Fragmentation::First,
                ironrdp_pdu::fast_path::Fragmentation::Next => Fragmentation::Next,
            },
            data: u.data.to_vec(),
        }),
        Err(_) => None,
    }
}

/// The fragmentation and the order bytes of a PDU that carries drawing orders.
pub open spec fn orders_in(frame: Seq<u8>) -> Option<(Fragmentation, Seq<u8>)> {
    match header_end(frame) {
        None => None,
        Some(n) => match update_in(frame.skip(n as int)) {
            Some((code, frag, data)) => if code == UPDATE_ORDERS {
                Some((frag, data))
            } else {
                None
            },
            None => None,
        },
    }
}

/// Decode a fast-path frame and, if it carries a drawing-order update, return
/// the fragmentation and the order bytes. None for any other update.
pub fn decode_fastpath_orders(frame: &[u8]) -> (r: Option<(Fragmentation, Vec<u8>)>)
    ensures
        match r {
            Some((frag, data)) => orders_in(frame@) == Some((frag, data@)),
            None => orders_in(frame@) is None,
        },
{
    match read_header(frame) {
        None => None,
        Some(n) => {
            let rest: &[u8] = slice_subrange(frame, n, frame.len());
            assert(rest@ =~= frame@.skip(n as int));
            match read_update(rest) {
                Some(u) => {
                    if u.code == UPDATE_ORDERS {
                        Some((u.fragmentation, u.data))
                    } else {
                        None
                    }
                },
                None => None,
            }
        },
    }
}

/// An order update under assembly: the bytes so far, and whether a first
/// fragment has been seen.
pub struct Assembly {
    pub buf: Seq<u8>,
    pub active: bool,
}

/// The assembly after a fragment, and the order stream that it completes.
pub open spec fn assemble(a: Assembly, frag: Fragmentation, data: Seq<u8>) -> (
    Assembly,
    Option<Seq<u8>>,
) {
    match frag {
        Fragmentation::Single => (a, Some(data)),
        Fragmentation::First => (Assembly { buf: data, active: true }, None),
        Fragmentation::Next => if a.active {
            (Assembly { buf: a.buf + data, active: true }, None)
        } else {
            (a, None)
        },
        Fragmentation::Last => if a.active {
            (Assembly { buf: Seq::empty(), active: false }, Some(a.buf + data))
        } else {
            (a, None)
        },
    }
}

/// Reassemble a possibly fragmented order update. Returns the complete order
/// stream once a single or last fragment arrives.
pub fn reassemble_orders(
    buf: &mut Vec<u8>,
    active: &mut bool,
    frag: Fragmentation,
    data: Vec<u8>,
) -> (r: Option<Vec<u8>>)
    ensures
        ({
            let (next, out) = assemble(Assembly { buf: old(buf)@, active: *old(active) }, frag, data@);
            &&& final(buf)@ == next.buf
            &&& *final(active) == next.active
            &&& match r {
                Some(v) => out == Some(v@),
                None => out is None,
            }
        }),
{
    match frag {
        Fragmentation::Single => Some(data),
        Fragmentation::First => {
            *buf = data;
            *active = true;
            None
        },
        Fragmentation::Next => {
            if *active {
                push_slice(buf, data.as_slice());
            }
            None
        },
        Fragmentation::Last => {
            if *active {
                push_slice(buf, data.as_slice());
                *active = false;
                let mut out: Vec<u8> = Vec::new();
                std::mem::swap(&mut out, buf);
                Some(out)
            } else {
                None
            }
        },
    }
}

/// The assembly after a run of middle fragments.
pub open spec fn assemble_all(a: Assembly, middle: Seq<Seq<u8>>) -> Assembly
    decreases middle.len(),
{
    if middle.len() == 0 {
        a
    } else {
        assemble(assemble_all(a, middle.drop_last()), Fragmentation::Next, middle.last()).0
    }
}

/// A first fragment, any number of middle ones and a last one give back the bytes
/// of all of them in order, whatever was under assembly before; and no bytes stay
/// behind.
pub proof fn law_fragments_join(a: Assembly, first: Seq<u8>, middle: Seq<Seq<u8>>, last: Seq<u8>)
    ensures
        ({
            let begun = assemble(a, Fragmentation::First, first).0;
            let end = assemble(assemble_all(begun, middle), Fragmentation::Last, last);
            &&& end.1 == Some(first + middle.flatten() + last)
            &&& end.0 == (Assembly { buf: Seq::empty(), active: false })
        }),
{
    let begun = assemble(a, Fragmentation::First, first).0;
    lemma_assemble_all(begun, middle);
    assert(begun.buf + middle.flatten() + last =~= first + middle.flatten() + last);
}

proof fn lemma_assemble_all(a: Assembly, middle: Seq<Seq<u8>>)
    requires
        a.active,
    ensures
        assemble_all(a, middle).active,
        assemble_all(a, middle).buf == a.buf + middle.flatten(),
    decreases middle.len(),
{
    if middle.len() == 0 {
        assert(middle =~= Seq::empty());
        assert(middle.flatten() =~= Seq::empty());
        assert(a.buf + middle.flatten() =~= a.buf);
    } else {
        let rest = middle.drop_last();
        lemma_assemble_all(a, rest);
        middle.lemma_flatten_and_flatten_alt_are_equivalent();
        rest.lemma_flatten_and_flatten_alt_are_equivalent();
        assert(middle.flatten_alt() == rest.flatten_alt() + middle.last());
        assert(a.buf + middle.flatten() =~= a.buf + rest.flatten() + middle.last());
    }
}

/// Middle and last fragments that no first one precedes change nothing and
/// complete nothing; an unsplit update comes through at once and does not disturb
/// what is under assembly.
pub proof fn law_stray_fragments_are_ignored(a: Assembly, data: Seq<u8>)
    ensures
        !a.active ==> assemble(a, Fragmentation::Next, data) == (a, None::<Seq<u8>>),
        !a.active ==> assemble(a, Fragmentation::Last, data) == (a, None::<Seq<u8>>),
        assemble(a, Fragmentation::Single, data) == (a, Some(data)),
{
}

/// A rebuilt drawing-order update is found again with its fragmentation and its
/// plaintext. Left out are the sizes at which the length of the PDU, cut to 15
/// bits, is less than that of its header.
pub proof fn law_rebuilt_orders_are_found(fph: u8, header: u8, plain: Seq<u8>)
    requires
        plain.len() <= 0xFFFF,
        header % 0x10 == UPDATE_ORDERS,
        (plain.len() + 6) % 0x8000 >= 3,
    ensures
        orders_in(fast_path_frame(fph, plain_update((header % 0x40) as u8, plain))) == Some(
            (fragmentation_of(header), plain),
        ),
{
    let h = (header % 0x40) as u8;
    let body = plain_update(h, plain);
    let frame = fast_path_frame(fph, body);
    let n = header_end(frame).unwrap();
    let size = plain.len() as u16;
    lemma_bytes16(size);
    assert(body.len() == 3 + plain.len());
    assert(n == if 2 + body.len() < 0x80 { 2int } else { 3int });
    assert(frame.skip(n as int) =~= body);
    assert(body[1] == bytes16(size)[0]);
    assert(body[2] == bytes16(size)[1]);
    assert(body.subrange(3, 3 + plain.len() as int) =~= plain);
}

} // verus!
