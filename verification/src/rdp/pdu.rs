//! PDUs in the byte stream of the session: where one ends, and the repair of the
//! capability set that a reactivating server sends too short.

use crate::protocol::error::{is_protocol, protocol_error_about, Error};
use crate::wire::{le16_at, push_slice, push_zeros, u16_at, zero_bytes};
use vstd::prelude::*;
use vstd::slice::slice_subrange;

verus! {

/// How a PDU is framed.
#[derive(Debug, Clone, Copy, PartialEq, Eq, Structural)]
pub enum Action {
    FastPath,
    X224,
}

/// The text of the error with which `ironrdp_pdu::find_size` refuses bytes.
pub uninterp spec fn find_size_error(bytes: Seq<u8>) -> Seq<char>;

/// The framing and the length of the PDU at the start of `b`: nothing yet where
/// too few bytes are there, or the text of an error. The low two bits of the
/// first byte tell the framing: 3 is TPKT, which must be version 3 and whose
/// length is the third and fourth byte, highest first; 0 is fast-path, whose
/// length is one byte, or 15 bits of two bytes.
pub open spec fn pdu_size(b: Seq<u8>) -> Result<Option<(Action, nat)>, Seq<char>> {
    if b.len() == 0 {
        Ok(None)
    } else if b[0] % 4 == 3 {
        if b.len() < 4 {
            Ok(None)
        } else if b[0] == 3 {
            Ok(Some((Action::X224, (0x100 * b[2] + b[3]) as nat)))
        } else {
            Err(find_size_error(b))
        }
    } else if b[0] % 4 == 0 {
        if b.len() < 2 {
            Ok(None)
        } else if b[1] < 0x80 {
            Ok(Some((Action::FastPath, b[1] as nat)))
        } else if b.len() < 3 {
            Ok(None)
        } else {
            Ok(Some((Action::FastPath, (0x100 * (b[1] - 0x80) + b[2]) as nat)))
        }
    } else {
        Err(find_size_error(b))
    }
}

/// `ironrdp_pdu::find_size`. Trusted: it gives what `pdu_size` says; the text of
/// its errors is a function of the bytes, of which nothing is said.
#[verifier::external_body]
fn find_size(bytes: &[u8]) -> (r: Result<Option<(Action, usize)>, String>)
    ensures
        match r {
            Ok(Some((a, n))) => pdu_size(bytes@) == Ok::<Option<(Action, nat)>, Seq<char>>(
                Some((a, n as nat)),
            ),
            Ok(None) => pdu_size(bytes@) == Ok::<Option<(Action, nat)>, Seq<char>>(None),
            Err(e) => pdu_size(bytes@) == Err::<Option<(Action, nat)>, Seq<char>>(e@) && e@
                == find_size_error(bytes@),
        },
{
    match ironrdp_pdu::find_size(bytes) {
        Ok(Some(info)) => Ok(Some((
            match info.action {
                ironrdp_pdu::Action::FastPath => Action::FastPath,
                ironrdp_pdu::Action::X224 => Action::X224,
            },
            info.length,
        ))),
        Ok(None) => Ok(None),
        Err(e) => Err(format!("{e}")),
    }
}

/// The complete PDU at the start of `b` with the bytes behind it, if all of it is
/// there.
pub open spec fn complete_pdu(b: Seq<u8>) -> Option<(Action, Seq<u8>, Seq<u8>)> {
    match pdu_size(b) {
        Ok(Some((a, n))) => if n <= b.len() {
            Some((a, b.take(n as int), b.skip(n as int)))
        } else {
            None
        },
        _ => None,
    }
}

/// Take the complete PDU at the start of the buffer, if there is one.
pub fn take_pdu(buf: &mut Vec<u8>) -> (r: Result<Option<(Action, Vec<u8>)>, Error>)
    ensures
        match r {
            Ok(Some((a, frame))) => complete_pdu(old(buf)@) == Some((a, frame@, final(buf)@)),
            Ok(None) => {
                &&& pdu_size(old(buf)@) is Ok
                &&& complete_pdu(old(buf)@) is None
                &&& final(buf)@ == old(buf)@
            },
            Err(e) => {
                &&& pdu_size(old(buf)@) matches Err(why)
                &&& is_protocol(e, "find_size: "@ + why)
                &&& final(buf)@ == old(buf)@
            },
        },
{
    match find_size(buf.as_slice()) {
        Ok(Some((action, n))) => {
            if n > buf.len() {
                return Ok(None);
            }
            let mut rest: Vec<u8> = buf.split_off(n);
            std::mem::swap(&mut rest, buf);
            assert(rest@ =~= old(buf)@.take(n as int));
            assert(buf@ =~= old(buf)@.skip(n as int));
            Ok(Some((action, rest)))
        },
        Ok(None) => Ok(None),
        Err(e) => Err(protocol_error_about("find_size: ", e.as_str())),
    }
}

/// A PDU does not depend on the bytes that arrive behind it, and none of the
/// bytes is lost: the PDU and the rest are the buffer.
pub proof fn law_pdu_does_not_depend_on_later_bytes(b: Seq<u8>, more: Seq<u8>)
    requires
        complete_pdu(b) is Some,
    ensures
        complete_pdu(b) matches Some((a, frame, rest)) && frame + rest == b && complete_pdu(
            b + more,
        ) == Some((a, frame, rest + more)),
{
    let (a, frame, rest) = complete_pdu(b).unwrap();
    let all = b + more;
    assert(frame + rest =~= b);
    assert(all[0] == b[0]);
    assert(b.len() >= 2 ==> all[1] == b[1]);
    assert(b.len() >= 3 ==> all[2] == b[2]);
    assert(b.len() >= 4 ==> all[3] == b[3]);
    assert(all.take(frame.len() as int) =~= frame);
    assert(all.skip(frame.len() as int) =~= rest + more);
}

/// The capability set type of the second bitmap cache revision.
pub const REV2_TYPE: u16 = 0x13;

/// The length of a complete such set, header included.
pub const REV2_LEN: usize = 40;

/// Where the user data of an MCS Send-Data-Indication starts: behind a length of
/// one byte, or two where its top bit is set.
pub open spec fn user_data(f: Seq<u8>) -> int {
    if f[13] >= 0x80 {
        15
    } else {
        14
    }
}

/// Whether a frame carries an MCS Send-Data-Indication in a TPKT.
pub open spec fn is_indication(f: Seq<u8>) -> bool {
    f.len() >= 15 && f[0] == 3 && f[7] == 0x68
}

/// Whether the share control header says Demand Active.
pub open spec fn is_demand_active(f: Seq<u8>) -> bool {
    is_indication(f) && f[user_data(f) + 2] % 0x10 == 1
}

/// Where the number of capability sets stands, behind the source descriptor.
pub open spec fn caps_count_at(f: Seq<u8>) -> int {
    user_data(f) + 14 + le16_at(f, user_data(f) + 10)
}

/// The first short set among `n` capability sets from `p` on.
pub open spec fn short_cap(f: Seq<u8>, p: int, n: nat) -> Option<int>
    decreases n,
{
    if n == 0 || p + 4 > f.len() {
        None
    } else if le16_at(f, p) == REV2_TYPE && le16_at(f, p + 2) < REV2_LEN {
        Some(p)
    } else {
        short_cap(f, p + le16_at(f, p + 2), (n - 1) as nat)
    }
}

/// The first short set of a Demand Active.
pub open spec fn short_rev2(f: Seq<u8>) -> Option<int> {
    if is_demand_active(f) {
        short_cap(f, caps_count_at(f) + 4, le16_at(f, caps_count_at(f)) as nat)
    } else {
        None
    }
}

/// How many bytes the set at `p` lacks.
pub open spec fn missing(f: Seq<u8>, p: int) -> int {
    REV2_LEN - le16_at(f, p + 2)
}

/// The big-endian number at `i`.
pub open spec fn be16_at(f: Seq<u8>, i: int) -> int {
    0x100 * f[i] + f[i + 1]
}

/// The length of the MCS user data: one byte, or two of which the top bit is set.
pub open spec fn mcs_len(f: Seq<u8>) -> int {
    if f[13] >= 0x80 {
        be16_at(f, 13) - 0x8000
    } else {
        f[13] as int
    }
}

/// How many bytes the MCS length takes more once it encloses the complete set: one,
/// where it took one byte and no longer fits.
pub open spec fn widening(f: Seq<u8>, p: int) -> int {
    if f[13] < 0x80 && f[13] + missing(f, p) >= 0x80 {
        1
    } else {
        0
    }
}

/// Whether a frame can be examined: the headers that it announces are there, and
/// so is the body of the short set; and no length field overflows when it grows.
pub open spec fn rev2_readable(f: Seq<u8>) -> bool {
    is_indication(f) ==> {
        &&& user_data(f) + 4 <= f.len()
        &&& is_demand_active(f) ==> {
            &&& user_data(f) + 12 <= f.len()
            &&& caps_count_at(f) + 2 <= f.len()
            &&& short_rev2(f) matches Some(p) ==> {
                &&& p + le16_at(f, p + 2) <= f.len()
                &&& le16_at(f, user_data(f)) + missing(f, p) <= 0xFFFF
                &&& le16_at(f, user_data(f) + 12) + missing(f, p) <= 0xFFFF
                &&& be16_at(f, 2) + missing(f, p) + widening(f, p) <= 0xFFFF
            }
        }
    }
}

/// A little-endian number put at `i`.
#[verifier::opaque]
pub open spec fn with_le16(f: Seq<u8>, i: int, x: int) -> Seq<u8> {
    f.update(i, (x % 0x100) as u8).update(i + 1, (x / 0x100) as u8)
}

/// A big-endian number put at `i`.
#[verifier::opaque]
pub open spec fn with_be16(f: Seq<u8>, i: int, x: int) -> Seq<u8> {
    f.update(i, (x / 0x100) as u8).update(i + 1, (x % 0x100) as u8)
}

/// The frame `out`, all of whose other bytes are in place, with the MCS length of `f`
/// grown by what the set at `p` lacks. A length of two bytes has fifteen bits.
pub open spec fn with_mcs_len(f: Seq<u8>, p: int, out: Seq<u8>) -> Seq<u8> {
    let n = mcs_len(f) + missing(f, p);
    if f[13] >= 0x80 {
        with_be16(out, 13, 0x8000 + n % 0x8000)
    } else if n < 0x80 {
        out.update(13, n as u8)
    } else {
        with_be16(out.insert(13, 0), 13, 0x8000 + n)
    }
}

/// The frame with the set at `p` padded with zeros to its full length, and every
/// enclosing length grown by as much: the set's own, that of all capability sets,
/// of the share control PDU, of the MCS user data, and of the TPKT. Where the MCS
/// length takes a second byte for it, the TPKT grows by that byte too.
pub open spec fn padded_at(f: Seq<u8>, p: int) -> Seq<u8> {
    let pad = missing(f, p);
    let sc = user_data(f);
    let end = p + le16_at(f, p + 2);
    let grown = f.take(end) + zero_bytes(pad as nat) + f.skip(end);
    let a = with_le16(grown, p + 2, REV2_LEN as int);
    let b = with_le16(a, sc + 12, le16_at(f, sc + 12) + pad);
    let c = with_le16(b, sc, le16_at(f, sc) + pad);
    let d = with_mcs_len(f, p, c);
    with_be16(d, 2, be16_at(f, 2) + pad + widening(f, p))
}

fn find_short_cap(frame: &[u8], first: usize, n: usize) -> (r: Option<usize>)
    ensures
        match r {
            Some(p) => {
                &&& short_cap(frame@, first as int, n as nat) == Some(p as int)
                &&& first <= p
                &&& p + 4 <= frame@.len()
                &&& le16_at(frame@, p + 2) < REV2_LEN
            },
            None => short_cap(frame@, first as int, n as nat) is None,
        },
{
    assert(frame.len() == frame@.len());
    let mut p: usize = first;
    let mut k: usize = 0;
    while k < n
        invariant
            k <= n,
            first <= p,
            frame.len() == frame@.len(),
            short_cap(frame@, first as int, n as nat) == short_cap(
                frame@,
                p as int,
                (n - k) as nat,
            ),
        decreases n - k,
    {
        if p > frame.len() || frame.len() - p < 4 {
            return None;
        }
        let kind: u16 = u16_at(frame, p);
        let len: usize = u16_at(frame, p + 2) as usize;
        if kind == REV2_TYPE && len < REV2_LEN {
            return Some(p);
        }
        if len > frame.len() - p {
            assert(short_cap(frame@, p + len, (n - k - 1) as nat) is None);
            return None;
        }
        p = p + len;
        k = k + 1;
    }
    None
}

/// Whether `fix_short_bitmap_cache_rev2` can examine a frame.
pub fn can_examine(frame: &[u8]) -> (r: bool)
    ensures
        r == rev2_readable(frame@),
{
    assert(frame.len() == frame@.len());
    if frame.len() < 15 || frame[0] != 0x03 || frame[7] != 0x68 {
        return true;
    }
    let sc: usize = if frame[13] >= 0x80 {
        15
    } else {
        14
    };
    if frame.len() - sc < 4 {
        return false;
    }
    if frame[sc + 2] % 0x10 != 1 {
        return true;
    }
    if frame.len() - sc < 12 {
        return false;
    }
    let source: usize = u16_at(frame, sc + 10) as usize;
    let count_at: usize = sc + 14 + source;
    if count_at > frame.len() || frame.len() - count_at < 2 {
        return false;
    }
    if frame.len() - count_at < 4 {
        assert(short_cap(frame@, count_at + 4, le16_at(frame@, count_at as int) as nat) is None);
        return true;
    }
    match find_short_cap(frame, count_at + 4, u16_at(frame, count_at) as usize) {
        None => true,
        Some(p) => {
            let len: usize = u16_at(frame, p + 2) as usize;
            let pad: u32 = (REV2_LEN - len) as u32;
            let wider: u32 = if frame[13] < 0x80 && frame[13] as u32 + pad >= 0x80 {
                1
            } else {
                0
            };
            len <= frame.len() - p && u16_at(frame, sc) as u32 + pad <= 0xFFFF && u16_at(
                frame,
                sc + 12,
            ) as u32 + pad <= 0xFFFF && 0x100 * frame[2] as u32 + frame[3] as u32 + pad + wider
                <= 0xFFFF
        },
    }
}

fn put_le16(v: &mut Vec<u8>, i: usize, x: u16)
    requires
        i + 2 <= old(v)@.len(),
    ensures
        final(v)@ == with_le16(old(v)@, i as int, x as int),
        final(v)@.len() == old(v)@.len(),
{
    proof {
        reveal(with_le16);
    }
    assert(v.len() == v@.len());
    v.set(i, (x % 0x100) as u8);
    v.set(i + 1, (x / 0x100) as u8);
}

fn put_be16(v: &mut Vec<u8>, i: usize, x: u16)
    requires
        i + 2 <= old(v)@.len(),
    ensures
        final(v)@ == with_be16(old(v)@, i as int, x as int),
        final(v)@.len() == old(v)@.len(),
{
    proof {
        reveal(with_be16);
    }
    assert(v.len() == v@.len());
    v.set(i, (x / 0x100) as u8);
    v.set(i + 1, (x % 0x100) as u8);
}

/// The server's reactivating Demand Active carries a Bitmap Cache Rev2 capability
/// set that omits its trailing pad, which the decoder does not accept. Pad the
/// first such set with zeros and fix every enclosing length. None if there is
/// nothing to fix.
pub fn fix_short_bitmap_cache_rev2(frame: &[u8]) -> (r: Option<Vec<u8>>)
    requires
        rev2_readable(frame@),
    ensures
        match r {
            Some(out) => short_rev2(frame@) matches Some(p) && out@ == padded_at(frame@, p),
            None => short_rev2(frame@) is None,
        },
{
    assert(frame.len() == frame@.len());
    if frame.len() < 15 || frame[0] != 0x03 || frame[7] != 0x68 {
        return None;
    }
    let sc: usize = if frame[13] >= 0x80 {
        15
    } else {
        14
    };
    if frame[sc + 2] % 0x10 != 1 {
        return None;
    }
    let source: usize = u16_at(frame, sc + 10) as usize;
    let count_at: usize = sc + 14 + source;
    if frame.len() - count_at < 4 {
        assert(short_cap(frame@, count_at + 4, le16_at(frame@, count_at as int) as nat) is None);
        return None;
    }
    match find_short_cap(frame, count_at + 4, u16_at(frame, count_at) as usize) {
        None => None,
        Some(p) => {
            let len: usize = u16_at(frame, p + 2) as usize;
            let pad: usize = REV2_LEN - len;
            let mut out: Vec<u8> = Vec::new();
            push_slice(&mut out, slice_subrange(frame, 0, p + len));
            push_zeros(&mut out, pad);
            push_slice(&mut out, slice_subrange(frame, p + len, frame.len()));
            assert(out@ =~= frame@.take(p + len) + zero_bytes(pad as nat) + frame@.skip(p + len));
            put_le16(&mut out, p + 2, REV2_LEN as u16);
            put_le16(&mut out, sc + 12, u16_at(frame, sc + 12) + pad as u16);
            put_le16(&mut out, sc, u16_at(frame, sc) + pad as u16);
            let mut wider: u16 = 0;
            if frame[13] >= 0x80 {
                let mcs: u16 = 0x100 * (frame[13] - 0x80) as u16 + frame[14] as u16 + pad as u16;
                put_be16(&mut out, 13, 0x8000 + mcs % 0x8000);
            } else {
                let mcs: u16 = frame[13] as u16 + pad as u16;
                if mcs < 0x80 {
                    out.set(13, mcs as u8);
                } else {
                    out.insert(13, 0);
                    put_be16(&mut out, 13, 0x8000 + mcs);
                    wider = 1;
                }
            }
            put_be16(&mut out, 2, 0x100 * frame[2] as u16 + frame[3] as u16 + pad as u16 + wider);
            Some(out)
        },
    }
}

proof fn lemma_short_cap(f: Seq<u8>, first: int, n: nat)
    ensures
        short_cap(f, first, n) matches Some(p) ==> {
            &&& first <= p
            &&& p + 4 <= f.len()
            &&& le16_at(f, p) == REV2_TYPE
            &&& le16_at(f, p + 2) < REV2_LEN
        },
    decreases n,
{
    if n > 0 && first + 4 <= f.len() {
        lemma_short_cap(f, first + le16_at(f, first + 2), (n - 1) as nat);
    }
}

/// The repair grows each length that encloses the short set by what the set lacks,
/// gives the set its full length, fills it up with zeros and leaves every other byte as
/// it was. Where the MCS length needs a second byte, all that follows it moves by one,
/// and the TPKT and the frame grow by one more. Left out are sets whose length does not
/// even cover their own header.
pub proof fn law_repair_grows_every_length(f: Seq<u8>, p: int)
    requires
        rev2_readable(f),
        short_rev2(f) == Some(p),
        le16_at(f, p + 2) >= 4,
    ensures
        ({
            let out = padded_at(f, p);
            let pad = missing(f, p);
            let w = widening(f, p);
            let sc = user_data(f);
            let end = p + le16_at(f, p + 2);
            &&& out.len() == f.len() + pad + w
            &&& user_data(out) == sc + w
            &&& be16_at(out, 2) == be16_at(f, 2) + pad + w
            &&& le16_at(out, sc + w) == le16_at(f, sc) + pad
            &&& le16_at(out, sc + 12 + w) == le16_at(f, sc + 12) + pad
            &&& mcs_len(out) == (mcs_len(f) + pad) % 0x8000
            &&& le16_at(out, p + 2 + w) == REV2_LEN
            &&& forall|i: int| end <= i < end + pad ==> #[trigger] out[i + w] == 0
            &&& forall|i: int| end <= i < f.len() ==> out[i + pad + w] == #[trigger] f[i]
            &&& forall|i: int|
                0 <= i < end && !length_field(f, p, i) ==> out[if i < 13 {
                    i
                } else {
                    i + w
                }] == #[trigger] f[i]
        }),
{
    lemma_short_cap(f, caps_count_at(f) + 4, le16_at(f, caps_count_at(f)) as nat);
    let pad = missing(f, p);
    let w = widening(f, p);
    let sc = user_data(f);
    let end = p + le16_at(f, p + 2);
    let grown = f.take(end) + zero_bytes(pad as nat) + f.skip(end);
    lemma_grown(f, end, pad as nat);
    let a = with_le16(grown, p + 2, REV2_LEN as int);
    lemma_put_le16(grown, p + 2, REV2_LEN as int);
    let b = with_le16(a, sc + 12, le16_at(f, sc + 12) + pad);
    lemma_put_le16(a, sc + 12, le16_at(f, sc + 12) + pad);
    let c = with_le16(b, sc, le16_at(f, sc) + pad);
    lemma_put_le16(b, sc, le16_at(f, sc) + pad);
    let d = with_mcs_len(f, p, c);
    lemma_mcs_len(f, p, c);
    lemma_put_be16(d, 2, be16_at(f, 2) + pad + w);
    let out = padded_at(f, p);
    assert forall|i: int| sc <= i < c.len() implies #[trigger] out[i + w] == c[i] by {
        assert(d[i + w] == c[i]);
    }
    assert(out[sc + w] == c[sc] && out[sc + 1 + w] == c[sc + 1]);
    assert(out[sc + 12 + w] == c[sc + 12] && out[sc + 13 + w] == c[sc + 13]);
    assert(out[p + 2 + w] == c[p + 2] && out[p + 3 + w] == c[p + 3]);
    assert forall|i: int| end <= i < f.len() implies out[i + pad + w] == #[trigger] f[i] by {
        assert(grown[i + pad] == f[i]);
        assert(out[(i + pad) + w] == c[i + pad]);
    }
    assert forall|i: int| 0 <= i < end && !length_field(f, p, i) implies out[if i < 13 {
        i
    } else {
        i + w
    }] == #[trigger] f[i] by {
        assert(c[i] == f[i]);
        if i >= 13 {
            assert(out[i + w] == c[i]);
        }
    }
}

/// The MCS length that is put in is read back, and behind it nothing else changes.
proof fn lemma_mcs_len(f: Seq<u8>, p: int, c: Seq<u8>)
    requires
        c.len() >= 15,
        f[13] >= 0x80 ==> c.len() >= 16,
        0 <= missing(f, p) <= REV2_LEN,
    ensures
        ({
            let out = with_mcs_len(f, p, c);
            let w = widening(f, p);
            &&& out.len() == c.len() + w
            &&& user_data(out) == user_data(f) + w
            &&& mcs_len(out) == (mcs_len(f) + missing(f, p)) % 0x8000
            &&& forall|i: int| 0 <= i < 13 ==> #[trigger] out[i] == c[i]
            &&& forall|i: int| user_data(f) <= i < c.len() ==> out[i + w] == #[trigger] c[i]
        }),
{
    let n = mcs_len(f) + missing(f, p);
    if f[13] >= 0x80 {
        lemma_put_be16(c, 13, 0x8000 + n % 0x8000);
    } else if n >= 0x80 {
        lemma_put_be16(c.insert(13, 0), 13, 0x8000 + n);
    }
}

/// Bytes put in at `end` shift what follows and leave the rest alone.
proof fn lemma_grown(f: Seq<u8>, end: int, pad: nat)
    requires
        0 <= end <= f.len(),
    ensures
        ({
            let out = f.take(end) + zero_bytes(pad) + f.skip(end);
            &&& out.len() == f.len() + pad
            &&& forall|i: int| 0 <= i < end ==> #[trigger] out[i] == f[i]
            &&& forall|i: int| end <= i < end + pad ==> #[trigger] out[i] == 0
            &&& forall|i: int| end + pad <= i < out.len() ==> #[trigger] out[i] == f[i - pad]
        }),
{
}

/// A number that is put in is read back, and no other byte changes.
proof fn lemma_put_le16(f: Seq<u8>, i: int, x: int)
    requires
        0 <= i,
        i + 2 <= f.len(),
        0 <= x <= 0xFFFF,
    ensures
        with_le16(f, i, x).len() == f.len(),
        le16_at(with_le16(f, i, x), i) == x,
        forall|j: int|
            0 <= j < f.len() && j != i && j != i + 1 ==> #[trigger] with_le16(f, i, x)[j] == f[j],
{
    reveal(with_le16);
}

proof fn lemma_put_be16(f: Seq<u8>, i: int, x: int)
    requires
        0 <= i,
        i + 2 <= f.len(),
        0 <= x <= 0xFFFF,
    ensures
        with_be16(f, i, x).len() == f.len(),
        be16_at(with_be16(f, i, x), i) == x,
        forall|j: int|
            0 <= j < f.len() && j != i && j != i + 1 ==> #[trigger] with_be16(f, i, x)[j] == f[j],
{
    reveal(with_be16);
}

/// Whether byte `i` belongs to a length field that the repair writes.
pub open spec fn length_field(f: Seq<u8>, p: int, i: int) -> bool {
    ||| 2 <= i < 4
    ||| 13 <= i < user_data(f)
    ||| user_data(f) <= i < user_data(f) + 2
    ||| user_data(f) + 12 <= i < user_data(f) + 14
    ||| p + 2 <= i < p + 4
}

} // verus!
