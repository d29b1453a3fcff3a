//! Frames out of a byte stream (TCP/2701).

use crate::protocol::error::{is_io, is_protocol, Error};
use crate::protocol::framing::{data_frame, header_of, parse_header, MsgHeader, MSG_TYPE_DATA};
use crate::text::{decimal, push_decimal, push_text};
use crate::wire::{bytes32, bytes32_be, lemma_bytes32, push_slice, push_u32_be};
use vstd::prelude::*;

verus! {

/// A complete SCCM RC message: its type byte + body bytes (header stripped).
#[derive(Debug, Clone)]
pub struct Frame {
    pub msg_type: u8,
    pub body: Vec<u8>,
}

/// Standard SCCM Remote Control listening port on the target's CcmExec service.
pub const SCCM_RC_PORT: u16 = 2701;

/// The largest frame body that is believed.
pub const MAX_FRAME_BODY: usize = 8388608;

/// The largest blob that is believed.
pub const MAX_BLOB: usize = 1048576;

/// What a receive buffer holds at its front.
pub enum Front {
    /// Not yet a whole frame.
    Incomplete,
    /// A frame of the given type and body.
    Whole(u8, Seq<u8>),
    /// A header that announces more than is believed.
    Oversized(nat),
}

/// The front of the received bytes.
pub open spec fn front(rx: Seq<u8>) -> Front {
    match header_of(rx) {
        None => Front::Incomplete,
        Some(h) => if h.body_len > MAX_FRAME_BODY {
            Front::Oversized(h.body_len as nat)
        } else if rx.len() < 4 + h.body_len {
            Front::Incomplete
        } else {
            Front::Whole(h.msg_type, rx.subrange(4, 4 + h.body_len))
        },
    }
}

/// The bytes behind the frame at the front.
pub open spec fn behind(rx: Seq<u8>) -> Seq<u8> {
    match front(rx) {
        Front::Whole(_, body) => rx.skip(4 + body.len() as int),
        _ => rx,
    }
}

pub open spec fn oversized_text(what: Seq<char>, n: nat) -> Seq<char> {
    "implausibly-large "@ + what + ": "@ + decimal(n) + " bytes"@
}

fn oversized(what: &str, n: usize) -> (e: Error)
    ensures
        is_protocol(e, oversized_text(what@, n as nat)),
{
    let mut s = String::new();
    push_text(&mut s, "implausibly-large ");
    push_text(&mut s, what);
    push_text(&mut s, ": ");
    push_decimal(&mut s, n as u64);
    push_text(&mut s, " bytes");
    assert(s@ =~= oversized_text(what@, n as nat));
    Error::Protocol(s)
}

/// Received bytes that have not been handed out yet. Whole frames are taken out
/// of it; it is topped up with whatever arrives. A receive that is given up
/// half-way loses nothing: what arrived stays here.
pub struct FrameBuffer {
    rx: Vec<u8>,
}

impl View for FrameBuffer {
    type V = Seq<u8>;

    closed spec fn view(&self) -> Seq<u8> {
        self.rx@
    }
}

impl FrameBuffer {
    pub fn new() -> (r: Self)
        ensures
            r@ == Seq::<u8>::empty(),
    {
        FrameBuffer { rx: Vec::new() }
    }

    pub fn is_empty(&self) -> (r: bool)
        ensures
            r == (self@.len() == 0),
    {
        self.rx.is_empty()
    }

    /// Add received bytes.
    pub fn feed(&mut self, bytes: &[u8])
        ensures
            final(self)@ == old(self)@ + bytes@,
    {
        push_slice(&mut self.rx, bytes);
    }

    /// Take one whole frame out, if one is there. Nothing else is removed.
    pub fn take_frame(&mut self) -> (r: Result<Option<Frame>, Error>)
        ensures
            final(self)@ == behind(old(self)@),
            match r {
                Ok(Some(f)) => front(old(self)@) == Front::Whole(f.msg_type, f.body@),
                Ok(None) => front(old(self)@) == Front::Incomplete,
                Err(e) => front(old(self)@) matches Front::Oversized(n) && is_protocol(
                    e,
                    oversized_text("frame body"@, n),
                ),
            },
    {
        let h: MsgHeader = match parse_header(self.rx.as_slice()) {
            Some(h) => h,
            None => return Ok(None),
        };
        if h.body_len > MAX_FRAME_BODY {
            return Err(oversized("frame body", h.body_len));
        }
        let total: usize = 4 + h.body_len;
        if self.rx.len() < total {
            return Ok(None);
        }
        let ghost before = self.rx@;
        let rest: Vec<u8> = self.rx.split_off(total);
        let body: &[u8] = vstd::slice::slice_subrange(self.rx.as_slice(), 4, total);
        let frame = Frame { msg_type: h.msg_type, body: vstd::slice::slice_to_vec(body) };
        assert(frame.body@ =~= before.subrange(4, total as int));
        assert(rest@ =~= before.skip(total as int));
        self.rx = rest;
        Ok(Some(frame))
    }

    /// What the end of the stream means: fine between frames, an error inside
    /// one.
    pub fn at_end(&self) -> (r: Result<(), Error>)
        ensures
            match r {
                Ok(()) => self@.len() == 0,
                Err(e) => self@.len() > 0 && is_io(e, "connection closed mid-frame"@),
            },
    {
        if self.rx.is_empty() {
            Ok(())
        } else {
            Err(Error::Io(String::from_str("connection closed mid-frame")))
        }
    }
}

/// However the bytes arrive, the same frames come out: a frame that is whole
/// stays the one at the front when more bytes follow, and those bytes stay
/// behind it.
pub proof fn law_frames_do_not_depend_on_chunks(rx: Seq<u8>, more: Seq<u8>)
    requires
        !(front(rx) is Incomplete),
    ensures
        front(rx + more) == front(rx),
        front(rx) is Whole ==> behind(rx + more) == behind(rx) + more,
{
    let all = rx + more;
    assert(all[0] == rx[0] && all[1] == rx[1] && all[2] == rx[2] && all[3] == rx[3]);
    match front(rx) {
        Front::Whole(_, body) => {
            let n = body.len() as int;
            assert(all.subrange(4, 4 + n) =~= rx.subrange(4, 4 + n));
            assert(all.skip(4 + body.len() as int) =~= rx.skip(4 + body.len() as int) + more);
        },
        _ => {},
    }
}

/// No byte is lost or made up: header and body of the frame and what is behind
/// it are all that was received.
pub proof fn law_frames_keep_every_byte(rx: Seq<u8>)
    ensures
        front(rx) matches Front::Whole(_, body) ==> rx == rx.take(4) + body + behind(rx),
{
    match front(rx) {
        Front::Whole(_, body) => {
            assert(rx =~= rx.take(4) + body + behind(rx));
        },
        _ => {},
    }
}

/// A data frame arrives as it was sent, whatever follows it.
pub proof fn law_data_frames_arrive(body: Seq<u8>, rest: Seq<u8>)
    requires
        body.len() <= MAX_FRAME_BODY,
    ensures
        front(data_frame(body) + rest) == Front::Whole(MSG_TYPE_DATA, body),
        behind(data_frame(body) + rest) == rest,
{
    let n = body.len() as u32;
    let rx = data_frame(body) + rest;
    lemma_bytes32(n);
    assert(forall|i: int| 0 <= i < 4 ==> rx[i] == bytes32(n)[i]);
    assert(rx.subrange(4, 4 + n) =~= body);
    assert(rx.skip(4 + n) =~= rest);
}

/// A length-prefixed blob: the length in four bytes, highest first, then the
/// bytes.
pub fn encode_blob(payload: &[u8]) -> (v: Vec<u8>)
    ensures
        v@ == bytes32_be(payload@.len() as u32) + payload@,
{
    let mut v: Vec<u8> = Vec::new();
    push_u32_be(&mut v, payload.len() as u32);
    push_slice(&mut v, payload);
    assert(v@ =~= bytes32_be(payload@.len() as u32) + payload@);
    v
}

/// The length that a blob's prefix announces.
pub open spec fn blob_len(b: [u8; 4]) -> int {
    0x1000000 * b[0] + 0x10000 * b[1] + 0x100 * b[2] + b[3]
}

/// Read a blob's length prefix; a length beyond a mebibyte is an error.
pub fn blob_length(prefix: [u8; 4]) -> (r: Result<usize, Error>)
    ensures
        match r {
            Ok(n) => n == blob_len(prefix) && n <= MAX_BLOB,
            Err(e) => blob_len(prefix) > MAX_BLOB && is_protocol(
                e,
                oversized_text("blob length"@, blob_len(prefix) as nat),
            ),
        },
{
    let n: u32 = 0x1000000 * prefix[0] as u32 + 0x10000 * prefix[1] as u32 + 0x100 * prefix[2]
        as u32 + prefix[3] as u32;
    if n as usize > MAX_BLOB {
        return Err(oversized("blob length", n as usize));
    }
    Ok(n as usize)
}

/// The prefix of a blob announces its length.
pub proof fn law_blobs_announce_their_length(payload: Seq<u8>, prefix: [u8; 4])
    requires
        payload.len() <= u32::MAX,
        prefix@ == (bytes32_be(payload.len() as u32) + payload).take(4),
    ensures
        blob_len(prefix) == payload.len(),
{
    let n = payload.len() as u32;
    let all = bytes32_be(n) + payload;
    lemma_bytes32(n);
    assert(forall|i: int| 0 <= i < 4 ==> prefix@[i] == all[i] && all[i] == bytes32_be(n)[i]);
}

} // verus!
