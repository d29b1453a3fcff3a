//! SCCM RC message framing.
//!
//! Wire format:
//! ```text
//!   [u32 LE header] [body...]
//!   header: low 24 bits = body length, high byte = message type
//! ```
//! Message types:
//! - 0x80 = control: body is `[u16 LE strlen][UTF-16LE string][00 00]`
//! - 0x00 = data/SSPI: during the handshake the body is
//!   `[u16 LE token_len][SSPI token]`, afterwards the sealed chunk

use crate::text::{
    decode_utf16_lossy, trim_trailing_nulls, utf16_lossy, without_trailing_nulls,
};
use crate::wire::{
    bytes16, bytes32, le16_at, lemma_bytes32, push_slice, push_u16, push_u32, u16_at, units_of_bytes,
    units_padded,
};
use vstd::prelude::*;

verus! {

pub const MSG_TYPE_DATA: u8 = 0x00;

pub const MSG_TYPE_CONTROL: u8 = 0x80;

/// A frame of type data: the header, then the body.
pub open spec fn data_frame(body: Seq<u8>) -> Seq<u8> {
    bytes32(body.len() as u32) + body
}

/// A handshake message: a data frame whose body is the length-prefixed token.
pub open spec fn handshake_message(token: Seq<u8>) -> Seq<u8> {
    data_frame(bytes16(token.len() as u16) + token)
}

/// The message type and the body length that the first four bytes announce.
pub open spec fn header_of(bytes: Seq<u8>) -> Option<MsgHeader> {
    if bytes.len() < 4 {
        None
    } else {
        Some(
            MsgHeader {
                msg_type: bytes[3],
                body_len: (bytes[0] + 0x100 * bytes[1] + 0x10000 * bytes[2]) as usize,
            },
        )
    }
}

/// The token inside a handshake body, if the body is as long as it says.
pub open spec fn token_of(body: Seq<u8>) -> Option<Seq<u8>> {
    if body.len() < 2 || 2 + le16_at(body, 0) > body.len() {
        None
    } else {
        Some(body.subrange(2, 2 + le16_at(body, 0)))
    }
}

/// The text inside a control body, if the body is as long as it says.
pub open spec fn control_text(body: Seq<u8>) -> Option<Seq<char>> {
    match token_of(body) {
        Some(b) => Some(without_trailing_nulls(utf16_lossy(units_padded(b)))),
        None => None,
    }
}

/// Parsed message header.
#[derive(Debug, Clone, Copy)]
pub struct MsgHeader {
    pub msg_type: u8,
    pub body_len: usize,
}

/// Wrap a body as a data frame.
pub fn encode_data_frame(body: &[u8]) -> (v: Vec<u8>)
    ensures
        v@ == data_frame(body@),
{
    let mut v: Vec<u8> = Vec::new();
    push_u32(&mut v, body.len() as u32);
    push_slice(&mut v, body);
    assert(v@ =~= data_frame(body@));
    v
}

/// Encode an SSPI handshake token as a complete on-wire message:
/// outer frame header + inner u16 length prefix + token.
pub fn encode_handshake_token(token: &[u8]) -> (v: Vec<u8>)
    requires
        token@.len() <= usize::MAX - 2,
    ensures
        v@ == handshake_message(token@),
{
    let mut v: Vec<u8> = Vec::new();
    push_u32(&mut v, (2 + token.len()) as u32);
    push_u16(&mut v, token.len() as u16);
    push_slice(&mut v, token);
    assert(v@ =~= handshake_message(token@));
    v
}

/// Parse the 4-byte frame header.
pub fn parse_header(bytes: &[u8]) -> (r: Option<MsgHeader>)
    ensures
        r == header_of(bytes@),
{
    if bytes.len() < 4 {
        return None;
    }
    Some(
        MsgHeader {
            msg_type: bytes[3],
            body_len: bytes[0] as usize + 0x100 * bytes[1] as usize + 0x10000 * bytes[2] as usize,
        },
    )
}

/// Extract the inner SSPI token from a handshake-message body
/// (`[u16 LE len][token]`).
pub fn decode_handshake_body(body: &[u8]) -> (r: Option<&[u8]>)
    ensures
        match r {
            Some(t) => token_of(body@) == Some(t@),
            None => token_of(body@) is None,
        },
{
    if body.len() < 2 {
        return None;
    }
    let inner_len: usize = u16_at(body, 0) as usize;
    if body.len() - 2 < inner_len {
        return None;
    }
    Some(vstd::slice::slice_subrange(body, 2, 2 + inner_len))
}

/// Decode a control message body (`[u16 LE strlen][UTF-16LE][00 00]`) to a String.
pub fn decode_control_string(body: &[u8]) -> (r: Option<String>)
    ensures
        match r {
            Some(s) => control_text(body@) == Some(s@),
            None => control_text(body@) is None,
        },
{
    match decode_handshake_body(body) {
        Some(b) => {
            let units: Vec<u16> = units_of_bytes(b);
            let text = decode_utf16_lossy(units.as_slice());
            Some(trim_trailing_nulls(text.as_str()))
        },
        None => None,
    }
}

/// A token that fits the 16-bit prefix comes back out of its message: the header
/// announces a data frame of the right length, and the body holds the token.
pub proof fn law_handshake_round_trip(token: Seq<u8>)
    requires
        token.len() <= 0xffff,
    ensures
        header_of(handshake_message(token)) == Some(
            MsgHeader { msg_type: MSG_TYPE_DATA, body_len: (2 + token.len()) as usize },
        ),
        handshake_message(token).len() == 4 + 2 + token.len(),
        token_of(handshake_message(token).skip(4)) == Some(token),
{
    let body = bytes16(token.len() as u16) + token;
    let wire = handshake_message(token);
    let n = body.len() as u32;
    lemma_bytes32(n);
    assert(forall|i: int| 0 <= i < 4 ==> wire[i] == bytes32(n)[i]);
    assert(wire.skip(4) =~= body);
    assert(body[0] == bytes16(token.len() as u16)[0]);
    assert(body[1] == bytes16(token.len() as u16)[1]);
    assert(body.subrange(2, body.len() as int) =~= token);
}

} // verus!
