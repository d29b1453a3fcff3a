//! Probing a target by hand: ways to frame a first token, and what the decrypted
//! answers are.

pub mod laws;

use crate::session::{control_payload, decode_control_utf16, printable};
use crate::text::parse::{digit_of, digit_value};
use crate::text::{
    chars_of, decode_utf16_lossy, starts_with, trim_trailing_nulls, utf16_lossy,
    without_trailing_nulls,
};
use crate::wire::{
    bytes16, bytes32, bytes32_be, le16_at, push_slice, push_u16, push_u32, push_u32_be, u16_at,
};
use vstd::prelude::*;
use vstd::slice::slice_subrange;

verus! {

/// Why a hexadecimal byte is none.
#[derive(Debug, Clone, Copy, PartialEq, Eq, Structural)]
pub enum HexError {
    Empty,
    InvalidDigit,
    TooLarge,
}

impl HexError {
    pub open spec fn text(self) -> Seq<char> {
        match self {
            HexError::Empty => "cannot parse integer from empty string"@,
            HexError::InvalidDigit => "invalid digit found in string"@,
            HexError::TooLarge => "number too large to fit in target type"@,
        }
    }

    /// The reason as a line of text.
    pub fn message(&self) -> (r: String)
        ensures
            r@ == self.text(),
    {
        match self {
            HexError::Empty => String::from_str("cannot parse integer from empty string"),
            HexError::InvalidDigit => String::from_str("invalid digit found in string"),
            HexError::TooLarge => String::from_str("number too large to fit in target type"),
        }
    }
}

/// `s` without any number of `0x` in front.
pub open spec fn without_prefix(s: Seq<char>) -> Seq<char>
    decreases s.len(),
{
    if s.len() >= 2 && s[0] == '0' && s[1] == 'x' {
        without_prefix(s.skip(2))
    } else {
        s
    }
}

/// The byte that the digits of `s` from `i` on complete, `v` being the value so
/// far. The first digit that is none, or that makes the value too large, decides.
pub open spec fn byte_from(s: Seq<char>, i: int, v: nat) -> Result<u8, HexError>
    decreases s.len() - i,
{
    if i < 0 || i >= s.len() {
        Ok(v as u8)
    } else {
        match digit_value(s[i]) {
            None => Err(HexError::InvalidDigit),
            Some(d) => if v * 16 + d > 255 {
                Err(HexError::TooLarge)
            } else {
                byte_from(s, i + 1, v * 16 + d)
            },
        }
    }
}

/// The byte that a text writes in hexadecimal, with or without `0x` or a plus in
/// front.
pub open spec fn hex_byte(s: Seq<char>) -> Result<u8, HexError> {
    let t = without_prefix(s);
    if t.len() == 0 {
        Err(HexError::Empty)
    } else if t[0] == '+' && t.len() > 1 {
        byte_from(t, 1, 0)
    } else {
        byte_from(t, 0, 0)
    }
}

/// Parse a byte in hexadecimal.
pub fn parse_hex_u8(s: &str) -> (r: Result<u8, HexError>)
    ensures
        r == hex_byte(s@),
{
    let chars: Vec<char> = chars_of(s);
    let mut from: usize = 0;
    assert(s@.skip(0) =~= s@);
    while chars.len() - from >= 2 && chars[from] == '0' && chars[from + 1] == 'x'
        invariant
            chars@ == s@,
            from <= chars@.len(),
            chars.len() == chars@.len(),
            without_prefix(s@) == without_prefix(s@.skip(from as int)),
        decreases chars@.len() - from,
    {
        from = from + 2;
        assert(s@.skip(from - 2).skip(2) =~= s@.skip(from as int));
    }
    let ghost t = without_prefix(s@);
    assert(t == s@.skip(from as int));
    if from == chars.len() {
        return Err(HexError::Empty);
    }
    let mut i: usize = from;
    if chars[from] == '+' && chars.len() - from > 1 {
        i = from + 1;
    }
    let mut v: u8 = 0;
    while i < chars.len()
        invariant
            chars@ == s@,
            from <= i <= chars@.len(),
            t == s@.skip(from as int),
            t == without_prefix(s@),
            hex_byte(s@) == byte_from(t, i - from, v as nat),
        decreases chars@.len() - i,
    {
        assert(t[i - from] == chars@[i as int]);
        match digit_of(chars[i]) {
            None => {
                return Err(HexError::InvalidDigit);
            },
            Some(d) => {
                let w: u16 = v as u16 * 16 + d as u16;
                if w > 255 {
                    return Err(HexError::TooLarge);
                }
                v = w as u8;
            },
        }
        i = i + 1;
    }
    Ok(v)
}

/// How a token is framed.
#[derive(Debug, Clone, Copy, PartialEq, Eq, Structural)]
pub enum ProbeFraming {
    /// Not at all.
    Raw,
    /// Behind its length in four bytes, highest first.
    Be32,
    /// Behind its length in four bytes, lowest first.
    Le32,
    /// As the body of a frame of this type.
    Frame(u8),
    /// As the body of a frame of this type, behind its length in two bytes.
    InnerLength(u8),
}

/// The header of a frame: the length, and the type in the highest byte.
pub open spec fn frame_header(len: nat, msg_type: u8) -> u32 {
    (len as u32) | ((msg_type as u32) << 24)
}

/// The bytes that a probe sends.
pub open spec fn probe_of(framing: ProbeFraming, token: Seq<u8>) -> Seq<u8> {
    match framing {
        ProbeFraming::Raw => token,
        ProbeFraming::Be32 => bytes32_be(token.len() as u32) + token,
        ProbeFraming::Le32 => bytes32(token.len() as u32) + token,
        ProbeFraming::Frame(t) => bytes32(frame_header(token.len(), t)) + token,
        ProbeFraming::InnerLength(t) => bytes32(frame_header(2 + token.len(), t)) + bytes16(
            token.len() as u16,
        ) + token,
    }
}

/// The bytes that a probe sends.
pub fn probe_bytes(framing: ProbeFraming, token: &[u8]) -> (v: Vec<u8>)
    requires
        token@.len() + 2 <= usize::MAX,
    ensures
        v@ == probe_of(framing, token@),
{
    let mut v: Vec<u8> = Vec::new();
    match framing {
        ProbeFraming::Raw => {},
        ProbeFraming::Be32 => push_u32_be(&mut v, token.len() as u32),
        ProbeFraming::Le32 => push_u32(&mut v, token.len() as u32),
        ProbeFraming::Frame(t) => push_u32(&mut v, (token.len() as u32) | ((t as u32) << 24)),
        ProbeFraming::InnerLength(t) => {
            push_u32(&mut v, ((2 + token.len()) as u32) | ((t as u32) << 24));
            push_u16(&mut v, token.len() as u16);
        },
    }
    push_slice(&mut v, token);
    assert(v@ =~= probe_of(framing, token@));
    v
}

/// A minimal RDP X.224 Connection Request with an RDP Negotiation Request for
/// standard security.
pub open spec fn connection_request() -> Seq<u8> {
    seq![
        0x03u8, 0x00, 0x00, 0x13, 0x0e, 0xe0, 0x00, 0x00, 0x00, 0x00, 0x00, 0x01, 0x00, 0x08, 0x00, 0x00,
        0x00, 0x00, 0x00,
    ]
}

/// Build a minimal X.224 Connection Request.
pub fn x224_connection_request() -> (v: Vec<u8>)
    ensures
        v@ == connection_request(),
        v@.len() == v@[3],
{
    let v: Vec<u8> = vec![
        0x03, 0x00, 0x00, 0x13,  // TPKT, total 19
        0x0e,  // length of the rest of the header
        0xe0,  // connection request
        0x00, 0x00,  // destination
        0x00, 0x00,  // source
        0x00,  // class 0
        0x01, 0x00, 0x08, 0x00,  // negotiation request, 8 bytes
        0x00, 0x00, 0x00, 0x00,  // standard RDP security
    ];
    assert(v@ =~= connection_request());
    v
}

/// What the type byte of an X.224 TPDU says.
pub open spec fn tpdu_kind(b: u8) -> Seq<char> {
    let high = b / 0x10;
    if high == 0xd {
        "X.224 Connection Confirm"@
    } else if high == 0xe {
        "X.224 Connection Request"@
    } else if high == 0xf {
        "X.224 Data (RDP PDU)"@
    } else {
        "X.224 ?"@
    }
}

/// What the type byte of an X.224 TPDU says.
pub fn x224_kind(b: u8) -> (r: &'static str)
    ensures
        r@ == tpdu_kind(b),
{
    match b / 0x10 {
        0xd => "X.224 Connection Confirm",
        0xe => "X.224 Connection Request",
        0xf => "X.224 Data (RDP PDU)",
        _ => "X.224 ?",
    }
}

/// The whole UTF-16 units of bytes; a single byte at the end is dropped.
pub open spec fn whole_units(b: Seq<u8>) -> Seq<u16> {
    Seq::new(b.len() / 2, |i: int| le16_at(b, 2 * i))
}

/// Bytes read as text, trailing nulls dropped, if that is printable throughout.
pub open spec fn printable_text(b: Seq<u8>) -> Option<Seq<char>> {
    let text = without_trailing_nulls(utf16_lossy(whole_units(b)));
    if text.len() > 0 && (forall|i: int| 0 <= i < text.len() ==> printable(#[trigger] text[i])) {
        Some(text)
    } else {
        None
    }
}

/// The control text of a decrypted payload: as it is, or behind a length of two
/// bytes.
pub open spec fn maybe_control(plain: Seq<u8>) -> Option<Seq<char>> {
    match printable_text(plain) {
        Some(t) => Some(t),
        None => if plain.len() >= 2 {
            printable_text(plain.skip(2))
        } else {
            None
        },
    }
}

fn text_if_printable(b: &[u8]) -> (r: Option<String>)
    ensures
        match r {
            Some(s) => printable_text(b@) == Some(s@),
            None => printable_text(b@) is None,
        },
{
    let mut units: Vec<u16> = Vec::new();
    let mut i: usize = 0;
    while b.len() - i >= 2
        invariant
            b.len() == b@.len(),
            i <= b@.len(),
            i == 2 * units@.len(),
            forall|k: int| 0 <= k < units@.len() ==> units@[k] == le16_at(b@, 2 * k),
        decreases b@.len() - i,
    {
        units.push(u16_at(b, i));
        i = i + 2;
    }
    assert(units@ =~= whole_units(b@));
    let text = trim_trailing_nulls(decode_utf16_lossy(units.as_slice()).as_str());
    let chars: Vec<char> = chars_of(text.as_str());
    if chars.len() == 0 {
        return None;
    }
    let mut k: usize = 0;
    while k < chars.len()
        invariant
            chars@ == text@,
            text@ == without_trailing_nulls(utf16_lossy(whole_units(b@))),
            k <= chars@.len(),
            forall|j: int| 0 <= j < k ==> printable(#[trigger] text@[j]),
        decreases chars@.len() - k,
    {
        let c: char = chars[k];
        if !(c >= '!' && c <= '~') {
            assert(!printable(text@[k as int]));
            return None;
        }
        k = k + 1;
    }
    Some(text)
}

/// Decode a decrypted control payload: raw UTF-16LE, or the same behind a length.
pub fn decode_maybe_control(plain: &[u8]) -> (r: Option<String>)
    ensures
        match r {
            Some(s) => maybe_control(plain@) == Some(s@),
            None => maybe_control(plain@) is None,
        },
{
    if let Some(s) = text_if_printable(plain) {
        return Some(s);
    }
    if plain.len() < 2 {
        return None;
    }
    let rest: &[u8] = slice_subrange(plain, 2, plain.len());
    assert(rest@ =~= plain@.skip(2));
    text_if_printable(rest)
}

/// What a decrypted message is.
#[derive(Debug, Clone)]
pub enum Payload {
    /// A control message, with its text.
    Control(String),
    /// An RDP PDU: the length in its TPKT header, and what it is.
    Pdu { length: u16, kind: &'static str },
    /// Anything else.
    Binary,
}

/// A payload, its text as characters.
#[verifier::ext_equal]
pub enum PayloadView {
    Control(Seq<char>),
    Pdu { length: int, kind: Seq<char> },
    Binary,
}

impl View for Payload {
    type V = PayloadView;

    open spec fn view(&self) -> PayloadView {
        match *self {
            Payload::Control(s) => PayloadView::Control(s@),
            Payload::Pdu { length, kind } => PayloadView::Pdu { length: length as int, kind: kind@ },
            Payload::Binary => PayloadView::Binary,
        }
    }
}

/// Whether a message starts as a TPKT header does.
pub open spec fn is_tpkt(plain: Seq<u8>) -> bool {
    plain.len() >= 2 && plain[0] == 0x03 && plain[1] == 0x00
}

/// What a decrypted message is. A TPKT header holds the length in its third and fourth
/// byte, highest first; the sixth byte tells the PDU's kind, and is zero if missing.
pub open spec fn payload_of(plain: Seq<u8>) -> PayloadView {
    match control_payload(plain) {
        Some(s) => PayloadView::Control(s),
        None => if is_tpkt(plain) {
            PayloadView::Pdu {
                length: 0x100 * plain[2] + plain[3],
                kind: tpdu_kind(
                    if plain.len() > 5 {
                        plain[5]
                    } else {
                        0
                    },
                ),
            }
        } else {
            PayloadView::Binary
        },
    }
}

/// Tell control messages from RDP PDUs.
pub fn classify(plain: &[u8]) -> (r: Payload)
    requires
        is_tpkt(plain@) ==> plain@.len() >= 4,
    ensures
        r@ == payload_of(plain@),
{
    if let Some(s) = decode_control_utf16(plain) {
        return Payload::Control(s);
    }
    if plain.len() >= 2 && plain[0] == 0x03 && plain[1] == 0x00 {
        let length: u16 = 0x100 * plain[2] as u16 + plain[3] as u16;
        let kind = x224_kind(
            if plain.len() > 5 {
                plain[5]
            } else {
                0
            },
        );
        Payload::Pdu { length, kind }
    } else {
        Payload::Binary
    }
}

/// What to do about a message of the data phase.
#[derive(Debug, Clone, Copy, PartialEq, Eq, Structural)]
pub enum Explored {
    /// Access is granted: ask for an RDP connection.
    Request,
    /// Access is denied: stop.
    Stop,
    /// Take note of it.
    Note,
}

/// The first message of success is answered with a connection request; an error ends
/// the exploration.
pub open spec fn explored(p: PayloadView, requested: bool) -> Explored {
    match p {
        PayloadView::Control(s) => if "SUCCESS_"@.is_prefix_of(s) && !requested {
            Explored::Request
        } else if "ERROR_"@.is_prefix_of(s) {
            Explored::Stop
        } else {
            Explored::Note
        },
        _ => Explored::Note,
    }
}

/// What to do about a message; `requested` is whether a connection was asked for.
pub fn explore(p: &Payload, requested: bool) -> (r: Explored)
    ensures
        r == explored(p@, requested),
{
    match p {
        Payload::Control(s) => if starts_with(s.as_str(), "SUCCESS_") && !requested {
            Explored::Request
        } else if starts_with(s.as_str(), "ERROR_") {
            Explored::Stop
        } else {
            Explored::Note
        },
        _ => Explored::Note,
    }
}

/// Whether a sealing token is a Kerberos wrap token with the flags of the side that
/// began.
pub open spec fn from_initiator(token: Seq<u8>) -> bool {
    seq![0x05u8, 0x04, 0x06, 0xff].is_prefix_of(token)
}

/// Whether a sealing token has the form that a viewer's token has.
pub fn is_initiator_token(token: &[u8]) -> (r: bool)
    ensures
        r == from_initiator(token@),
{
    token.len() >= 4 && token[0] == 0x05 && token[1] == 0x04 && token[2] == 0x06 && token[3] == 0xff
}

} // verus!
