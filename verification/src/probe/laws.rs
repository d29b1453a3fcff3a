//! What probes send, and what they make of answers.

use crate::probe::{
    byte_from, connection_request, frame_header, hex_byte, maybe_control, payload_of, probe_of,
    tpdu_kind, without_prefix, whole_units, HexError, PayloadView, ProbeFraming,
};
use crate::protocol::framing::{header_of, token_of};
use crate::session::laws::is_visible;
use crate::session::printable;
use crate::text::laws::{law_numbers_are_read_back, law_trailing_nulls};
use crate::text::parse::digit_value;
use crate::text::{in_base, law_utf16_round_trip, utf16, without_trailing_nulls};
use crate::wire::{
    bytes16, bytes32, bytes32_be, law_byte_order, le16_at, lemma_bytes32, lemma_unit_bytes,
    number16, number32, unit_bytes,
};
use vstd::prelude::*;

verus! {

/// The header of a frame is its length, with the type in the top byte.
pub proof fn law_probe_headers(len: nat, t: u8)
    requires
        len < 0x100_0000,
    ensures
        frame_header(len, t) == len + 0x100_0000 * t,
{
    let n = len as u32;
    assert(n | ((t as u32) << 24) == n + 0x100_0000 * t) by (bit_vector)
        requires
            n < 0x100_0000,
    ;
}

/// A framed token is read as a frame of its type; an inner length stands in front of it.
pub proof fn law_probes_are_frames(t: u8, token: Seq<u8>)
    requires
        token.len() <= 0xffff,
    ensures
        ({
            let p = probe_of(ProbeFraming::Frame(t), token);
            header_of(p) matches Some(h) && h.msg_type == t && h.body_len == token.len() && p.skip(4)
                == token
        }),
        ({
            let p = probe_of(ProbeFraming::InnerLength(t), token);
            header_of(p) matches Some(h) && h.msg_type == t && h.body_len == token.len() + 2
                && token_of(p.skip(4)) == Some(token)
        }),
{
    law_probe_headers(token.len(), t);
    law_probe_headers(token.len() + 2, t);
    let a = frame_header(token.len(), t);
    let b = frame_header(token.len() + 2, t);
    lemma_bytes32(a);
    lemma_bytes32(b);
    let p = probe_of(ProbeFraming::Frame(t), token);
    let q = probe_of(ProbeFraming::InnerLength(t), token);
    let n = token.len() as u16;
    assert(p[0] == bytes32(a)[0] && p[1] == bytes32(a)[1] && p[2] == bytes32(a)[2] && p[3]
        == bytes32(a)[3]);
    assert(q[0] == bytes32(b)[0] && q[1] == bytes32(b)[1] && q[2] == bytes32(b)[2] && q[3]
        == bytes32(b)[3]);
    assert(p.skip(4) =~= token);
    let inner = q.skip(4);
    assert(inner =~= bytes16(n) + token);
    assert(inner[0] == bytes16(n)[0] && inner[1] == bytes16(n)[1]);
    assert(inner.subrange(2, 2 + token.len() as int) =~= token);
}

/// Other framings: nothing, or the length in four bytes in either order.
pub proof fn law_plain_probes(token: Seq<u8>)
    requires
        token.len() <= 0xffff_ffff,
    ensures
        probe_of(ProbeFraming::Raw, token) == token,
        ({
            let p = probe_of(ProbeFraming::Le32, token);
            number32(p, 0) == token.len() && p.skip(4) == token
        }),
        ({
            let p = probe_of(ProbeFraming::Be32, token);
            16777216 * p[0] + 65536 * p[1] + 256 * p[2] + p[3] == token.len() && p.skip(4) == token
        }),
{
    let n = token.len() as u32;
    law_byte_order(token, 0, 0, n, 0);
    let p = probe_of(ProbeFraming::Le32, token);
    assert(p[0] == bytes32(n)[0] && p[1] == bytes32(n)[1] && p[2] == bytes32(n)[2] && p[3]
        == bytes32(n)[3]);
    assert(p.skip(4) =~= token);
    let q = probe_of(ProbeFraming::Be32, token);
    let r = bytes32_be(n).reverse();
    assert(r[0] == bytes32_be(n)[3] && r[1] == bytes32_be(n)[2] && r[2] == bytes32_be(n)[1] && r[3]
        == bytes32_be(n)[0]);
    assert(q[0] == bytes32_be(n)[0] && q[1] == bytes32_be(n)[1] && q[2] == bytes32_be(n)[2] && q[3]
        == bytes32_be(n)[3]);
    assert(q.skip(4) =~= token);
}

/// A byte that is written in hexadecimal is read back, with any number of `0x` in front, and
/// with a plus; a number above a byte is too large.
pub proof fn law_hex_bytes_are_read_back(n: nat)
    ensures
        n < 256 ==> hex_byte(in_base(n, 16)) == Ok::<u8, HexError>(n as u8),
        n < 256 ==> hex_byte(seq!['0', 'x'] + in_base(n, 16)) == Ok::<u8, HexError>(n as u8),
        n < 256 ==> hex_byte(seq!['+'] + in_base(n, 16)) == Ok::<u8, HexError>(n as u8),
        256 <= n < 4096 ==> hex_byte(in_base(n, 16)) == Err::<u8, HexError>(HexError::TooLarge),
        hex_byte(Seq::<char>::empty()) == Err::<u8, HexError>(HexError::Empty),
{
    let s = in_base(n, 16);
    law_numbers_are_read_back(n, 16);
    assert('0' <= s[0] <= '9' || 'a' <= s[0] <= 'f');
    if n < 4096 {
        lemma_hex_digits(n);
        let p = seq!['0', 'x'] + s;
        assert(p.skip(2) =~= s);
        assert(p[0] == '0' && p[1] == 'x');
        assert(s.len() >= 2 ==> s[1] != 'x') by {
            if s.len() >= 2 {
                assert('0' <= s[1] <= '9' || 'a' <= s[1] <= 'f');
            }
        }
        assert(without_prefix(s) == s);
        assert(without_prefix(p) == s);
        let q = seq!['+'] + s;
        assert(q[0] == '+');
        assert(without_prefix(q) == q);
        reveal_with_fuel(byte_from, 4);
        if s.len() >= 1 {
            assert(q[1] == s[0]);
        }
        if s.len() >= 2 {
            assert(q[2] == s[1]);
        }
    }
}

proof fn lemma_hex_digits(n: nat)
    requires
        n < 4096,
    ensures
        ({
            let s = in_base(n, 16);
            if n < 16 {
                s.len() == 1 && digit_value(s[0]) == Some(n)
            } else if n < 256 {
                s.len() == 2 && digit_value(s[0]) == Some(n / 16) && digit_value(s[1]) == Some(
                    n % 16,
                )
            } else {
                s.len() == 3 && digit_value(s[0]) == Some(n / 256) && digit_value(s[1]) == Some(
                    n / 16 % 16,
                ) && digit_value(s[2]) == Some(n % 16)
            }
        }),
{
    reveal_with_fuel(in_base, 4);
    assert(n / 16 / 16 == n / 256);
}

/// The request for a connection is a TPKT of its own length, an X.224 connection request of
/// the rest, and a negotiation request of eight bytes for standard security.
pub proof fn law_connection_request_layout(k: int)
    ensures
        ({
            let r = connection_request();
            &&& r.len() == 19
            &&& r[0] == 3 && 256 * r[2] + r[3] == 19
            &&& r[4] == 19 - 5
            &&& r[5] == 0xe0
            &&& r[11] == 1 && number16(r, 13) == 8
            &&& 15 <= k < 19 ==> r[k] == 0
        }),
{
}

/// The high half of a type byte: 13 confirms a connection, 14 asks for one, 15 is data.
pub proof fn law_tpdu_kinds(b: u8)
    ensures
        b / 16 == 13 ==> tpdu_kind(b) == "X.224 Connection Confirm"@,
        b / 16 == 14 ==> tpdu_kind(b) == "X.224 Connection Request"@,
        b / 16 == 15 ==> tpdu_kind(b) == "X.224 Data (RDP PDU)"@,
        b / 16 < 13 ==> tpdu_kind(b) == "X.224 ?"@,
{
}

proof fn lemma_whole_units(u: Seq<u16>)
    ensures
        whole_units(unit_bytes(u)) == u,
{
    lemma_unit_bytes(u);
    let v = whole_units(unit_bytes(u));
    assert forall|k: int| 0 <= k < u.len() implies v[k] == u[k] by {
        assert(u[k] == le16_at(unit_bytes(u), 2 * k));
    }
    assert(v =~= u);
}

/// A control text is read as it is.
pub proof fn law_control_texts_are_read(s: Seq<char>)
    requires
        is_visible(s),
    ensures
        maybe_control(unit_bytes(utf16(s))) == Some(s),
        payload_of(unit_bytes(utf16(s))) == PayloadView::Control(s),
{
    lemma_whole_units(utf16(s));
    law_utf16_round_trip(s);
    law_trailing_nulls(s);
    let w = without_trailing_nulls(s);
    assert(w == s) by {
        assert(0x21 <= s[s.len() - 1] as int);
        crate::text::lemma_char(s[s.len() - 1]);
        if w.len() < s.len() {
            assert(s[s.len() - 1] as u32 == 0);
        }
        assert(w =~= s);
    }
    assert forall|i: int| 0 <= i < s.len() implies printable(#[trigger] s[i]) by {}
    crate::session::laws::law_control_payloads(s, 0);
    assert(s + Seq::new(0, |i: int| '\0') =~= s);
}

} // verus!
