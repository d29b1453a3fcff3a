//! What control messages say, and what a bring-up makes of them.

use crate::protocol::framing::{header_of, token_of};
use crate::protocol::handshake::{sealed_body, sealed_parts};
use crate::session::{
    connect_step, control_payload, disconnect_pdu, grant_in, is_control,
    printable, ConnectEvent, ConnectState, Grant,
};
use crate::text::laws::law_trailing_nulls;
use crate::text::{law_utf16_round_trip, utf16, utf16_lossy, without_trailing_nulls};
use crate::wire::{bytes16, le16_at, lemma_unit_bytes, number16, unit_bytes, units_padded};
use vstd::prelude::*;

verus! {

/// Whether a text is of visible ASCII characters throughout, and not empty.
pub open spec fn is_visible(s: Seq<char>) -> bool {
    s.len() > 0 && forall|i: int| 0 <= i < s.len() ==> 0x21 <= (#[trigger] s[i]) as int <= 0x7E
}

proof fn lemma_units_padded(u: Seq<u16>)
    ensures
        units_padded(unit_bytes(u)) == u,
{
    lemma_unit_bytes(u);
    let b = unit_bytes(u);
    let v = units_padded(b);
    assert(v.len() == u.len());
    assert forall|k: int| 0 <= k < u.len() implies v[k] == u[k] by {
        assert(u[k] == le16_at(b, 2 * k));
    }
    assert(v =~= u);
}

/// A control message in UTF-16 is read as its text, with nulls behind it or without. Only
/// visible ASCII counts.
pub proof fn law_control_payloads(s: Seq<char>, nulls: nat)
    requires
        is_visible(s),
    ensures
        control_payload(unit_bytes(utf16(s + Seq::new(nulls, |i: int| '\0')))) == Some(s),
{
    let z = Seq::new(nulls, |i: int| '\0');
    let t = s + z;
    let b = unit_bytes(utf16(t));
    lemma_units_padded(utf16(t));
    law_utf16_round_trip(t);
    lemma_unit_bytes(utf16(t));
    law_trailing_nulls(t);
    let w = without_trailing_nulls(t);
    assert(w == s) by {
        assert(s.last() == t[s.len() - 1]);
        assert(0x21 <= s[s.len() - 1] as int);
        if w.len() < s.len() {
            assert(t[s.len() - 1] as u32 == 0);
        }
        if w.len() > s.len() {
            assert(w.last() == t[w.len() - 1]);
            assert(t[w.len() - 1] == z[w.len() - 1 - s.len()]);
        }
        assert(w =~= s);
    }
    assert(utf16(t).len() > 0) by {
        if utf16(t).len() == 0 {
            assert(utf16_lossy(utf16(t)).len() == 0);
        }
    }
    assert forall|i: int| 0 <= i < w.len() implies printable(#[trigger] w[i]) by {}
}

/// Bytes of an odd number, or whose text holds anything but visible ASCII, are no control
/// message.
pub proof fn law_other_payloads(bytes: Seq<u8>, s: Seq<char>, i: int)
    ensures
        bytes.len() % 2 == 1 ==> control_payload(bytes) is None,
        bytes.len() < 2 ==> control_payload(bytes) is None,
        0 <= i < s.len() && s[i] as int != 0 && (s[i] as int <= 0x20 || s[i] as int > 0x7E)
            ==> control_payload(unit_bytes(utf16(s))) is None,
{
    if 0 <= i < s.len() && s[i] as int != 0 && (s[i] as int <= 0x20 || s[i] as int > 0x7E) {
        lemma_units_padded(utf16(s));
        law_utf16_round_trip(s);
        law_trailing_nulls(s);
        let w = without_trailing_nulls(s);
        if i < w.len() {
            assert(w[i] == s[i]);
            assert(!printable(w[i]));
        } else {
            assert(s[i] as u32 == 0);
            crate::text::lemma_char(s[i]);
        }
    }
}

/// Full control and view only are the two grants; any other text is a refusal that names
/// itself.
pub proof fn law_grants(s: Seq<char>)
    requires
        is_visible(s),
    ensures
        ({
            let r = grant_in(unit_bytes(utf16(s)));
            &&& s == "SUCCESS_FULL_CONTROL"@ ==> r == Ok::<Grant, Seq<char>>(Grant::FullControl)
            &&& s == "SUCCESS_VIEW_ONLY"@ ==> r == Ok::<Grant, Seq<char>>(Grant::ViewOnly)
            &&& s != "SUCCESS_FULL_CONTROL"@ && s != "SUCCESS_VIEW_ONLY"@ ==> r == Err::<
                Grant,
                Seq<char>,
            >("access not granted: "@ + s)
        }),
{
    let z = Seq::new(0, |i: int| '\0');
    assert(s + z =~= s);
    law_control_payloads(s, 0);
    reveal_strlit("SUCCESS_FULL_CONTROL");
    reveal_strlit("SUCCESS_VIEW_ONLY");
    assert("SUCCESS_FULL_CONTROL"@.len() != "SUCCESS_VIEW_ONLY"@.len());
}

/// The keywords of the data phase are control messages; other texts are not, even if they
/// are visible.
pub proof fn law_control_keywords(s: Seq<char>)
    requires
        is_visible(s),
    ensures
        is_control(unit_bytes(utf16(s))) == ("SUCCESS_"@.is_prefix_of(s) || "ERROR_"@.is_prefix_of(
            s,
        ) || "START_"@.is_prefix_of(s) || s == "STOP_HANDSHAKE"@),
{
    let z = Seq::new(0, |i: int| '\0');
    assert(s + z =~= s);
    law_control_payloads(s, 0);
}

/// Every frame type and length can be told from its first four bytes: three of length, the
/// lowest first, and the type.
pub proof fn law_frame_headers(b: Seq<u8>)
    ensures
        b.len() < 4 ==> header_of(b) is None,
        b.len() >= 4 ==> (header_of(b) matches Some(h) && h.msg_type == b[3] && h.body_len == b[0]
            + 256 * b[1] + 65536 * b[2]),
{
}

/// A token stands behind its length, in two bytes; bytes behind it do not matter, and a
/// token that is cut short is none.
pub proof fn law_tokens_stand_behind_their_length(token: Seq<u8>, rest: Seq<u8>, n: int)
    requires
        token.len() <= 0xffff,
    ensures
        token_of(seq![(token.len() % 256) as u8, (token.len() / 256) as u8] + token + rest)
            == Some(token),
        0 <= n < 2 + token.len() ==> token_of(
            (seq![(token.len() % 256) as u8, (token.len() / 256) as u8] + token).take(n),
        ) is None,
{
    let head = seq![(token.len() % 256) as u8, (token.len() / 256) as u8];
    let b = head + token + rest;
    assert(b[0] == head[0] && b[1] == head[1]);
    assert(b.subrange(2, 2 + token.len() as int) =~= token);
    let c = (head + token).take(n);
    if 2 <= n < 2 + token.len() {
        assert(c[0] == head[0] && c[1] == head[1]);
    }
}

/// A sealed message: the length of the data in two bytes, the data, the length of the token
/// in two bytes, the token.
pub proof fn law_sealed_layout(data: Seq<u8>, token: Seq<u8>)
    requires
        data.len() <= 0xffff,
        token.len() <= 0xffff,
    ensures
        ({
            let b = sealed_body(data, token);
            let n = data.len() as int;
            &&& b.len() == 4 + data.len() + token.len()
            &&& number16(b, 0) == data.len()
            &&& b.subrange(2, 2 + n) == data
            &&& number16(b, 2 + n) == token.len()
            &&& b.skip(4 + n) == token
        }),
{
    let b = sealed_body(data, token);
    let n = data.len() as int;
    assert(b[0] == bytes16(data.len() as u16)[0] && b[1] == bytes16(data.len() as u16)[1]);
    assert(b[2 + n] == bytes16(token.len() as u16)[0] && b[2 + n + 1] == bytes16(
        token.len() as u16,
    )[1]);
    assert(b.subrange(2, 2 + n) =~= data);
    assert(b.skip(4 + n) =~= token);
}

/// A sealed message is refused if it is too short for its lengths, and only then.
pub proof fn law_cut_sealed_messages(b: Seq<u8>)
    ensures
        sealed_parts(b) is Ok <==> b.len() >= 4 && 4 + number16(b, 0) <= b.len() && 4 + number16(
            b,
            0,
        ) + number16(b, 2 + number16(b, 0)) <= b.len(),
{
}

/// The session is brought up step by step: the greeting starts the handshake, the handshake
/// goes on until it is done, then the sealed grant is received, decrypted and read.
pub proof fn law_bring_up_goes_forward(state: ConnectState, event: ConnectEvent)
    ensures
        connect_step(state, event) matches Ok((next, send, task)) ==> match state {
            ConnectState::Greeting => next is Negotiating && send.len() == 0,
            ConnectState::Negotiating => next is Token && task is Receive || next is SealedGrant
                && task is QuerySizes,
            ConnectState::Token => next is Negotiating && task is Step,
            ConnectState::SealedGrant => next is PlainGrant && task is Unseal,
            ConnectState::PlainGrant => next is Up && task is Finish,
            ConnectState::Up(_) => false,
        },
{
}

/// The message that ends a session is a TPKT of its own length with an X.224 data header.
pub proof fn law_disconnect_layout()
    ensures
        disconnect_pdu().len() == 9,
        disconnect_pdu()[0] == 3,
        256 * disconnect_pdu()[2] + disconnect_pdu()[3] == 9,
        disconnect_pdu().subrange(4, 7) == seq![0x02u8, 0xf0, 0x80],
        disconnect_pdu().skip(7) == seq![0x21u8, 0x80],
{
    assert(disconnect_pdu().subrange(4, 7) =~= seq![0x02u8, 0xf0, 0x80]);
    assert(disconnect_pdu().skip(7) =~= seq![0x21u8, 0x80]);
}

} // verus!
