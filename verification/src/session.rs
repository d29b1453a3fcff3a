//! High-level SCCM Remote Control session: the bring-up (greeting, SSPI
//! handshake, access grant) as a state machine, and the sealed byte channel that
//! carries RDP.

pub mod laws;

use crate::protocol::error::{
    is_protocol, protocol_error, protocol_error_about, Error,
};
use crate::protocol::framing::{
    control_text, data_frame, decode_control_string, decode_handshake_body, encode_data_frame,
    encode_handshake_token, handshake_message, token_of, MSG_TYPE_CONTROL, MSG_TYPE_DATA,
};
use crate::protocol::handshake::{law_sealed_round_trip, sealed_body, sealed_parts, HandshakeStep};
use crate::protocol::transport::{behind, front, law_data_frames_arrive, Frame, Front};
use crate::text::{
    chars_of, decode_utf16_lossy, eq_ignoring_case, same_ignoring_case, same_text, starts_with,
    trim_trailing_nulls, utf16_lossy, without_trailing_nulls,
};
use crate::wire::{units_of_bytes, units_padded};
use vstd::prelude::*;

verus! {

/// The access level the target granted for this session.
#[derive(Debug, Clone, Copy, PartialEq, Eq, Structural)]
pub enum Grant {
    FullControl,
    ViewOnly,
}

/// The text of a decrypted control payload: raw UTF-16LE of an even number of
/// bytes, trailing nulls dropped, not empty, and printable ASCII throughout.
pub open spec fn control_payload(bytes: Seq<u8>) -> Option<Seq<char>> {
    let text = without_trailing_nulls(utf16_lossy(units_padded(bytes)));
    if bytes.len() >= 2 && bytes.len() % 2 == 0 && text.len() > 0 && (forall|i: int|
        0 <= i < text.len() ==> printable(#[trigger] text[i])) {
        Some(text)
    } else {
        None
    }
}

/// The visible ASCII characters.
pub open spec fn printable(c: char) -> bool {
    '!' <= c <= '~'
}

/// Decode a decrypted SCCM control payload (raw UTF-16LE, no length prefix).
pub fn decode_control_utf16(bytes: &[u8]) -> (r: Option<String>)
    ensures
        match r {
            Some(s) => control_payload(bytes@) == Some(s@),
            None => control_payload(bytes@) is None,
        },
{
    if bytes.len() < 2 || bytes.len() % 2 != 0 {
        return None;
    }
    let units: Vec<u16> = units_of_bytes(bytes);
    let text = trim_trailing_nulls(decode_utf16_lossy(units.as_slice()).as_str());
    let chars: Vec<char> = chars_of(text.as_str());
    if chars.len() == 0 {
        return None;
    }
    let mut i: usize = 0;
    while i < chars.len()
        invariant
            chars@ == text@,
            text@ == without_trailing_nulls(utf16_lossy(units_padded(bytes@))),
            i <= chars@.len(),
            forall|k: int| 0 <= k < i ==> printable(#[trigger] text@[k]),
        decreases chars@.len() - i,
    {
        let c: char = chars[i];
        if !(c >= '!' && c <= '~') {
            assert(!printable(text@[i as int]));
            return None;
        }
        i = i + 1;
    }
    Some(text)
}

/// Whether a text is one of the data-phase control keywords.
pub open spec fn control_keyword(s: Seq<char>) -> bool {
    ||| "SUCCESS_"@.is_prefix_of(s)
    ||| "ERROR_"@.is_prefix_of(s)
    ||| "START_"@.is_prefix_of(s)
    ||| s == "STOP_HANDSHAKE"@
}

/// Is this string one of the known SCCM data-phase control keywords?
pub fn is_sccm_control_keyword(s: &str) -> (r: bool)
    ensures
        r == control_keyword(s@),
{
    starts_with(s, "SUCCESS_") || starts_with(s, "ERROR_") || starts_with(s, "START_")
        || same_text(s, "STOP_HANDSHAKE")
}

/// The access that a grant payload gives, or why it gives none.
pub open spec fn grant_in(plain: Seq<u8>) -> Result<Grant, Seq<char>> {
    match control_payload(plain) {
        None => Err("grant not a control string"@),
        Some(s) => if s == "SUCCESS_FULL_CONTROL"@ {
            Ok(Grant::FullControl)
        } else if s == "SUCCESS_VIEW_ONLY"@ {
            Ok(Grant::ViewOnly)
        } else {
            Err("access not granted: "@ + s)
        },
    }
}

/// Read the access grant out of its decrypted payload.
pub fn grant_of(plain: &[u8]) -> (r: Result<Grant, Error>)
    ensures
        match r {
            Ok(g) => grant_in(plain@) == Ok::<Grant, Seq<char>>(g),
            Err(e) => grant_in(plain@) matches Err(why) && is_protocol(e, why),
        },
{
    match decode_control_utf16(plain) {
        None => Err(protocol_error("grant not a control string")),
        Some(s) => {
            if same_text(s.as_str(), "SUCCESS_FULL_CONTROL") {
                Ok(Grant::FullControl)
            } else if same_text(s.as_str(), "SUCCESS_VIEW_ONLY") {
                Ok(Grant::ViewOnly)
            } else {
                Err(protocol_error_about("access not granted: ", s.as_str()))
            }
        },
    }
}

/// The text of a control frame; none counts as empty.
pub open spec fn control_or_empty(body: Seq<u8>) -> Seq<char> {
    match control_text(body) {
        Some(s) => s,
        None => Seq::empty(),
    }
}

fn control_or_default(body: &[u8]) -> (r: String)
    ensures
        r@ == control_or_empty(body@),
{
    match decode_control_string(body) {
        Some(s) => s,
        None => String::new(),
    }
}

/// How far the bring-up has come: what it waits for.
#[derive(Debug, Clone, Copy, PartialEq, Eq, Structural)]
pub enum ConnectState {
    /// The server's greeting.
    Greeting,
    /// The security package's next step.
    Negotiating,
    /// The server's next token.
    Token,
    /// The sealed access grant.
    SealedGrant,
    /// The decrypted access grant.
    PlainGrant,
    /// Nothing: the session is up.
    Up(Grant),
}

/// What happened.
pub enum ConnectEvent {
    /// A frame arrived, or the stream ended.
    Received(Option<Frame>),
    /// The security package took a step.
    Stepped(HandshakeStep),
    /// A frame was decrypted.
    Unsealed(Vec<u8>),
}

/// What to do next: send these bytes (unless there are none), then go on.
pub struct ConnectAction {
    pub send: Vec<u8>,
    pub then_do: ConnectTask,
}

/// How to go on.
pub enum ConnectTask {
    /// Receive a frame.
    Receive,
    /// Hand the peer's token to the security package.
    Step(Vec<u8>),
    /// Ask the security package for its message sizes, then receive a frame.
    QuerySizes,
    /// Decrypt a frame body.
    Unseal(Vec<u8>),
    /// Nothing more: the session is up.
    Finish,
}

/// How to go on, and with which bytes.
pub enum TaskView {
    Receive,
    Step(Seq<u8>),
    QuerySizes,
    Unseal(Seq<u8>),
    Finish,
}

impl View for ConnectTask {
    type V = TaskView;

    open spec fn view(&self) -> TaskView {
        match *self {
            ConnectTask::Receive => TaskView::Receive,
            ConnectTask::Step(b) => TaskView::Step(b@),
            ConnectTask::QuerySizes => TaskView::QuerySizes,
            ConnectTask::Unseal(b) => TaskView::Unseal(b@),
            ConnectTask::Finish => TaskView::Finish,
        }
    }
}

/// Whether the event is of the kind that the state waits for.
pub open spec fn expected(state: ConnectState, event: ConnectEvent) -> bool {
    match state {
        ConnectState::Greeting => event is Received,
        ConnectState::Negotiating => event is Stepped && event->Stepped_0.output@.len()
            <= usize::MAX - 2,
        ConnectState::Token => event is Received,
        ConnectState::SealedGrant => event is Received,
        ConnectState::PlainGrant => event is Unsealed,
        ConnectState::Up(_) => false,
    }
}

/// What a step of the bring-up gives: the next state, the bytes to send and the
/// task, or the text of a protocol error.
pub open spec fn connect_step(state: ConnectState, event: ConnectEvent) -> Result<
    (ConnectState, Seq<u8>, TaskView),
    Seq<char>,
> {
    let none = Seq::<u8>::empty();
    match (state, event) {
        (ConnectState::Greeting, ConnectEvent::Received(None)) => Err("closed before greeting"@),
        (ConnectState::Greeting, ConnectEvent::Received(Some(f))) => if control_or_empty(f.body@)
            == "START_HANDSHAKE"@ {
            Ok((ConnectState::Negotiating, none, TaskView::Step(none)))
        } else {
            Err("unexpected greeting: "@ + control_or_empty(f.body@))
        },
        (ConnectState::Negotiating, ConnectEvent::Stepped(s)) => {
            let send = if s.output@.len() == 0 {
                none
            } else {
                handshake_message(s.output@)
            };
            if s.done {
                Ok((ConnectState::SealedGrant, send, TaskView::QuerySizes))
            } else {
                Ok((ConnectState::Token, send, TaskView::Receive))
            }
        },
        (ConnectState::Token, ConnectEvent::Received(None)) => Err("closed mid-handshake"@),
        (ConnectState::Token, ConnectEvent::Received(Some(f))) => if f.msg_type
            == MSG_TYPE_CONTROL {
            Err("server rejected handshake: "@ + control_or_empty(f.body@))
        } else {
            match token_of(f.body@) {
                Some(t) => Ok((ConnectState::Negotiating, none, TaskView::Step(t))),
                None => Err("malformed handshake token"@),
            }
        },
        (ConnectState::SealedGrant, ConnectEvent::Received(None)) => Err("closed before grant"@),
        (ConnectState::SealedGrant, ConnectEvent::Received(Some(f))) => Ok(
            (ConnectState::PlainGrant, none, TaskView::Unseal(f.body@)),
        ),
        (ConnectState::PlainGrant, ConnectEvent::Unsealed(plain)) => match grant_in(plain@) {
            Ok(g) => Ok((ConnectState::Up(g), none, TaskView::Finish)),
            Err(why) => Err(why),
        },
        _ => Err(Seq::empty()),
    }
}

fn go(state: ConnectState, send: Vec<u8>, then_do: ConnectTask) -> (r: Result<
    (ConnectState, ConnectAction),
    Error,
>)
    ensures
        r matches Ok((s, a)) && s == state && a.send@ == send@ && a.then_do@ == then_do@,
{
    Ok((state, ConnectAction { send, then_do }))
}

/// One step of the bring-up: TCP is connected, then the greeting, the SSPI
/// Negotiate handshake and the access grant.
pub fn connect_next(state: ConnectState, event: ConnectEvent) -> (r: Result<
    (ConnectState, ConnectAction),
    Error,
>)
    requires
        expected(state, event),
    ensures
        match r {
            Ok((s, a)) => connect_step(state, event) == Ok::<
                (ConnectState, Seq<u8>, TaskView),
                Seq<char>,
            >((s, a.send@, a.then_do@)),
            Err(e) => connect_step(state, event) matches Err(why) && is_protocol(e, why),
        },
{
    match event {
        ConnectEvent::Received(frame) => match state {
            ConnectState::Greeting => match frame {
                None => Err(protocol_error("closed before greeting")),
                Some(f) => {
                    let text = control_or_default(f.body.as_slice());
                    if same_text(text.as_str(), "START_HANDSHAKE") {
                        go(ConnectState::Negotiating, Vec::new(), ConnectTask::Step(Vec::new()))
                    } else {
                        Err(protocol_error_about("unexpected greeting: ", text.as_str()))
                    }
                },
            },
            ConnectState::Token => match frame {
                None => Err(protocol_error("closed mid-handshake")),
                Some(f) => {
                    if f.msg_type == MSG_TYPE_CONTROL {
                        let text = control_or_default(f.body.as_slice());
                        return Err(
                            protocol_error_about("server rejected handshake: ", text.as_str()),
                        );
                    }
                    match decode_handshake_body(f.body.as_slice()) {
                        Some(t) => go(
                            ConnectState::Negotiating,
                            Vec::new(),
                            ConnectTask::Step(vstd::slice::slice_to_vec(t)),
                        ),
                        None => Err(protocol_error("malformed handshake token")),
                    }
                },
            },
            _ => match frame {
                None => Err(protocol_error("closed before grant")),
                Some(f) => go(ConnectState::PlainGrant, Vec::new(), ConnectTask::Unseal(f.body)),
            },
        },
        ConnectEvent::Stepped(step) => {
            let send: Vec<u8> = if step.output.is_empty() {
                Vec::new()
            } else {
                encode_handshake_token(step.output.as_slice())
            };
            if step.done {
                go(ConnectState::SealedGrant, send, ConnectTask::QuerySizes)
            } else {
                go(ConnectState::Token, send, ConnectTask::Receive)
            }
        },
        ConnectEvent::Unsealed(plain) => match grant_of(plain.as_slice()) {
            Ok(g) => go(ConnectState::Up(g), Vec::new(), ConnectTask::Finish),
            Err(e) => Err(e),
        },
    }
}

/// A session comes up only with a grant, and only out of the decrypted grant
/// payload: no frame that arrives in the clear brings it up.
pub proof fn law_only_a_grant_brings_the_session_up(state: ConnectState, event: ConnectEvent)
    requires
        expected(state, event),
    ensures
        connect_step(state, event) matches Ok((ConnectState::Up(g), _, _)) ==> {
            &&& state == ConnectState::PlainGrant
            &&& event matches ConnectEvent::Unsealed(plain) && grant_in(plain@) == Ok::<
                Grant,
                Seq<char>,
            >(g)
        },
{
}

/// TPKT (length 9), X.224 data, MCS Disconnect-Provider-Ultimatum: sent, sealed,
/// so that the server releases the host at once.
pub open spec fn disconnect_pdu() -> Seq<u8> {
    seq![0x03u8, 0x00, 0x00, 0x09, 0x02, 0xf0, 0x80, 0x21, 0x80]
}

pub fn disconnect_message() -> (v: Vec<u8>)
    ensures
        v@ == disconnect_pdu(),
{
    let v: Vec<u8> = vec![0x03u8, 0x00, 0x00, 0x09, 0x02, 0xf0, 0x80, 0x21, 0x80];
    assert(v@ =~= disconnect_pdu());
    v
}

/// What to do with a decrypted message.
pub enum Inbound {
    /// It carries RDP.
    Rdp(Vec<u8>),
    /// It is a control message of the session itself, to be skipped.
    Control,
}

/// Whether a decrypted message is a control message: only known keywords count,
/// so RDP bytes that happen to be printable are not dropped.
pub open spec fn is_control(plain: Seq<u8>) -> bool {
    control_payload(plain) matches Some(s) && control_keyword(s)
}

/// An authenticated, sealed SCCM RC session: its grant, decrypted bytes that
/// have not been consumed, and its counters.
#[derive(Debug)]
pub struct SccmSession {
    pub grant: Grant,
    /// Leftover decrypted RDP bytes not yet consumed by the caller.
    pub rx_buf: Vec<u8>,
    /// Sealed frames sent.
    pub data_sent: u64,
    /// Frames unsealed.
    pub data_recvd: u64,
    /// Total unsealed (plaintext RDP) bytes received.
    pub data_recvd_bytes: u64,
}

impl SccmSession {
    /// A session that has just come up.
    pub fn established(grant: Grant) -> (r: Self)
        ensures
            r.grant == grant,
            r.rx_buf@.len() == 0,
            r.data_sent == 0,
            r.data_recvd == 0,
            r.data_recvd_bytes == 0,
    {
        SccmSession { grant, rx_buf: Vec::new(), data_sent: 0, data_recvd: 0, data_recvd_bytes: 0 }
    }

    pub fn grant(&self) -> (r: Grant)
        ensures
            r == self.grant,
    {
        self.grant
    }

    /// Transport security for the UI: `(encrypted, server_verified, package)`.
    /// The server counts as verified when the package is Kerberos, which proves
    /// that the server holds the target's service key; NTLM authenticates us to
    /// the server but not the server to us.
    pub fn security(encrypted: bool, package: Option<String>) -> (r: (bool, bool, Option<String>))
        ensures
            r.0 == encrypted,
            r.1 == (package matches Some(p) && same_ignoring_case(p@, "Kerberos"@)),
            r.2 == package,
    {
        let verified: bool = match &package {
            Some(p) => eq_ignoring_case(p.as_str(), "Kerberos"),
            None => false,
        };
        (encrypted, verified, package)
    }

    /// (sealed frames sent, unsealed frames received), for desync diagnostics.
    pub fn seal_stats(&self) -> (r: (u64, u64))
        ensures
            r == (self.data_sent, self.data_recvd),
    {
        (self.data_sent, self.data_recvd)
    }

    /// Total unsealed (plaintext RDP) bytes received this session.
    pub fn recvd_bytes(&self) -> (r: u64)
        ensures
            r == self.data_recvd_bytes,
    {
        self.data_recvd_bytes
    }

    /// The wire bytes of one sealed chunk. It counts as sent once the write has
    /// been reported to `on_written`.
    pub fn send_sealed(&self, sealed: &[u8]) -> (wire: Vec<u8>)
        ensures
            wire@ == data_frame(sealed@),
    {
        encode_data_frame(sealed)
    }

    /// How the write of one sealed frame went: it counts only if it succeeded.
    pub fn on_written(&mut self, written: Result<(), Error>) -> (r: Result<(), Error>)
        ensures
            r == written,
            *final(self) == (SccmSession {
                data_sent: if written is Ok {
                    old(self).data_sent.wrapping_add(1)
                } else {
                    old(self).data_sent
                },
                ..*old(self)
            }),
    {
        if written.is_ok() {
            self.data_sent = self.data_sent.wrapping_add(1);
        }
        written
    }

    /// Bytes that are left over from before, if any.
    pub fn take_buffered(&mut self) -> (r: Option<Vec<u8>>)
        ensures
            match r {
                Some(v) => old(self).rx_buf@.len() > 0 && v@ == old(self).rx_buf@,
                None => old(self).rx_buf@.len() == 0,
            },
            final(self).rx_buf@.len() == 0,
            final(self).grant == old(self).grant,
            final(self).data_sent == old(self).data_sent,
            final(self).data_recvd == old(self).data_recvd,
            final(self).data_recvd_bytes == old(self).data_recvd_bytes,
    {
        if self.rx_buf.is_empty() {
            return None;
        }
        let mut out: Vec<u8> = Vec::new();
        std::mem::swap(&mut out, &mut self.rx_buf);
        Some(out)
    }

    /// Whether a received frame carries sealed data; other frames are skipped.
    pub fn carries_data(frame: &Frame) -> (r: bool)
        ensures
            r == (frame.msg_type == MSG_TYPE_DATA),
    {
        frame.msg_type == MSG_TYPE_DATA
    }

    /// Count a decrypted message and tell RDP from control messages.
    pub fn on_unsealed(&mut self, plain: Vec<u8>) -> (r: Inbound)
        ensures
            match r {
                Inbound::Rdp(v) => !is_control(plain@) && v@ == plain@,
                Inbound::Control => is_control(plain@),
            },
            *final(self) == (SccmSession {
                data_recvd: old(self).data_recvd.wrapping_add(1),
                data_recvd_bytes: old(self).data_recvd_bytes.wrapping_add(plain@.len() as u64),
                ..*old(self)
            }),
    {
        self.data_recvd = self.data_recvd.wrapping_add(1);
        self.data_recvd_bytes = self.data_recvd_bytes.wrapping_add(plain.len() as u64);
        match decode_control_utf16(plain.as_slice()) {
            Some(s) => {
                if is_sccm_control_keyword(s.as_str()) {
                    return Inbound::Control;
                }
            },
            None => {},
        }
        Inbound::Rdp(plain)
    }
}

/// A sealed message that was sent is found again at the front of the stream, with the
/// ciphertext and the token that it was made from.
pub proof fn law_sealed_messages_arrive(data: Seq<u8>, token: Seq<u8>, rest: Seq<u8>)
    requires
        data.len() <= 0xffff,
        token.len() <= 0xffff,
    ensures
        front(data_frame(sealed_body(data, token)) + rest) matches Front::Whole(kind, body) && kind
            == MSG_TYPE_DATA && sealed_parts(body) == Ok::<(Seq<u8>, Seq<u8>), Seq<char>>(
            (data, token),
        ),
        behind(data_frame(sealed_body(data, token)) + rest) == rest,
{
    law_sealed_round_trip(data, token);
    law_data_frames_arrive(sealed_body(data, token), rest);
}

} // verus!
