//! Bringing RDP up over the session: the configuration, the PDUs that the
//! connection sequence takes out of the stream, and the messages that make the
//! server start to paint.

use crate::protocol::error::{is_protocol, protocol_error, protocol_error_about, Error};
use crate::rdp::monitor::Monitor;
use crate::text::{eq_ignoring_case, same_ignoring_case, same_text};
use crate::wire::{
    bytes16, bytes32, contents, le16_at, lemma_bytes16, push_slice, push_u16, push_u32,
    push_zeros, zero_bytes,
};
use vstd::prelude::*;

verus! {

/// The bit of the performance flags with which a client asks for the full
/// multi-monitor geometry instead of only the primary monitor.
pub const ALL_MONITORS: u32 = 0x1000;

/// `ironrdp_pdu::rdp::client_info::PerformanceFlags::default`. Trusted: its bits
/// are those of no full-window drag, no menu animations and font smoothing.
#[verifier::external_body]
fn default_performance_flags() -> (r: u32)
    ensures
        r == 0x86,
{
    ironrdp_pdu::rdp::client_info::PerformanceFlags::default().bits()
}

/// The configuration of an SCCM RC session.
#[derive(Debug)]
pub struct RdpConfig {
    pub width: u16,
    pub height: u16,
    pub monitors: Vec<Monitor>,
    /// Standard RDP security: the outer session already encrypts everything.
    pub enable_tls: bool,
    pub enable_credssp: bool,
    pub username: String,
    pub client_name: String,
    pub keyboard_functional_keys_count: u32,
    pub performance_flags: u32,
    /// The cursor comes as a separate update, which the viewer draws itself.
    pub enable_server_pointer: bool,
    /// The cursor is drawn into the framebuffer instead.
    pub pointer_software_rendering: bool,
}

/// Whether a setting says yes: "1", or "true" in any case.
pub open spec fn says_yes(v: Seq<char>) -> bool {
    v == "1"@ || same_ignoring_case(v, "true"@)
}

/// Whether a setting, if it is there, says yes.
pub fn is_yes(v: Option<&str>) -> (r: bool)
    ensures
        r == (v matches Some(s) && says_yes(s@)),
{
    match v {
        Some(s) => same_text(s, "1") || eq_ignoring_case(s, "true"),
        None => false,
    }
}

/// Build the configuration for an SCCM RC session. `user` is the local user's
/// name, where it is known; `pointer_in_frame` the setting that has the cursor
/// drawn into the framebuffer.
pub fn sccm_rdp_config(
    width: u16,
    height: u16,
    monitors: Vec<Monitor>,
    user: Option<String>,
    all_monitors: bool,
    pointer_in_frame: Option<&str>,
) -> (r: RdpConfig)
    ensures
        r.width == width,
        r.height == height,
        r.monitors@ == monitors@,
        !r.enable_tls,
        !r.enable_credssp,
        r.username@ == (match user {
            Some(u) => u@,
            None => "user"@,
        }),
        r.client_name@ == "sccm-rc"@,
        r.keyboard_functional_keys_count == 12,
        r.performance_flags == (if all_monitors {
            0x86u32 | ALL_MONITORS
        } else {
            0x86u32
        }),
        r.enable_server_pointer,
        r.pointer_software_rendering == (pointer_in_frame matches Some(s) && says_yes(s@)),
{
    let base: u32 = default_performance_flags();
    RdpConfig {
        width,
        height,
        monitors,
        enable_tls: false,
        enable_credssp: false,
        username: match user {
            Some(u) => u,
            None => String::from_str("user"),
        },
        client_name: String::from_str("sccm-rc"),
        keyboard_functional_keys_count: 12,
        performance_flags: if all_monitors {
            base | ALL_MONITORS
        } else {
            base
        },
        enable_server_pointer: true,
        pointer_software_rendering: is_yes(pointer_in_frame),
    }
}

/// Which capability exchange is under way.
#[derive(Debug, Clone, Copy, PartialEq, Eq, Structural)]
pub enum Sequence {
    /// The connection sequence.
    Connect,
    /// A reactivation of the running session.
    Reactivate,
}

impl Sequence {
    pub open spec fn hint_failed(self) -> Seq<char> {
        match self {
            Sequence::Connect => "pdu hint: "@,
            Sequence::Reactivate => "reactivation hint: "@,
        }
    }

    pub open spec fn closed(self) -> Seq<char> {
        match self {
            Sequence::Connect => "server closed during RDP connect"@,
            Sequence::Reactivate => "closed during reactivation"@,
        }
    }

    pub open spec fn step_failed(self) -> Seq<char> {
        match self {
            Sequence::Connect => "ironrdp: "@,
            Sequence::Reactivate => "reactivation: "@,
        }
    }
}

/// What a capability exchange has received and not consumed yet, and the share id
/// that the server's PDUs carry: client PDUs must echo it.
#[derive(Debug)]
pub struct Negotiation {
    pub sequence: Sequence,
    pub buf: Vec<u8>,
    pub share_id: u32,
}

impl Negotiation {
    pub fn new(sequence: Sequence, buf: Vec<u8>, share_id: u32) -> (r: Self)
        ensures
            r == (Negotiation { sequence, buf, share_id }),
    {
        Negotiation { sequence, buf, share_id }
    }

    /// Take the PDU of the announced size out of the buffer, if all of it is
    /// there; else more bytes are needed. `size` is what the sequence makes of the
    /// bytes received so far.
    pub fn take(&mut self, size: Result<Option<usize>, String>) -> (r: Result<
        Option<Vec<u8>>,
        Error,
    >)
        ensures
            final(self).sequence == old(self).sequence,
            final(self).share_id == old(self).share_id,
            match r {
                Ok(Some(pdu)) => {
                    &&& size matches Ok(Some(n)) && n <= old(self).buf@.len() && pdu@ == old(
                        self).buf@.take(n as int) && final(self).buf@ == old(self).buf@.skip(
                        n as int)
                },
                Ok(None) => {
                    &&& size matches Ok(s) && (s matches Some(n) ==> n > old(self).buf@.len())
                    &&& final(self).buf@ == old(self).buf@
                },
                Err(e) => {
                    &&& size matches Err(why) && is_protocol(
                        e,
                        old(self).sequence.hint_failed() + why@,
                    )
                    &&& final(self).buf@ == old(self).buf@
                },
            },
    {
        match size {
            Ok(Some(n)) => {
                if n > self.buf.len() {
                    return Ok(None);
                }
                let mut rest: Vec<u8> = self.buf.split_off(n);
                std::mem::swap(&mut rest, &mut self.buf);
                assert(rest@ =~= old(self).buf@.take(n as int));
                assert(self.buf@ =~= old(self).buf@.skip(n as int));
                Ok(Some(rest))
            },
            Ok(None) => Ok(None),
            Err(why) => Err(
                match self.sequence {
                    Sequence::Connect => protocol_error_about("pdu hint: ", why.as_str()),
                    Sequence::Reactivate => protocol_error_about(
                        "reactivation hint: ",
                        why.as_str(),
                    ),
                },
            ),
        }
    }

    /// Bytes have arrived, or the stream has ended.
    pub fn received(&mut self, more: Option<Vec<u8>>) -> (r: Result<(), Error>)
        ensures
            final(self).sequence == old(self).sequence,
            final(self).share_id == old(self).share_id,
            match r {
                Ok(_) => more matches Some(b) && final(self).buf@ == old(self).buf@ + b@,
                Err(e) => {
                    &&& more is None
                    &&& is_protocol(e, old(self).sequence.closed())
                    &&& final(self).buf@ == old(self).buf@
                },
            },
    {
        match more {
            Some(b) => {
                push_slice(&mut self.buf, b.as_slice());
                Ok(())
            },
            None => Err(
                match self.sequence {
                    Sequence::Connect => protocol_error("server closed during RDP connect"),
                    Sequence::Reactivate => protocol_error("closed during reactivation"),
                },
            ),
        }
    }

    /// A PDU carries this share id, if any. The first one that is not zero stays.
    pub fn saw_share_id(&mut self, found: Option<u32>)
        ensures
            final(self).sequence == old(self).sequence,
            final(self).buf@ == old(self).buf@,
            final(self).share_id == (if old(self).share_id == 0 && found is Some {
                found.unwrap()
            } else {
                old(self).share_id
            }),
    {
        if self.share_id == 0 {
            if let Some(id) = found {
                self.share_id = id;
            }
        }
    }

    /// The error with which a step of the sequence failed.
    pub fn step_error(&self, why: &str) -> (e: Error)
        ensures
            is_protocol(e, self.sequence.step_failed() + why@),
    {
        match self.sequence {
            Sequence::Connect => protocol_error_about("ironrdp: ", why),
            Sequence::Reactivate => protocol_error_about("reactivation: ", why),
        }
    }

    /// The sequence has come to its end in the named state. Bytes that are still
    /// buffered are the server's first PDUs of the active session (often the
    /// initial paint) and must be carried into it.
    pub fn finish(self, connected: bool, state: &str) -> (r: Result<(Vec<u8>, u32), Error>)
        ensures
            match r {
                Ok((buf, id)) => connected && buf@ == self.buf@ && id == self.share_id,
                Err(e) => !connected && is_protocol(
                    e,
                    match self.sequence {
                        Sequence::Connect => "RDP connector ended in non-connected state: "@
                            + state@,
                        Sequence::Reactivate => "reactivation did not finalize"@,
                    },
                ),
            },
    {
        if connected {
            Ok((self.buf, self.share_id))
        } else {
            Err(
                match self.sequence {
                    Sequence::Connect => protocol_error_about(
                        "RDP connector ended in non-connected state: ",
                        state,
                    ),
                    Sequence::Reactivate => protocol_error("reactivation did not finalize"),
                },
            )
        }
    }
}

/// The control messages (curtain, dynamic resolution, desktop configuration) that
/// make the server begin to send desktop graphics: the raw user data of the I/O
/// channel, sent as it is.
pub open spec fn wlc_controls() -> Seq<Seq<u8>> {
    let tail = |len: u8| seq![len, 0x00, 0x17, 0x00, 0xf4, 0x03, 0xea, 0x03, 0x01, 0x00, 0x00, 0x01];
    seq![
        tail(0x16) + seq![0x08u8, 0x00, 0x1f, 0x00, 0x00, 0x00, 0x01, 0x00, 0xea, 0x03],
        tail(0x1a) + seq![
            0x0cu8, 0x00, 0x14, 0x00, 0x00, 0x00, 0x04, 0x00, 0x00, 0x00, 0x00, 0x00, 0x00, 0x00,
        ],
        tail(0x1a) + seq![
            0x0cu8, 0x00, 0x14, 0x00, 0x00, 0x00, 0x01, 0x00, 0x00, 0x00, 0x00, 0x00, 0x00, 0x00,
        ],
        tail(0x1a) + seq![
            0x00u8, 0x00, 0x27, 0x00, 0x00, 0x00, 0x00, 0x00, 0x00, 0x00, 0x03, 0x00, 0x32, 0x00,
        ],
    ]
}

/// The control messages of the desktop handshake, in order.
pub fn wlc_desktop_messages() -> (r: Vec<Vec<u8>>)
    ensures
        contents(r@) == wlc_controls(),
        forall|i: int| 0 <= i < r@.len() ==> #[trigger] r@[i]@.len() == le16_at(r@[i]@, 0),
{
    let a: Vec<u8> = vec![
        0x16, 0x00, 0x17, 0x00, 0xf4, 0x03, 0xea, 0x03, 0x01, 0x00, 0x00, 0x01, 0x08, 0x00, 0x1f, 0x00,
        0x00, 0x00, 0x01, 0x00, 0xea, 0x03,
    ];
    let b: Vec<u8> = vec![
        0x1a, 0x00, 0x17, 0x00, 0xf4, 0x03, 0xea, 0x03, 0x01, 0x00, 0x00, 0x01, 0x0c, 0x00, 0x14, 0x00,
        0x00, 0x00, 0x04, 0x00, 0x00, 0x00, 0x00, 0x00, 0x00, 0x00,
    ];
    let c: Vec<u8> = vec![
        0x1a, 0x00, 0x17, 0x00, 0xf4, 0x03, 0xea, 0x03, 0x01, 0x00, 0x00, 0x01, 0x0c, 0x00, 0x14, 0x00,
        0x00, 0x00, 0x01, 0x00, 0x00, 0x00, 0x00, 0x00, 0x00, 0x00,
    ];
    let d: Vec<u8> = vec![
        0x1a, 0x00, 0x17, 0x00, 0xf4, 0x03, 0xea, 0x03, 0x01, 0x00, 0x00, 0x01, 0x00, 0x00, 0x27, 0x00,
        0x00, 0x00, 0x00, 0x00, 0x00, 0x00, 0x03, 0x00, 0x32, 0x00,
    ];
    proof {
        assert(a@ =~= wlc_controls()[0]);
        assert(b@ =~= wlc_controls()[1]);
        assert(c@ =~= wlc_controls()[2]);
        assert(d@ =~= wlc_controls()[3]);
    }
    let mut r: Vec<Vec<u8>> = Vec::new();
    r.push(a);
    r.push(b);
    r.push(c);
    r.push(d);
    assert(contents(r@) =~= wlc_controls());
    r
}

/// How long the body of a persistent key list is.
pub const KEY_LIST_BODY: u16 = 24;

/// An empty Persistent Bitmap Cache Key List PDU in a share control header (total
/// length, type, source, share id) and a share data header (stream, uncompressed
/// length, type); its body has no entries and says that it is the first and last.
pub open spec fn empty_key_list(pdu_source: u16, share_id: u32) -> Seq<u8> {
    bytes16(42) + bytes16(0x17) + bytes16(pdu_source) + bytes32(share_id) + seq![0u8, 2] + bytes16(
        28,
    ) + seq![0x2bu8, 0] + bytes16(0) + zero_bytes(20) + seq![0x03u8] + zero_bytes(3)
}

/// Build an empty Persistent Bitmap Cache Key List PDU. A server that expects one
/// may withhold all graphics until it receives it; an empty list tells it that
/// nothing is cached.
pub fn persistent_key_list(pdu_source: u16, share_id: u32) -> (v: Vec<u8>)
    ensures
        v@ == empty_key_list(pdu_source, share_id),
        v@.len() == 18 + KEY_LIST_BODY,
        le16_at(v@, 0) == v@.len(),
{
    let mut v: Vec<u8> = Vec::new();
    push_u16(&mut v, 18 + KEY_LIST_BODY);  // total length
    push_u16(&mut v, 0x10 + 0x07);  // protocol version, data PDU
    push_u16(&mut v, pdu_source);
    push_u32(&mut v, share_id);
    v.push(0);  // pad
    v.push(2);  // stream
    push_u16(&mut v, KEY_LIST_BODY + 4);  // uncompressed length
    v.push(0x2b);  // persistent key list
    v.push(0);  // compression flags
    push_u16(&mut v, 0);  // compressed length
    push_zeros(&mut v, 20);  // no entries
    v.push(0x03);  // first and last
    push_zeros(&mut v, 3);
    assert(v@ =~= empty_key_list(pdu_source, share_id));
    proof {
        lemma_bytes16(42);
    }
    v
}

} // verus!
