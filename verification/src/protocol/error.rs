//! What can go wrong with a session.

use crate::text::push_text;
use vstd::prelude::*;

verus! {

/// An error of the protocol layers.
#[derive(Debug, Clone)]
pub enum Error {
    /// Input or output failed; carries what the system says.
    Io(String),
    /// The security package failed.
    Sspi(String),
    /// The peer does not follow the protocol.
    Protocol(String),
    /// The target does not accept the connection.
    Refused,
    /// The remote user said no.
    ArbitrationDenied,
    /// The remote user did not answer.
    ArbitrationTimeout,
    /// Another session is active on the target.
    ExistingSession,
}

/// What an error is about and its detail.
pub open spec fn describe(e: Error) -> Seq<char> {
    match e {
        Error::Io(s) => "io: "@ + s@,
        Error::Sspi(s) => "sspi: "@ + s@,
        Error::Protocol(s) => "protocol: "@ + s@,
        Error::Refused =>
            "connection refused \u{2014} target may not have CcmExec running, or TCP/2701 is blocked"@,
        Error::ArbitrationDenied => "session arbitration denied by remote user"@,
        Error::ArbitrationTimeout =>
            "session arbitration timed out (no response from remote user)"@,
        Error::ExistingSession =>
            "a remote-control session is already active on the target (possibly a previous session of yours that was not released)"@,
    }
}

fn joined(a: &str, b: &str) -> (r: String)
    ensures
        r@ == a@ + b@,
{
    let mut s = String::new();
    push_text(&mut s, a);
    push_text(&mut s, b);
    assert(s@ =~= a@ + b@);
    s
}

impl Error {
    /// The error as a line of text.
    pub fn message(&self) -> (r: String)
        ensures
            r@ == describe(*self),
    {
        match self {
            Error::Io(s) => joined("io: ", s.as_str()),
            Error::Sspi(s) => joined("sspi: ", s.as_str()),
            Error::Protocol(s) => joined("protocol: ", s.as_str()),
            Error::Refused => String::from_str(
                "connection refused \u{2014} target may not have CcmExec running, or TCP/2701 is blocked",
            ),
            Error::ArbitrationDenied => String::from_str(
                "session arbitration denied by remote user",
            ),
            Error::ArbitrationTimeout => String::from_str(
                "session arbitration timed out (no response from remote user)",
            ),
            Error::ExistingSession => String::from_str(
                "a remote-control session is already active on the target (possibly a previous session of yours that was not released)",
            ),
        }
    }
}

/// Whether `e` is a protocol error with the given detail.
pub open spec fn is_protocol(e: Error, detail: Seq<char>) -> bool {
    e matches Error::Protocol(s) && s@ == detail
}

/// Whether `e` is a security error with the given detail.
pub open spec fn is_sspi(e: Error, detail: Seq<char>) -> bool {
    e matches Error::Sspi(s) && s@ == detail
}

/// Whether `e` is an input error with the given detail.
pub open spec fn is_io(e: Error, detail: Seq<char>) -> bool {
    e matches Error::Io(s) && s@ == detail
}

pub fn protocol_error(detail: &str) -> (e: Error)
    ensures
        is_protocol(e, detail@),
{
    Error::Protocol(String::from_str(detail))
}

pub fn sspi_error(detail: &str) -> (e: Error)
    ensures
        is_sspi(e, detail@),
{
    Error::Sspi(String::from_str(detail))
}

/// A protocol error about something the peer said.
pub fn protocol_error_about(what: &str, said: &str) -> (e: Error)
    ensures
        is_protocol(e, what@ + said@),
{
    Error::Protocol(joined(what, said))
}

} // verus!
