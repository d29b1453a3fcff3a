//! Pre-flight diagnostics for remote-control targets: what the outcome of each
//! check means, so that a viewer can show why connecting will fail before it is
//! even tried, and support staff can run the checks without a viewer at all.

pub mod checks;
pub mod laws;
pub mod report;

use crate::text::parse::{trim, trimmed};
use crate::text::{
    chars_of, encode_utf16, eq_ignoring_case, same_ignoring_case, same_text, string_of, utf16,
};
use vstd::prelude::*;

verus! {

#[derive(Debug, Clone, Copy, PartialEq, Eq, Structural)]
pub enum Severity {
    Pass,
    Warning,
    Blocker,
}

/// What came of a check.
#[derive(Debug, Clone)]
pub struct CheckResult {
    pub name: &'static str,
    pub severity: Severity,
    pub message: String,
    pub remediation: Option<String>,
    pub duration_ns: u64,
}

/// What came of a check.
#[verifier::ext_equal]
pub struct CheckView {
    pub name: Seq<char>,
    pub severity: Severity,
    pub message: Seq<char>,
    pub remediation: Option<Seq<char>>,
    pub duration_ns: u64,
}

impl View for CheckResult {
    type V = CheckView;

    open spec fn view(&self) -> CheckView {
        CheckView {
            name: self.name@,
            severity: self.severity,
            message: self.message@,
            remediation: match self.remediation {
                Some(r) => Some(r@),
                None => None,
            },
            duration_ns: self.duration_ns,
        }
    }
}

impl CheckResult {
    pub fn ok(name: &'static str, msg: String, duration_ns: u64) -> (r: Self)
        ensures
            r@ == (CheckView {
                name: name@,
                severity: Severity::Pass,
                message: msg@,
                remediation: None,
                duration_ns,
            }),
    {
        CheckResult { name, severity: Severity::Pass, message: msg, remediation: None, duration_ns }
    }

    pub fn blocker(
        name: &'static str,
        msg: String,
        remediation: String,
        duration_ns: u64,
    ) -> (r: Self)
        ensures
            r@ == (CheckView {
                name: name@,
                severity: Severity::Blocker,
                message: msg@,
                remediation: Some(remediation@),
                duration_ns,
            }),
    {
        CheckResult {
            name,
            severity: Severity::Blocker,
            message: msg,
            remediation: Some(remediation),
            duration_ns,
        }
    }

    pub fn warning(
        name: &'static str,
        msg: String,
        remediation: String,
        duration_ns: u64,
    ) -> (r: Self)
        ensures
            r@ == (CheckView {
                name: name@,
                severity: Severity::Warning,
                message: msg@,
                remediation: Some(remediation@),
                duration_ns,
            }),
    {
        CheckResult {
            name,
            severity: Severity::Warning,
            message: msg,
            remediation: Some(remediation),
            duration_ns,
        }
    }
}

/// A null-terminated UTF-16 text.
pub open spec fn wide(s: Seq<char>) -> Seq<u16> {
    utf16(s).push(0)
}

/// Convert a string to null-terminated UTF-16, as wide-string system calls take it.
pub fn to_wide(s: &str) -> (r: Vec<u16>)
    ensures
        r@ == wide(s@),
{
    let mut v: Vec<u16> = encode_utf16(s);
    v.push(0);
    v
}

/// Whether a host name means the local machine.
pub open spec fn is_local(host: Seq<char>) -> bool {
    let t = trimmed(host);
    t.len() == 0 || same_ignoring_case(t, "localhost"@) || t == "127.0.0.1"@ || t == "::1"@
}

/// Build the `\\HOST` target that the remote system calls take. The local machine
/// is an empty text.
pub fn unc_target(host: &str) -> (r: Vec<u16>)
    ensures
        r@ == (if is_local(host@) {
            wide(""@)
        } else {
            wide("\\\\"@ + trimmed(host@))
        }),
{
    let chars: Vec<char> = chars_of(host);
    let t: String = string_of(trim(chars.as_slice()));
    proof {
        reveal_strlit("");
        assert(t@.len() == 0 <==> t@ =~= ""@);
    }
    if same_text(t.as_str(), "") || eq_ignoring_case(t.as_str(), "localhost") || same_text(
        t.as_str(),
        "127.0.0.1",
    ) || same_text(t.as_str(), "::1") {
        to_wide("")
    } else {
        let mut s = String::from_str("\\\\");
        s.append(t.as_str());
        to_wide(s.as_str())
    }
}

} // verus!
