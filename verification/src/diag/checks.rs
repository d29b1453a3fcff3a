//! The individual checks: from what was found out to what it means.

use crate::diag::{CheckResult, CheckView, Severity};
use crate::protocol::transport::SCCM_RC_PORT;
use crate::text::parse::{contains, find, occurs, pieces, split, texts};
use crate::text::{
    chars_of, decimal, eq_ignoring_case, lower, lower_char, push_decimal, push_text,
    same_ignoring_case, string_of, strings_of,
};
use vstd::prelude::*;

verus! {

/// A text with the ASCII letters in lower case.
pub open spec fn lowered(s: Seq<char>) -> Seq<char> {
    s.map_values(|c: char| lower(c))
}

/// Whether a local group's name is that of the permitted viewers. The name is
/// localized per system language, so any name that holds "ConfigMgr" counts, in
/// whatever case and whatever accents stand in the rest of it.
pub open spec fn names_permitted_viewers(name: Seq<char>) -> bool {
    occurs(lowered(name), "configmgr"@)
}

/// Whether a local group is that of the permitted viewers.
pub fn group_matches_sccm_rc(name: &str) -> (r: bool)
    ensures
        r == names_permitted_viewers(name@),
{
    let chars: Vec<char> = chars_of(name);
    let mut low: Vec<char> = Vec::new();
    let mut i: usize = 0;
    while i < chars.len()
        invariant
            chars@ == name@,
            i <= chars@.len(),
            low@.len() == i,
            forall|k: int| 0 <= k < i ==> low@[k] == lower(name@[k]),
        decreases chars@.len() - i,
    {
        low.push(lower_char(chars[i]));
        i = i + 1;
    }
    assert(low@ =~= lowered(name@));
    contains(low.as_slice(), chars_of("configmgr").as_slice())
}

/// What came of connecting to the target's port.
pub enum TcpOutcome {
    /// It took as long as this text says.
    Connected(String),
    /// It failed with this error.
    Failed(String),
    /// Three seconds were not enough.
    TimedOut,
}

pub const TCP_CHECK: &'static str = "tcp_2701";

pub const TCP_CAUSES: &'static str = "Causes (in order of likelihood):\n1. Windows Firewall on target blocks TCP/2701 \u{2192} check `Get-NetFirewallRule -DisplayGroup 'Configuration Manager Remote Control'`\n2. CmRcService on target is not running \u{2192} see the cmrcservice check below\n3. Target is offline or hostname does not resolve";

pub const TCP_DROPPED: &'static str = "Likely a firewall silently dropping the SYN.";

/// The address that is connected to.
pub open spec fn address(target: Seq<char>) -> Seq<char> {
    target + ":"@ + decimal(SCCM_RC_PORT as nat)
}

/// What came of connecting means.
pub open spec fn tcp_check(target: Seq<char>, outcome: TcpOutcome, duration_ns: u64) -> CheckView {
    match outcome {
        TcpOutcome::Connected(elapsed) => CheckView {
            name: TCP_CHECK@,
            severity: Severity::Pass,
            message: "Target reachable at "@ + address(target) + " ("@ + elapsed@ + ")"@,
            remediation: None,
            duration_ns,
        },
        TcpOutcome::Failed(e) => CheckView {
            name: TCP_CHECK@,
            severity: Severity::Blocker,
            message: "Cannot connect to "@ + address(target) + ": "@ + e@,
            remediation: Some(TCP_CAUSES@),
            duration_ns,
        },
        TcpOutcome::TimedOut => CheckView {
            name: TCP_CHECK@,
            severity: Severity::Blocker,
            message: "Connect to "@ + address(target) + " timed out after 3s"@,
            remediation: Some(TCP_DROPPED@),
            duration_ns,
        },
    }
}

/// The address that is connected to.
pub fn target_address(target: &str) -> (s: String)
    ensures
        s@ == address(target@),
{
    let mut s = String::from_str(target);
    push_text(&mut s, ":");
    push_decimal(&mut s, SCCM_RC_PORT as u64);
    s
}

/// TCP/2701 reachability.
pub fn tcp_reachable(target: &str, outcome: TcpOutcome, duration_ns: u64) -> (r: CheckResult)
    ensures
        r@ == tcp_check(target@, outcome, duration_ns),
{
    let addr: String = target_address(target);
    match outcome {
        TcpOutcome::Connected(elapsed) => {
            let mut m = String::from_str("Target reachable at ");
            push_text(&mut m, addr.as_str());
            push_text(&mut m, " (");
            push_text(&mut m, elapsed.as_str());
            push_text(&mut m, ")");
            CheckResult::ok(TCP_CHECK, m, duration_ns)
        },
        TcpOutcome::Failed(e) => {
            let mut m = String::from_str("Cannot connect to ");
            push_text(&mut m, addr.as_str());
            push_text(&mut m, ": ");
            push_text(&mut m, e.as_str());
            CheckResult::blocker(TCP_CHECK, m, String::from_str(TCP_CAUSES), duration_ns)
        },
        TcpOutcome::TimedOut => {
            let mut m = String::from_str("Connect to ");
            push_text(&mut m, addr.as_str());
            push_text(&mut m, " timed out after 3s");
            CheckResult::blocker(TCP_CHECK, m, String::from_str(TCP_DROPPED), duration_ns)
        },
    }
}

/// What is known of the remote-control service.
pub enum ServiceOutcome {
    Running,
    Stopped,
    Starting,
    NotInstalled,
    /// Another state, by its code.
    Other(u32),
    AccessDenied,
    /// The query failed: the error, and its code as text.
    Failed(String, String),
    /// The query itself broke down.
    Broken(String),
}

/// The system's codes of service states.
pub const SERVICE_STOPPED: u32 = 1;

pub const SERVICE_START_PENDING: u32 = 2;

pub const SERVICE_RUNNING: u32 = 4;

/// The system's error codes that checks tell apart.
pub const ERROR_ACCESS_DENIED: u32 = 5;

pub const ERROR_SERVICE_DOES_NOT_EXIST: u32 = 1060;

/// What the code of a service's state means.
pub fn service_state(code: u32) -> (r: ServiceOutcome)
    ensures
        r == (if code == SERVICE_RUNNING {
            ServiceOutcome::Running
        } else if code == SERVICE_STOPPED {
            ServiceOutcome::Stopped
        } else if code == SERVICE_START_PENDING {
            ServiceOutcome::Starting
        } else {
            ServiceOutcome::Other(code)
        }),
{
    if code == SERVICE_RUNNING {
        ServiceOutcome::Running
    } else if code == SERVICE_STOPPED {
        ServiceOutcome::Stopped
    } else if code == SERVICE_START_PENDING {
        ServiceOutcome::Starting
    } else {
        ServiceOutcome::Other(code)
    }
}

/// What a failed query means. `opening` tells that it failed when the service was
/// opened; then it may be that there is none.
pub fn service_failure(code: u32, opening: bool, error: String, code_text: String) -> (r:
    ServiceOutcome)
    ensures
        r == (if opening && code == ERROR_SERVICE_DOES_NOT_EXIST {
            ServiceOutcome::NotInstalled
        } else if code == ERROR_ACCESS_DENIED {
            ServiceOutcome::AccessDenied
        } else {
            ServiceOutcome::Failed(error, code_text)
        }),
{
    if opening && code == ERROR_SERVICE_DOES_NOT_EXIST {
        ServiceOutcome::NotInstalled
    } else if code == ERROR_ACCESS_DENIED {
        ServiceOutcome::AccessDenied
    } else {
        ServiceOutcome::Failed(error, code_text)
    }
}

pub const SERVICE_CHECK: &'static str = "cmrcservice";

pub const SERVICE_START_IT: &'static str = "Start it: on the target, run `Start-Service CmRcService`.\nIf it won't start, check Event Viewer for SMS Agent Host errors;\na common cause is WMI namespace corruption (error 80041010) \u{2014}\nfix with `mofcomp \"C:\\Windows\\System32\\WBEM\\rcprov.mof\"`.";

pub const SERVICE_HUNG: &'static str = "If it stays in this state, the service is hung. Restart it.";

pub const SERVICE_DETAILS: &'static str = "Check `Get-Service -ComputerName <target> CmRcService` for details.";

pub const SERVICE_MISSING: &'static str = "Either the SCCM client agent is not installed, or this target\nhas Remote Control disabled at the client-settings level.";

pub const SERVICE_DENIED: &'static str = "This is informational \u{2014} the SCCM RC connection itself may still work\nif the user has Remote Control rights via a different mechanism.\nTo enable the check, run as a target admin or via a delegated SCM ACL.";

pub const SERVICE_BLOCKED: &'static str = "Remote SCM/RPC may be blocked by firewall (ports 135 + dynamic RPC).\nThis check is best-effort and does not block the actual viewer connection.";

pub const SERVICE_BUG: &'static str = "Report this as a bug.";

/// The severity, the message and the remediation of a state of the service.
pub open spec fn service_verdict(target: Seq<char>, outcome: ServiceOutcome) -> (
    Severity,
    Seq<char>,
    Option<Seq<char>>,
) {
    match outcome {
        ServiceOutcome::Running => (
            Severity::Pass,
            "CmRcService on "@ + target + " is RUNNING"@,
            None,
        ),
        ServiceOutcome::Stopped => (
            Severity::Blocker,
            "CmRcService on "@ + target + " is STOPPED"@,
            Some(SERVICE_START_IT@),
        ),
        ServiceOutcome::Starting => (
            Severity::Warning,
            "CmRcService on "@ + target
                + " is in START_PENDING \u{2014} wait a moment and retry"@,
            Some(SERVICE_HUNG@),
        ),
        ServiceOutcome::Other(code) => (
            Severity::Warning,
            "CmRcService on "@ + target + " is in state code "@ + decimal(code as nat)
                + " (not RUNNING)"@,
            Some(SERVICE_DETAILS@),
        ),
        ServiceOutcome::NotInstalled => (
            Severity::Blocker,
            "CmRcService does not exist on "@ + target + ""@,
            Some(SERVICE_MISSING@),
        ),
        ServiceOutcome::AccessDenied => (
            Severity::Warning,
            "Access denied querying SCM on "@ + target
                + " \u{2014} you may lack admin on the target"@,
            Some(SERVICE_DENIED@),
        ),
        ServiceOutcome::Failed(e, code) => (
            Severity::Warning,
            "Could not query SCM on "@ + target + ": "@ + e@ + " (HRESULT "@ + code@ + ")"@,
            Some(SERVICE_BLOCKED@),
        ),
        ServiceOutcome::Broken(e) => (
            Severity::Warning,
            "Internal: blocking task panicked: "@ + e@,
            Some(SERVICE_BUG@),
        ),
    }
}

/// A check of the given name with a verdict.
pub open spec fn verdict_of(
    name: Seq<char>,
    v: (Severity, Seq<char>, Option<Seq<char>>),
    duration_ns: u64,
) -> CheckView {
    CheckView { name, severity: v.0, message: v.1, remediation: v.2, duration_ns }
}

/// A text around a target.
fn about(before: &str, target: &str, after: &str) -> (s: String)
    ensures
        s@ == before@ + target@ + after@,
{
    let mut s = String::from_str(before);
    push_text(&mut s, target);
    push_text(&mut s, after);
    s
}

/// The running state of the remote-control service on the target.
pub fn cmrcservice_state(target: &str, outcome: ServiceOutcome, duration_ns: u64) -> (r:
    CheckResult)
    ensures
        r@ == verdict_of(SERVICE_CHECK@, service_verdict(target@, outcome), duration_ns),
{
    match outcome {
        ServiceOutcome::Running => CheckResult::ok(
            SERVICE_CHECK,
            about("CmRcService on ", target, " is RUNNING"),
            duration_ns,
        ),
        ServiceOutcome::Stopped => CheckResult::blocker(
            SERVICE_CHECK,
            about("CmRcService on ", target, " is STOPPED"),
            String::from_str(SERVICE_START_IT),
            duration_ns,
        ),
        ServiceOutcome::Starting => CheckResult::warning(
            SERVICE_CHECK,
            about(
                "CmRcService on ",
                target,
                " is in START_PENDING \u{2014} wait a moment and retry",
            ),
            String::from_str(SERVICE_HUNG),
            duration_ns,
        ),
        ServiceOutcome::Other(code) => {
            let mut m = about("CmRcService on ", target, " is in state code ");
            push_decimal(&mut m, code as u64);
            push_text(&mut m, " (not RUNNING)");
            CheckResult::warning(
                SERVICE_CHECK,
                m,
                String::from_str(SERVICE_DETAILS),
                duration_ns,
            )
        },
        ServiceOutcome::NotInstalled => CheckResult::blocker(
            SERVICE_CHECK,
            about("CmRcService does not exist on ", target, ""),
            String::from_str(SERVICE_MISSING),
            duration_ns,
        ),
        ServiceOutcome::AccessDenied => CheckResult::warning(
            SERVICE_CHECK,
            about(
                "Access denied querying SCM on ",
                target,
                " \u{2014} you may lack admin on the target",
            ),
            String::from_str(SERVICE_DENIED),
            duration_ns,
        ),
        ServiceOutcome::Failed(e, code) => {
            let mut m = about("Could not query SCM on ", target, ": ");
            push_text(&mut m, e.as_str());
            push_text(&mut m, " (HRESULT ");
            push_text(&mut m, code.as_str());
            push_text(&mut m, ")");
            CheckResult::warning(
                SERVICE_CHECK,
                m,
                String::from_str(SERVICE_BLOCKED),
                duration_ns,
            )
        },
        ServiceOutcome::Broken(e) => {
            let mut m = String::from_str("Internal: blocking task panicked: ");
            push_text(&mut m, e.as_str());
            CheckResult::warning(SERVICE_CHECK, m, String::from_str(SERVICE_BUG), duration_ns)
        },
    }
}

/// The account's own part of a name `DOMAIN\account`.
pub open spec fn own_part(name: Seq<char>) -> Seq<char> {
    pieces(name, '\\').last()
}

/// Whether a name is that of a user, with or without the domain.
pub open spec fn is_user(name: Seq<char>, user: Seq<char>) -> bool {
    same_ignoring_case(name, user) || same_ignoring_case(own_part(name), user)
}

/// Whether a user is among names.
pub open spec fn lists_user(names: Seq<Seq<char>>, user: Seq<char>) -> bool {
    exists|i: int| 0 <= i < names.len() && is_user(#[trigger] names[i], user)
}

proof fn lemma_pieces(s: Seq<char>, c: char)
    ensures
        pieces(s, c).len() > 0,
    decreases s.len(),
{
    match find(s, c, 0) {
        Some(i) => {
            if 0 <= i < s.len() {
                lemma_pieces(s.skip(i + 1), c);
            }
        },
        None => {},
    }
}

fn names_user(name: &str, user: &str) -> (r: bool)
    ensures
        r == is_user(name@, user@),
{
    if eq_ignoring_case(name, user) {
        return true;
    }
    let parts: Vec<Vec<char>> = split(chars_of(name).as_slice(), '\\');
    proof {
        lemma_pieces(name@, '\\');
        assert(texts(parts@).len() == parts@.len());
        assert(texts(parts@).last() == parts@[parts@.len() - 1]@);
    }
    let own: String = string_of(parts[parts.len() - 1].as_slice());
    eq_ignoring_case(own.as_str(), user)
}

fn any_names_user(names: &Vec<String>, user: &str) -> (r: bool)
    ensures
        r == lists_user(strings_of(names@), user@),
{
    let mut i: usize = 0;
    while i < names.len()
        invariant
            i <= names@.len(),
            forall|k: int| 0 <= k < i ==> !is_user(#[trigger] strings_of(names@)[k], user@),
        decreases names@.len() - i,
    {
        if names_user(names[i].as_str(), user) {
            assert(is_user(strings_of(names@)[i as int], user@));
            return true;
        }
        i = i + 1;
    }
    false
}

/// Names as a list, one on a line.
pub open spec fn bullets(names: Seq<Seq<char>>) -> Seq<char>
    decreases names.len(),
{
    if names.len() == 0 {
        Seq::empty()
    } else if names.len() == 1 {
        "  - "@ + names[0]
    } else {
        bullets(names.drop_last()) + "\n"@ + "  - "@ + names.last()
    }
}

fn bullet_list(names: &Vec<String>) -> (s: String)
    ensures
        s@ == bullets(strings_of(names@)),
{
    let mut s = String::new();
    let mut i: usize = 0;
    let ghost all = strings_of(names@);
    assert(s@ =~= bullets(all.take(0)));
    while i < names.len()
        invariant
            i <= names@.len(),
            all == strings_of(names@),
            s@ == bullets(all.take(i as int)),
        decreases names@.len() - i,
    {
        let ghost before = all.take(i as int);
        if i > 0 {
            push_text(&mut s, "\n");
        }
        push_text(&mut s, "  - ");
        push_text(&mut s, names[i].as_str());
        i = i + 1;
        proof {
            let t = all.take(i as int);
            assert(t.drop_last() =~= before);
            assert(s@ =~= bullets(t));
        }
    }
    assert(all.take(i as int) =~= all);
    s
}

/// The qualified name of an account.
pub fn account_name(domain: &str, name: &str) -> (s: String)
    ensures
        s@ == (if domain@.len() == 0 {
            name@
        } else {
            domain@ + "\\"@ + name@
        }),
{
    if chars_of(domain).len() == 0 {
        return String::from_str(name);
    }
    about(domain, "\\", name)
}

/// What is known of the accounts that may log on over the network.
pub enum LogonOutcome {
    Accounts(Vec<String>),
    AccessDenied,
    Failed(String),
    Broken(String),
}

pub const LOGON_CHECK: &'static str = "se_network_logon_right";

pub const LOGON_NOBODY: &'static str = "  (no accounts have this right \u{2014} RC will fail for everyone)";

pub const LOGON_ADD: &'static str = "If your user (or a group they're in) is NOT in the list above,\nSCCM RC will fail silently. Add the user/group via:\n`secpol.msc` \u{2192} Local Policies \u{2192} User Rights Assignment\n\u{2192} 'Access this computer from the network'.\nCIS / Microsoft Security Baselines often remove non-admin groups \u{2014}\ncreate a dedicated 'SCCM RC Operators' AD group and add it here.";

pub const LOGON_RESTORE: &'static str = "Restore the right via secpol.msc (see warning above).";

pub const LOGON_DENIED: &'static str = "LSA enumeration normally requires admin on the target.\nRun this diag tool as a target admin to verify.";

pub const LOGON_BLOCKED: &'static str = "Remote LSA / RPC may be blocked. This check is informational only.";

pub const CHECK_BUG: &'static str = "Report as a bug.";

/// Names as a list, or what stands for none.
pub open spec fn list_or(names: Seq<Seq<char>>, none: Seq<char>) -> Seq<char> {
    if names.len() == 0 {
        none
    } else {
        bullets(names)
    }
}

/// The list of those who have a right, and whether the viewer is among them.
pub open spec fn listing(
    heading: Seq<char>,
    list: Seq<char>,
    user: Seq<char>,
    listed: bool,
    otherwise: Seq<char>,
) -> Seq<char> {
    heading + list + "\n\nViewer user '"@ + user + "' directly listed: "@ + (if listed {
        "YES"@
    } else {
        otherwise
    })
}

/// The severity, the message and the remediation of what is known of the accounts.
pub open spec fn logon_verdict(target: Seq<char>, user: Seq<char>, outcome: LogonOutcome) -> (
    Severity,
    Seq<char>,
    Option<Seq<char>>,
) {
    match outcome {
        LogonOutcome::Accounts(v) => {
            let names = strings_of(v@);
            let message = listing(
                "Accounts on "@ + target
                    + " with 'Access this computer from the network' right:\n"@,
                list_or(names, LOGON_NOBODY@),
                user,
                lists_user(names, user),
                "NO (but may be via group nesting)"@,
            );
            if names.len() > 0 {
                (Severity::Warning, message, Some(LOGON_ADD@))
            } else {
                (Severity::Blocker, message, Some(LOGON_RESTORE@))
            }
        },
        LogonOutcome::AccessDenied => (
            Severity::Warning,
            "Access denied opening LSA policy on "@ + target + ""@,
            Some(LOGON_DENIED@),
        ),
        LogonOutcome::Failed(e) => (
            Severity::Warning,
            "Could not enumerate via LSA on "@ + target + ": "@ + e@,
            Some(LOGON_BLOCKED@),
        ),
        LogonOutcome::Broken(e) => (Severity::Warning, "Internal: "@ + e@, Some(CHECK_BUG@)),
    }
}

fn list_text(names: &Vec<String>, none: &str) -> (s: String)
    ensures
        s@ == list_or(strings_of(names@), none@),
{
    if names.len() == 0 {
        String::from_str(none)
    } else {
        bullet_list(names)
    }
}

fn listing_text(heading: String, list: &str, user: &str, listed: bool, otherwise: &str) -> (s:
    String)
    ensures
        s@ == listing(heading@, list@, user@, listed, otherwise@),
{
    let mut s = heading;
    push_text(&mut s, list);
    push_text(&mut s, "\n\nViewer user '");
    push_text(&mut s, user);
    push_text(&mut s, "' directly listed: ");
    if listed {
        push_text(&mut s, "YES");
    } else {
        push_text(&mut s, otherwise);
    }
    s
}

/// Who may log on to the target over the network. Whether the viewer's user is
/// among them through nested groups is not resolved: the raw list is presented, and
/// the human makes the comparison.
pub fn network_logon_right(
    target: &str,
    viewer_user: &str,
    outcome: LogonOutcome,
    duration_ns: u64,
) -> (r: CheckResult)
    ensures
        r@ == verdict_of(LOGON_CHECK@, logon_verdict(target@, viewer_user@, outcome), duration_ns),
{
    match outcome {
        LogonOutcome::Accounts(accounts) => {
            let list: String = list_text(&accounts, LOGON_NOBODY);
            let message: String = listing_text(
                about(
                    "Accounts on ",
                    target,
                    " with 'Access this computer from the network' right:\n",
                ),
                list.as_str(),
                viewer_user,
                any_names_user(&accounts, viewer_user),
                "NO (but may be via group nesting)",
            );
            if accounts.len() > 0 {
                CheckResult::warning(
                    LOGON_CHECK,
                    message,
                    String::from_str(LOGON_ADD),
                    duration_ns,
                )
            } else {
                CheckResult::blocker(
                    LOGON_CHECK,
                    message,
                    String::from_str(LOGON_RESTORE),
                    duration_ns,
                )
            }
        },
        LogonOutcome::AccessDenied => CheckResult::warning(
            LOGON_CHECK,
            about("Access denied opening LSA policy on ", target, ""),
            String::from_str(LOGON_DENIED),
            duration_ns,
        ),
        LogonOutcome::Failed(e) => {
            let mut m = about("Could not enumerate via LSA on ", target, ": ");
            push_text(&mut m, e.as_str());
            CheckResult::warning(LOGON_CHECK, m, String::from_str(LOGON_BLOCKED), duration_ns)
        },
        LogonOutcome::Broken(e) => {
            let mut m = String::from_str("Internal: ");
            push_text(&mut m, e.as_str());
            CheckResult::warning(LOGON_CHECK, m, String::from_str(CHECK_BUG), duration_ns)
        },
    }
}

/// What the failure to enumerate the accounts means.
pub fn logon_failure(code: u32, error: String) -> (r: LogonOutcome)
    ensures
        r == (if code == ERROR_ACCESS_DENIED {
            LogonOutcome::AccessDenied
        } else {
            LogonOutcome::Failed(error)
        }),
{
    if code == ERROR_ACCESS_DENIED {
        LogonOutcome::AccessDenied
    } else {
        LogonOutcome::Failed(error)
    }
}

/// The status with which the system says that no account has a right.
pub const STATUS_OBJECT_NAME_NOT_FOUND: u32 = 0xC0000034;

/// What a failed enumeration of the accounts means: that none has the right, or
/// that it is not known.
pub fn logon_enumeration_failure(status: u32, code: u32, error: String) -> (r: LogonOutcome)
    ensures
        if status == STATUS_OBJECT_NAME_NOT_FOUND {
            r matches LogonOutcome::Accounts(v) && v@.len() == 0
        } else if code == ERROR_ACCESS_DENIED {
            r is AccessDenied
        } else {
            r == LogonOutcome::Failed(error)
        },
{
    if status == STATUS_OBJECT_NAME_NOT_FOUND {
        LogonOutcome::Accounts(Vec::new())
    } else {
        logon_failure(code, error)
    }
}

/// What is known of the group of permitted viewers.
pub enum ViewersOutcome {
    /// The group's name and its members.
    Members(String, Vec<String>),
    NoGroup,
    Failed(String),
    Broken(String),
}

pub const VIEWERS_CHECK: &'static str = "permitted_viewers";

pub const VIEWERS_NOBODY: &'static str = "  (group is empty \u{2014} no one can use SCCM RC)";

pub const VIEWERS_ADD: &'static str = "If you (or a group you're in) is NOT in the list, RC will be rejected.\nAdd via SCCM Client Settings \u{2192} Remote Tools \u{2192} 'Permitted Viewers'\n(preferred \u{2014} pushes to all clients), or locally on the target:\n`net localgroup \"<group-name-above>\" DOMAIN\\user /add`";

pub const VIEWERS_MISSING: &'static str = "Either the SCCM client agent isn't installed, or Remote Control is\ndisabled in Client Settings (which suppresses the group creation).";

pub const VIEWERS_BLOCKED: &'static str = "Remote SAM may be blocked, or you lack rights to enumerate local groups.";

/// The severity, the message and the remediation of what is known of the group.
pub open spec fn viewers_verdict(target: Seq<char>, user: Seq<char>, outcome: ViewersOutcome) -> (
    Severity,
    Seq<char>,
    Option<Seq<char>>,
) {
    match outcome {
        ViewersOutcome::Members(group, v) => {
            let names = strings_of(v@);
            (
                Severity::Warning,
                listing(
                    "Members of '"@ + group@ + "' on "@ + target + ":\n"@,
                    list_or(names, VIEWERS_NOBODY@),
                    user,
                    lists_user(names, user),
                    "NO (but may be via nested group)"@,
                ),
                Some(VIEWERS_ADD@),
            )
        },
        ViewersOutcome::NoGroup => (
            Severity::Blocker,
            "No local group on "@ + target
                + " matches the ConfigMgr Remote Control Users pattern"@,
            Some(VIEWERS_MISSING@),
        ),
        ViewersOutcome::Failed(e) => (
            Severity::Warning,
            "Could not enumerate local groups on "@ + target + ": "@ + e@,
            Some(VIEWERS_BLOCKED@),
        ),
        ViewersOutcome::Broken(e) => (Severity::Warning, "Internal: "@ + e@, Some(CHECK_BUG@)),
    }
}

/// Who is in the group of permitted viewers on the target.
pub fn permitted_viewers(
    target: &str,
    viewer_user: &str,
    outcome: ViewersOutcome,
    duration_ns: u64,
) -> (r: CheckResult)
    ensures
        r@ == verdict_of(
            VIEWERS_CHECK@,
            viewers_verdict(target@, viewer_user@, outcome),
            duration_ns,
        ),
{
    match outcome {
        ViewersOutcome::Members(group, members) => {
            let list: String = list_text(&members, VIEWERS_NOBODY);
            let mut heading = about("Members of '", group.as_str(), "' on ");
            push_text(&mut heading, target);
            push_text(&mut heading, ":\n");
            let message: String = listing_text(
                heading,
                list.as_str(),
                viewer_user,
                any_names_user(&members, viewer_user),
                "NO (but may be via nested group)",
            );
            CheckResult::warning(
                VIEWERS_CHECK,
                message,
                String::from_str(VIEWERS_ADD),
                duration_ns,
            )
        },
        ViewersOutcome::NoGroup => CheckResult::blocker(
            VIEWERS_CHECK,
            about(
                "No local group on ",
                target,
                " matches the ConfigMgr Remote Control Users pattern",
            ),
            String::from_str(VIEWERS_MISSING),
            duration_ns,
        ),
        ViewersOutcome::Failed(e) => {
            let mut m = about("Could not enumerate local groups on ", target, ": ");
            push_text(&mut m, e.as_str());
            CheckResult::warning(VIEWERS_CHECK, m, String::from_str(VIEWERS_BLOCKED), duration_ns)
        },
        ViewersOutcome::Broken(e) => {
            let mut m = String::from_str("Internal: ");
            push_text(&mut m, e.as_str());
            CheckResult::warning(VIEWERS_CHECK, m, String::from_str(CHECK_BUG), duration_ns)
        },
    }
}

} // verus!
