//! The diagnostics: what each outcome of a check means, and the report.

use sccm_rc::diag::checks::{
    account_name, cmrcservice_state, group_matches_sccm_rc, logon_enumeration_failure,
    logon_failure, network_logon_right, permitted_viewers, service_failure, service_state,
    target_address, tcp_reachable, LogonOutcome, ServiceOutcome, TcpOutcome, ViewersOutcome,
    LOGON_ADD, LOGON_RESTORE, SERVICE_MISSING, TCP_CAUSES, TCP_DROPPED, VIEWERS_MISSING,
};
use sccm_rc::diag::report::{any_blocker, describe, exit_code, json_escape, to_json};
use sccm_rc::diag::{to_wide, unc_target, CheckResult, Severity};

#[test]
fn groups_of_permitted_viewers_are_recognised() {
    assert!(group_matches_sccm_rc("ConfigMgr Remote Control Users"));
    assert!(group_matches_sccm_rc("configmgr-gebruikers voor BEHEER op afstand"));
    assert!(group_matches_sccm_rc("ConfigMgr users"));
    assert!(group_matches_sccm_rc("ConfigMgr"));
    assert!(group_matches_sccm_rc("Utilisateurs du contr\u{f4}le \u{e0} distance ConfigMgr"));
    assert!(!group_matches_sccm_rc("Config Mgr Remote Control Users"));
    assert!(!group_matches_sccm_rc("Remote Desktop Users"));
}

#[test]
fn tcp_outcomes() {
    assert_eq!(target_address("pc"), "pc:2701");
    let r = tcp_reachable("pc", TcpOutcome::Connected("1ms".to_string()), 5);
    assert_eq!((r.name, r.severity, r.duration_ns), ("tcp_2701", Severity::Pass, 5));
    assert_eq!(r.message, "Target reachable at pc:2701 (1ms)");
    assert_eq!(r.remediation, None);
    let r = tcp_reachable("pc", TcpOutcome::Failed("refused".to_string()), 0);
    assert_eq!(r.severity, Severity::Blocker);
    assert_eq!(r.message, "Cannot connect to pc:2701: refused");
    assert_eq!(r.remediation.as_deref(), Some(TCP_CAUSES));
    let r = tcp_reachable("pc", TcpOutcome::TimedOut, 0);
    assert_eq!(r.message, "Connect to pc:2701 timed out after 3s");
    assert_eq!(r.remediation.as_deref(), Some(TCP_DROPPED));
}

#[test]
fn service_outcomes() {
    let message = |o: ServiceOutcome| {
        let r = cmrcservice_state("pc", o, 0);
        (r.severity, r.message)
    };
    assert_eq!(
        message(service_state(4)),
        (Severity::Pass, "CmRcService on pc is RUNNING".to_string())
    );
    assert_eq!(
        message(service_state(1)),
        (Severity::Blocker, "CmRcService on pc is STOPPED".to_string())
    );
    assert_eq!(message(service_state(2)).0, Severity::Warning);
    assert_eq!(
        message(service_state(7)),
        (Severity::Warning, "CmRcService on pc is in state code 7 (not RUNNING)".to_string())
    );
    let failed = |code: u32, opening: bool| {
        service_failure(code, opening, "e".to_string(), "0x1".to_string())
    };
    assert_eq!(
        message(failed(1060, true)),
        (Severity::Blocker, "CmRcService does not exist on pc".to_string())
    );
    assert_eq!(message(failed(5, false)).0, Severity::Warning);
    assert!(message(failed(5, true)).1.starts_with("Access denied querying SCM on pc"));
    assert_eq!(
        message(failed(1060, false)).1,
        "Could not query SCM on pc: e (HRESULT 0x1)"
    );
    assert_eq!(
        message(ServiceOutcome::Broken("x".to_string())).1,
        "Internal: blocking task panicked: x"
    );
    assert_eq!(
        cmrcservice_state("pc", ServiceOutcome::NotInstalled, 0).remediation.as_deref(),
        Some(SERVICE_MISSING)
    );
}

#[test]
fn logon_rights() {
    assert_eq!(account_name("", "bob"), "bob");
    assert_eq!(account_name("CORP", "bob"), "CORP\\bob");
    let names = vec!["CORP\\Bob".to_string(), "Everyone".to_string()];
    let r = network_logon_right("pc", "bob", LogonOutcome::Accounts(names), 0);
    assert_eq!(r.severity, Severity::Warning);
    assert_eq!(
        r.message,
        "Accounts on pc with 'Access this computer from the network' right:\n  - CORP\\Bob\n  - Everyone\n\nViewer user 'bob' directly listed: YES"
    );
    assert_eq!(r.remediation.as_deref(), Some(LOGON_ADD));
    let r = network_logon_right("pc", "eve", logon_enumeration_failure(0xC0000034, 2, String::new()), 0);
    assert_eq!(r.severity, Severity::Blocker);
    assert!(r.message.ends_with("directly listed: NO (but may be via group nesting)"));
    assert_eq!(r.remediation.as_deref(), Some(LOGON_RESTORE));
    let r = network_logon_right("pc", "eve", logon_failure(5, "e".to_string()), 0);
    assert_eq!(r.message, "Access denied opening LSA policy on pc");
    let r = network_logon_right("pc", "eve", logon_failure(6, "e".to_string()), 0);
    assert_eq!(r.message, "Could not enumerate via LSA on pc: e");
    let r = network_logon_right("pc", "eve", LogonOutcome::Broken("b".to_string()), 0);
    assert_eq!(r.message, "Internal: b");
}

#[test]
fn viewer_groups() {
    let members = ViewersOutcome::Members("G".to_string(), vec!["x\\eve".to_string()]);
    let r = permitted_viewers("pc", "EVE", members, 0);
    assert_eq!(r.severity, Severity::Warning);
    assert_eq!(
        r.message,
        "Members of 'G' on pc:\n  - x\\eve\n\nViewer user 'EVE' directly listed: YES"
    );
    let r = permitted_viewers("pc", "eve", ViewersOutcome::Members("G".to_string(), vec![]), 0);
    assert!(r.message.contains("no one can use SCCM RC"));
    let r = permitted_viewers("pc", "eve", ViewersOutcome::NoGroup, 0);
    assert_eq!(r.severity, Severity::Blocker);
    assert_eq!(r.remediation.as_deref(), Some(VIEWERS_MISSING));
    let r = permitted_viewers("pc", "eve", ViewersOutcome::Failed("f".to_string()), 0);
    assert_eq!(r.message, "Could not enumerate local groups on pc: f");
    let r = permitted_viewers("pc", "eve", ViewersOutcome::Broken("f".to_string()), 0);
    assert_eq!(r.message, "Internal: f");
}

#[test]
fn reports() {
    assert_eq!(json_escape("a\\b\"c\r\n"), "a\\\\b\\\"c\\r\\n");
    let ok = CheckResult::ok("a", "fine".to_string(), 2_500_000);
    let bad = CheckResult::blocker("b", "no\nway".to_string(), "fix \"it\"".to_string(), 0);
    let warn = CheckResult::warning("c", "hm".to_string(), "look".to_string(), 0);
    assert!(!any_blocker(&[ok.clone(), warn]));
    let all = [ok, bad];
    assert!(any_blocker(&all));
    assert_eq!(exit_code(&all), 2);
    assert_eq!(exit_code(&[]), 0);
    assert_eq!(exit_code(&all[..1]), 0);
    assert_eq!(
        to_json(&all),
        "[\n  {\"name\":\"a\",\"severity\":\"ok\",\"message\":\"fine\",\"remediation\":null,\"duration_ms\":2},\n  {\"name\":\"b\",\"severity\":\"blocker\",\"message\":\"no\\nway\",\"remediation\":\"fix \\\"it\\\"\",\"duration_ms\":0}\n]\n"
    );
    assert_eq!(to_json(&[]), "[\n]\n");
    assert_eq!(describe(&all[0], "2ms"), "[  OK   ] a  (2ms)\n        fine\n\n");
    assert_eq!(
        describe(&all[1], "0ns"),
        "[BLOCKER] b  (0ns)\n        no\n        way\n        \u{2192} Remediation:\n            fix \"it\"\n\n"
    );
}

#[test]
fn wide_strings() {
    assert_eq!(to_wide("a"), [97, 0]);
    let unc: String = String::from_utf16(&unc_target("pc")).unwrap();
    assert_eq!(unc, "\\\\pc\0");
}
