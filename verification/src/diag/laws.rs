//! What the checks conclude, and how a report says it.

use crate::diag::checks::{
    address, bullets, is_user, lists_user, logon_verdict, names_permitted_viewers, own_part,
    service_verdict, tcp_check, viewers_verdict, LogonOutcome, ServiceOutcome, TcpOutcome,
    ViewersOutcome,
};
use crate::diag::report::{
    block, blocked, escaped, escaped_char, indented, json_lines, json_object,
};
use crate::diag::{is_local, wide, CheckResult, CheckView, Severity};
use crate::text::laws::law_pieces_are_glued_together;
use crate::text::parse::{find, lemma_find, lines_in, occurs, pieces, trimmed};
use crate::text::{decimal, lower, same_ignoring_case, utf16};
use vstd::prelude::*;

verus! {

/// Only a target that is connected to passes; otherwise nothing works.
pub proof fn law_unreachable_targets_block(target: Seq<char>, outcome: TcpOutcome, ns: u64)
    ensures
        tcp_check(target, outcome, ns).severity == (if outcome is Connected {
            Severity::Pass
        } else {
            Severity::Blocker
        }),
        tcp_check(target, outcome, ns).duration_ns == ns,
        tcp_check(target, outcome, ns).remediation is None <==> outcome is Connected,
        address(target) == target + ":"@ + decimal(2701),
{
}

/// Only a running service passes; one that is stopped or missing blocks, and what cannot be
/// told is a warning.
pub proof fn law_service_verdicts(target: Seq<char>, outcome: ServiceOutcome)
    ensures
        service_verdict(target, outcome).0 == (if outcome is Running {
            Severity::Pass
        } else if outcome is Stopped || outcome is NotInstalled {
            Severity::Blocker
        } else {
            Severity::Warning
        }),
        service_verdict(target, outcome).2 is None <==> outcome is Running,
{
}

/// That nobody has the right blocks; otherwise the check never passes or blocks by itself.
pub proof fn law_logon_verdicts(target: Seq<char>, user: Seq<char>, outcome: LogonOutcome)
    ensures
        logon_verdict(target, user, outcome).0 == (if (outcome matches LogonOutcome::Accounts(v)
            && v@.len() == 0) {
            Severity::Blocker
        } else {
            Severity::Warning
        }),
        logon_verdict(target, user, outcome).2 is Some,
{
}

/// That there is no such group blocks; what is known or not known of its members is a
/// warning.
pub proof fn law_viewers_verdicts(target: Seq<char>, user: Seq<char>, outcome: ViewersOutcome)
    ensures
        viewers_verdict(target, user, outcome).0 == (if outcome is NoGroup {
            Severity::Blocker
        } else {
            Severity::Warning
        }),
        viewers_verdict(target, user, outcome).2 is Some,
{
}

/// The account's own part of a name is what stands behind its last backslash.
pub proof fn law_own_parts(domain: Seq<char>, name: Seq<char>)
    requires
        forall|i: int| 0 <= i < name.len() ==> name[i] != '\\',
    ensures
        own_part(name) == name,
        own_part(domain + seq!['\\'] + name) == name,
    decreases domain.len(),
{
    lemma_find(name, '\\', 0);
    assert(find(name, '\\', 0) is None);
    assert(pieces(name, '\\') =~= seq![name]);
    let s = domain + seq!['\\'] + name;
    lemma_find(s, '\\', 0);
    assert(s[domain.len() as int] == '\\');
    let i = find(s, '\\', 0)->0;
    assert(find(s, '\\', 0) is Some);
    let rest = s.skip(i + 1);
    let p = pieces(rest, '\\');
    law_pieces_are_glued_together(rest, '\\');
    assert(pieces(s, '\\') == seq![s.take(i)] + p);
    assert(pieces(s, '\\').last() == p.last());
    if i < domain.len() {
        let d = domain.skip(i + 1);
        assert(rest =~= d + seq!['\\'] + name);
        law_own_parts(d, name);
    } else {
        assert(rest =~= name);
    }
}

/// A user is found under the plain name or behind a domain, in whatever case, and wherever
/// the name stands in the list.
pub proof fn law_users_are_found(names: Seq<Seq<char>>, k: int, domain: Seq<char>, user: Seq<char>)
    requires
        0 <= k < names.len(),
        forall|i: int| 0 <= i < user.len() ==> user[i] != '\\',
        names[k] == user || names[k] == domain + seq!['\\'] + user,
    ensures
        lists_user(names, user),
{
    law_own_parts(domain, user);
    assert(same_ignoring_case(user, user));
    assert(is_user(names[k], user));
}

/// A user that is no name of the list is not found in it.
pub proof fn law_strangers_are_not_found(names: Seq<Seq<char>>, user: Seq<char>)
    requires
        forall|k: int|
            0 <= k < names.len() ==> !same_ignoring_case(#[trigger] names[k], user)
                && !same_ignoring_case(own_part(names[k]), user),
    ensures
        !lists_user(names, user),
{
}

/// A list has a line for each name, with a dash in front.
pub proof fn law_bullets(names: Seq<Seq<char>>, name: Seq<char>)
    ensures
        bullets(seq![name]) == "  - "@ + name,
        names.len() > 0 ==> bullets(names.push(name)) == bullets(names) + "\n"@ + "  - "@ + name,
{
    assert(names.push(name).drop_last() =~= names);
}

/// A group that has ConfigMgr in its name, in whatever case, is that of the viewers.
pub proof fn law_viewer_groups(a: Seq<char>, mid: Seq<char>, b: Seq<char>)
    requires
        same_ignoring_case(mid, "configmgr"@),
    ensures
        names_permitted_viewers(a + mid + b),
{
    reveal_strlit("configmgr");
    let s = a + mid + b;
    let t = crate::diag::checks::lowered(s);
    let n = a.len() as int;
    let w = t.subrange(n, n + "configmgr"@.len());
    assert(w =~= "configmgr"@) by {
        assert forall|i: int| 0 <= i < w.len() implies w[i] == "configmgr"@[i] by {
            assert(w[i] == lower(s[n + i]));
            assert(s[n + i] == mid[i]);
            assert(lower("configmgr"@[i]) == "configmgr"@[i]);
        }
    }
    assert(occurs(t, "configmgr"@));
}

/// No name, the two names of the loop and the local host are the machine itself, whatever
/// white space stands around them.
pub proof fn law_local_names(host: Seq<char>)
    ensures
        is_local(host) <==> trimmed(host).len() == 0 || trimmed(host) == "127.0.0.1"@ || trimmed(
            host,
        ) == "::1"@ || same_ignoring_case(trimmed(host), "localhost"@),
        wide(host).len() == utf16(host).len() + 1,
        wide(host).last() == 0,
        wide(host).drop_last() == utf16(host),
{
    assert(wide(host).drop_last() =~= utf16(host));
}

/// A text whose escapes are undone.
pub open spec fn unescaped(s: Seq<char>) -> Seq<char>
    decreases s.len(),
{
    if s.len() == 0 {
        Seq::empty()
    } else if s.len() >= 2 && s[0] == '\\' {
        seq![
            if s[1] == 'n' {
                '\n'
            } else if s[1] == 'r' {
                '\r'
            } else {
                s[1]
            },
        ] + unescaped(s.skip(2))
    } else {
        seq![s[0]] + unescaped(s.skip(1))
    }
}

proof fn lemma_escaped_front(c: char, s: Seq<char>)
    ensures
        escaped(seq![c] + s) == escaped_char(c) + escaped(s),
    decreases s.len(),
{
    let all = seq![c] + s;
    if s.len() == 0 {
        assert(all.drop_last() =~= Seq::<char>::empty());
        assert(escaped(all.drop_last()) =~= Seq::<char>::empty());
        assert(escaped(all) =~= escaped_char(c) + escaped(s));
    } else {
        lemma_escaped_front(c, s.drop_last());
        assert(all.drop_last() =~= seq![c] + s.drop_last());
        assert(all.last() == s.last());
        assert(escaped(all) =~= escaped_char(c) + escaped(s));
    }
}

/// A text that is escaped for JSON is read back as it was.
pub proof fn law_escaped_text_is_read_back(s: Seq<char>)
    ensures
        unescaped(escaped(s)) == s,
    decreases s.len(),
{
    reveal_strlit("\\\\");
    reveal_strlit("\\\"");
    reveal_strlit("\\n");
    reveal_strlit("\\r");
    if s.len() == 0 {
        assert(unescaped(escaped(s)) =~= s);
    } else {
        let c = s[0];
        let rest = s.skip(1);
        assert(s =~= seq![c] + rest);
        lemma_escaped_front(c, rest);
        law_escaped_text_is_read_back(rest);
        let e = escaped(s);
        let n = escaped_char(c).len() as int;
        assert(e[0] == escaped_char(c)[0]);
        if n == 2 {
            assert(e[1] == escaped_char(c)[1]);
        }
        assert(e.skip(n) =~= escaped(rest));
        assert(unescaped(e) =~= seq![c] + rest);
    }
}

/// Durations are reported in whole milliseconds.
pub proof fn law_durations(r: CheckView, ms: nat, ns: nat)
    requires
        ns < 1_000_000,
        r.duration_ns == 1_000_000 * ms + ns,
    ensures
        exists|head: Seq<char>|
            json_object(r) == head + ",\"duration_ms\":"@ + decimal(ms) + "}"@,
{
    assert(r.duration_ns / 1_000_000 == ms);
    let head = "  {\"name\":\""@ + r.name + "\",\"severity\":\""@ + crate::diag::report::severity_name(
        r.severity,
    ) + "\",\"message\":\""@ + escaped(r.message) + "\",\"remediation\":"@ + (
    match r.remediation {
        Some(t) => "\""@ + escaped(t) + "\""@,
        None => "null"@,
    });
    assert(json_object(r) == head + ",\"duration_ms\":"@ + decimal(ms) + "}"@);
}

/// A block puts the indent in front of each line and ends each with a newline.
pub proof fn law_indented_blocks(indent: Seq<char>, s: Seq<char>, n: nat)
    requires
        n < lines_in(s).len(),
    ensures
        indented(indent, lines_in(s), n + 1) == indented(indent, lines_in(s), n) + indent
            + lines_in(s)[n as int] + "\n"@,
        indented(indent, lines_in(s), 0).len() == 0,
        block(indent, s) == indented(indent, lines_in(s), lines_in(s).len()),
{
}

/// The results of a report stand in order, with a comma behind each but the last; a single
/// blocker blocks.
pub proof fn law_reports(r: Seq<CheckView>, n: nat, results: Seq<CheckResult>, k: int)
    requires
        n < r.len(),
    ensures
        json_lines(r, n + 1) == json_lines(r, n) + json_object(r[n as int]) + (if n + 1 < r.len() {
            ",\n"@
        } else {
            "\n"@
        }),
        json_lines(r, 0).len() == 0,
        0 <= k < results.len() && results[k].severity == Severity::Blocker ==> blocked(results),
        (forall|i: int|
            0 <= i < results.len() ==> (#[trigger] results[i]).severity != Severity::Blocker)
            ==> !blocked(results),
{
}

} // verus!
