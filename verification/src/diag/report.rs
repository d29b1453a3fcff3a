//! The results of the checks as text and as JSON.

use crate::diag::{CheckResult, CheckView, Severity};
use crate::text::parse::{lines, lines_in, texts};
use crate::text::{chars_of, decimal, push_decimal, push_text, string_of};
use vstd::prelude::*;

verus! {

/// A character inside a JSON string.
pub open spec fn escaped_char(c: char) -> Seq<char> {
    if c == '\\' {
        "\\\\"@
    } else if c == '"' {
        "\\\""@
    } else if c == '\n' {
        "\\n"@
    } else if c == '\r' {
        "\\r"@
    } else {
        seq![c]
    }
}

/// A text inside a JSON string.
pub open spec fn escaped(s: Seq<char>) -> Seq<char>
    decreases s.len(),
{
    if s.len() == 0 {
        Seq::empty()
    } else {
        escaped(s.drop_last()) + escaped_char(s.last())
    }
}

/// Escape a text for a JSON string: backslashes, quotes and line ends.
pub fn json_escape(s: &str) -> (r: String)
    ensures
        r@ == escaped(s@),
{
    let chars: Vec<char> = chars_of(s);
    let mut r = String::new();
    let mut i: usize = 0;
    assert(r@ =~= escaped(s@.take(0)));
    while i < chars.len()
        invariant
            chars@ == s@,
            i <= chars@.len(),
            r@ == escaped(s@.take(i as int)),
        decreases chars@.len() - i,
    {
        let ghost before = s@.take(i as int);
        let c: char = chars[i];
        if c == '\\' {
            push_text(&mut r, "\\\\");
        } else if c == '"' {
            push_text(&mut r, "\\\"");
        } else if c == '\n' {
            push_text(&mut r, "\\n");
        } else if c == '\r' {
            push_text(&mut r, "\\r");
        } else {
            r.push(c);
        }
        i = i + 1;
        proof {
            let t = s@.take(i as int);
            assert(t.drop_last() =~= before);
            assert(r@ =~= escaped(t));
        }
    }
    assert(s@.take(i as int) =~= s@);
    r
}

/// No line end and no bare quote is left in an escaped text: each character that
/// could end the string or the line is behind a backslash.
pub proof fn law_escaped_text_stays_in_its_string(s: Seq<char>, i: int)
    requires
        0 <= i < escaped(s).len(),
    ensures
        escaped(s)[i] != '\n',
        escaped(s)[i] != '\r',
        escaped(s)[i] == '"' ==> i > 0 && escaped(s)[i - 1] == '\\',
    decreases s.len(),
{
    reveal_strlit("\\\\");
    reveal_strlit("\\\"");
    reveal_strlit("\\n");
    reveal_strlit("\\r");
    let before = escaped(s.drop_last());
    if i < before.len() {
        law_escaped_text_stays_in_its_string(s.drop_last(), i);
    }
}

/// A severity as it stands in JSON.
pub open spec fn severity_name(s: Severity) -> Seq<char> {
    match s {
        Severity::Pass => "ok"@,
        Severity::Warning => "warning"@,
        Severity::Blocker => "blocker"@,
    }
}

/// A result as a JSON object.
pub open spec fn json_object(r: CheckView) -> Seq<char> {
    "  {\"name\":\""@ + r.name + "\",\"severity\":\""@ + severity_name(r.severity)
        + "\",\"message\":\""@ + escaped(r.message) + "\",\"remediation\":"@ + (
    match r.remediation {
        Some(t) => "\""@ + escaped(t) + "\""@,
        None => "null"@,
    }) + ",\"duration_ms\":"@ + decimal((r.duration_ns / 1_000_000) as nat) + "}"@
}

/// What each element of a list of results is.
pub open spec fn results_of(v: Seq<CheckResult>) -> Seq<CheckView> {
    Seq::new(v.len(), |i: int| v[i]@)
}

/// The first `n` results as lines of a JSON array.
pub open spec fn json_lines(r: Seq<CheckView>, n: nat) -> Seq<char>
    decreases n,
{
    if n == 0 {
        Seq::empty()
    } else {
        json_lines(r, (n - 1) as nat) + json_object(r[n - 1]) + (if n < r.len() {
            ",\n"@
        } else {
            "\n"@
        })
    }
}

fn object_text(r: &CheckResult) -> (s: String)
    ensures
        s@ == json_object(r@),
{
    let mut s = String::from_str("  {\"name\":\"");
    push_text(&mut s, r.name);
    push_text(&mut s, "\",\"severity\":\"");
    match r.severity {
        Severity::Pass => push_text(&mut s, "ok"),
        Severity::Warning => push_text(&mut s, "warning"),
        Severity::Blocker => push_text(&mut s, "blocker"),
    }
    push_text(&mut s, "\",\"message\":\"");
    push_text(&mut s, json_escape(r.message.as_str()).as_str());
    push_text(&mut s, "\",\"remediation\":");
    match &r.remediation {
        Some(t) => {
            let mut q = String::from_str("\"");
            push_text(&mut q, json_escape(t.as_str()).as_str());
            push_text(&mut q, "\"");
            push_text(&mut s, q.as_str());
        },
        None => push_text(&mut s, "null"),
    }
    push_text(&mut s, ",\"duration_ms\":");
    push_decimal(&mut s, r.duration_ns / 1_000_000);
    push_text(&mut s, "}");
    s
}

/// The results as a JSON array.
pub fn to_json(results: &[CheckResult]) -> (s: String)
    ensures
        s@ == "[\n"@ + json_lines(results_of(results@), results@.len()) + "]\n"@,
{
    let ghost all = results_of(results@);
    let mut t = String::new();
    let mut i: usize = 0;
    assert(t@ =~= json_lines(all, 0));
    while i < results.len()
        invariant
            i <= results@.len(),
            all == results_of(results@),
            t@ == json_lines(all, i as nat),
        decreases results@.len() - i,
    {
        push_text(&mut t, object_text(&results[i]).as_str());
        i = i + 1;
        if i < results.len() {
            push_text(&mut t, ",\n");
        } else {
            push_text(&mut t, "\n");
        }
    }
    let mut s = String::from_str("[\n");
    push_text(&mut s, t.as_str());
    push_text(&mut s, "]\n");
    s
}

/// A severity as it stands in front of a result.
pub open spec fn badge_of(s: Severity) -> Seq<char> {
    match s {
        Severity::Pass => "  OK   "@,
        Severity::Warning => " WARN  "@,
        Severity::Blocker => "BLOCKER"@,
    }
}

/// The first `n` lines, each behind an indent.
pub open spec fn indented(indent: Seq<char>, l: Seq<Seq<char>>, n: nat) -> Seq<char>
    decreases n,
{
    if n == 0 {
        Seq::empty()
    } else {
        indented(indent, l, (n - 1) as nat) + indent + l[n - 1] + "\n"@
    }
}

/// A text with every line behind an indent.
pub open spec fn block(indent: Seq<char>, s: Seq<char>) -> Seq<char> {
    indented(indent, lines_in(s), lines_in(s).len())
}

/// A result as text; `took` is how long the check took.
pub open spec fn result_text(r: CheckView, took: Seq<char>) -> Seq<char> {
    "["@ + badge_of(r.severity) + "] "@ + r.name + "  ("@ + took + ")\n"@ + block(
        "        "@,
        r.message,
    ) + (match r.remediation {
        Some(t) => "        \u{2192} Remediation:\n"@ + block("            "@, t),
        None => Seq::empty(),
    }) + "\n"@
}

fn block_text(indent: &str, s: &str) -> (r: String)
    ensures
        r@ == block(indent@, s@),
{
    let l: Vec<Vec<char>> = lines(chars_of(s).as_slice());
    let ghost all = lines_in(s@);
    let mut r = String::new();
    let mut i: usize = 0;
    assert(r@ =~= indented(indent@, all, 0));
    assert(l@.len() == texts(l@).len());
    while i < l.len()
        invariant
            i <= l@.len(),
            l@.len() == all.len(),
            all == texts(l@),
            r@ == indented(indent@, all, i as nat),
        decreases l@.len() - i,
    {
        push_text(&mut r, indent);
        assert(all[i as int] == l@[i as int]@);
        push_text(&mut r, string_of(l[i].as_slice()).as_str());
        push_text(&mut r, "\n");
        i = i + 1;
    }
    r
}

/// A result as text; `took` is how long the check took.
pub fn describe(r: &CheckResult, took: &str) -> (s: String)
    ensures
        s@ == result_text(r@, took@),
{
    let mut s = String::from_str("[");
    match r.severity {
        Severity::Pass => push_text(&mut s, "  OK   "),
        Severity::Warning => push_text(&mut s, " WARN  "),
        Severity::Blocker => push_text(&mut s, "BLOCKER"),
    }
    push_text(&mut s, "] ");
    push_text(&mut s, r.name);
    push_text(&mut s, "  (");
    push_text(&mut s, took);
    push_text(&mut s, ")\n");
    push_text(&mut s, block_text("        ", r.message.as_str()).as_str());
    match &r.remediation {
        Some(t) => {
            let mut q = String::from_str("        \u{2192} Remediation:\n");
            push_text(&mut q, block_text("            ", t.as_str()).as_str());
            push_text(&mut s, q.as_str());
        },
        None => {
            assert(s@ + Seq::<char>::empty() =~= s@);
        },
    }
    push_text(&mut s, "\n");
    s
}

/// Whether any result is a blocker.
pub open spec fn blocked(results: Seq<CheckResult>) -> bool {
    exists|i: int| 0 <= i < results.len() && (#[trigger] results[i]).severity == Severity::Blocker
}

/// Whether any result is a blocker.
pub fn any_blocker(results: &[CheckResult]) -> (r: bool)
    ensures
        r == blocked(results@),
{
    let mut i: usize = 0;
    while i < results.len()
        invariant
            i <= results@.len(),
            forall|k: int|
                0 <= k < i ==> (#[trigger] results@[k]).severity != Severity::Blocker,
        decreases results@.len() - i,
    {
        if results[i].severity == Severity::Blocker {
            return true;
        }
        i = i + 1;
    }
    false
}

/// The exit code of a run: 0 when the way is clear, 2 when something blocks it.
pub fn exit_code(results: &[CheckResult]) -> (r: i32)
    ensures
        r == (if blocked(results@) {
            2i32
        } else {
            0i32
        }),
{
    if any_blocker(results) {
        2
    } else {
        0
    }
}

} // verus!
