//! The session audit log: who connected to which machine, when, for how long, and
//! in what mode. One JSON object per line.

use crate::text::{
    chars_of, decimal, hex_padded, in_base, padded, push_decimal, push_hex, push_padded, push_text,
};
use vstd::prelude::*;

verus! {

/// Whether a year of the Gregorian calendar is a leap year.
pub open spec fn is_leap(y: int) -> bool {
    y % 4 == 0 && (y % 100 != 0 || y % 400 == 0)
}

pub open spec fn year_len(y: int) -> int {
    if is_leap(y) {
        366
    } else {
        365
    }
}

/// How many days a month of a year has.
pub open spec fn month_len(y: int, m: int) -> int {
    if m == 2 {
        if is_leap(y) {
            29
        } else {
            28
        }
    } else if m == 4 || m == 6 || m == 9 || m == 11 {
        30
    } else {
        31
    }
}

/// The month and the day that lie `days` days after the first of month `m`.
pub open spec fn day_of_year(y: int, m: int, days: int) -> (int, int)
    decreases 12 - m,
{
    if m >= 12 || days < month_len(y, m) {
        (m, days + 1)
    } else {
        day_of_year(y, m + 1, days - month_len(y, m))
    }
}

/// The date that lies `days` days after the first day of year `y`.
pub open spec fn date_after(y: int, days: int) -> (int, int, int)
    decreases days,
{
    if days < year_len(y) {
        let (m, d) = day_of_year(y, 1, days);
        (y, m, d)
    } else {
        date_after(y + 1, days - year_len(y))
    }
}

/// How many leap years lie in the years 1 to `y`.
pub open spec fn leaps(y: int) -> int {
    y / 4 - y / 100 + y / 400
}

/// How many days lie between the first days of the years 1970 and `y`.
pub open spec fn days_to(y: int) -> int {
    365 * (y - 1970) + leaps(y - 1) - leaps(1969)
}

proof fn lemma_days_to(y: int)
    requires
        y >= 1970,
    ensures
        days_to(y + 1) == days_to(y) + year_len(y),
        days_to(1970) == 0,
{
}

proof fn lemma_date_after(y: int, days: int)
    requires
        y >= 1970,
        days_to(y) <= days,
    ensures
        date_after(1970, days) == date_after(y, days - days_to(y)),
        0 <= days_to(y),
    decreases y,
{
    if y > 1970 {
        lemma_days_to(y - 1);
        lemma_date_after(y - 1, days);
    } else {
        lemma_days_to(y);
    }
}

/// Every date is one of the calendar: its month exists and its day lies in it.
pub proof fn law_dates_are_of_the_calendar(y: int, days: int)
    requires
        0 <= days,
    ensures
        ({
            let (year, m, d) = date_after(y, days);
            &&& year >= y
            &&& 1 <= m <= 12
            &&& 1 <= d <= month_len(year, m)
        }),
    decreases days,
{
    if days < year_len(y) {
        lemma_day_of_year(y, 1, days);
    } else {
        law_dates_are_of_the_calendar(y + 1, days - year_len(y));
    }
}

/// How many days the months from `m` on have.
pub open spec fn rest_of_year(y: int, m: int) -> int
    decreases 13 - m,
{
    if m > 12 {
        0
    } else {
        month_len(y, m) + rest_of_year(y, m + 1)
    }
}

proof fn lemma_rest_of_year(y: int)
    ensures
        rest_of_year(y, 1) == year_len(y),
{
    reveal_with_fuel(rest_of_year, 14);
}

proof fn lemma_day_of_year(y: int, m: int, days: int)
    requires
        1 <= m <= 12,
        0 <= days,
        m == 1 ==> days < year_len(y),
        m > 1 ==> days < rest_of_year(y, m),
    ensures
        ({
            let (month, d) = day_of_year(y, m, days);
            m <= month <= 12 && 1 <= d <= month_len(y, month)
        }),
    decreases 12 - m,
{
    lemma_rest_of_year(y);
    reveal_with_fuel(rest_of_year, 2);
    if m < 12 && days >= month_len(y, m) {
        lemma_day_of_year(y, m + 1, days - month_len(y, m));
    }
}

/// One day later is the next date: the next day of the month, the first of the next
/// month, or the first of January.
pub proof fn law_days_follow_each_other(y: int, days: int)
    requires
        0 <= days,
    ensures
        ({
            let (y0, m0, d0) = date_after(y, days);
            date_after(y, days + 1) == (if d0 < month_len(y0, m0) {
                (y0, m0, d0 + 1)
            } else if m0 < 12 {
                (y0, m0 + 1, 1int)
            } else {
                (y0 + 1, 1int, 1int)
            })
        }),
    decreases days,
{
    if days < year_len(y) {
        lemma_rest_of_year(y);
        lemma_next_day(y, 1, days);
        if days + 1 == year_len(y) {
            reveal_with_fuel(date_after, 2);
        }
    } else {
        law_days_follow_each_other(y + 1, days - year_len(y));
    }
}

proof fn lemma_rest_positive(y: int, m: int)
    requires
        1 <= m <= 13,
    ensures
        rest_of_year(y, m) >= 0,
        m <= 12 ==> rest_of_year(y, m) >= month_len(y, m),
    decreases 13 - m,
{
    if m <= 12 {
        lemma_rest_positive(y, m + 1);
    }
}

proof fn lemma_next_day(y: int, m: int, days: int)
    requires
        1 <= m <= 12,
        0 <= days < rest_of_year(y, m),
    ensures
        ({
            let (m0, d0) = day_of_year(y, m, days);
            &&& d0 < month_len(y, m0) ==> days + 1 < rest_of_year(y, m) && day_of_year(
                y,
                m,
                days + 1,
            ) == (m0, d0 + 1)
            &&& d0 >= month_len(y, m0) && m0 < 12 ==> days + 1 < rest_of_year(y, m)
                && day_of_year(y, m, days + 1) == (m0 + 1, 1int)
            &&& d0 >= month_len(y, m0) && m0 >= 12 ==> days + 1 == rest_of_year(y, m)
            &&& m <= m0 <= 12
        }),
    decreases 12 - m,
{
    reveal_with_fuel(rest_of_year, 3);
    reveal_with_fuel(day_of_year, 2);
    lemma_rest_positive(y, m);
    lemma_rest_positive(y, m + 1);
    if m < 12 && days >= month_len(y, m) {
        lemma_next_day(y, m + 1, days - month_len(y, m));
    } else if m < 12 {
        assert(rest_of_year(y, m) == month_len(y, m) + rest_of_year(y, m + 1));
        assert(day_of_year(y, m, days) == (m, days + 1));
        if days + 1 == month_len(y, m) {
            assert(day_of_year(y, m + 1, 0) == (m + 1, 1int));
        }
    }
}

fn leap(y: u64) -> (r: bool)
    ensures
        r == is_leap(y as int),
{
    y % 4 == 0 && (y % 100 != 0 || y % 400 == 0)
}

fn len_of_month(y: u64, m: u64) -> (r: u64)
    ensures
        r == month_len(y as int, m as int),
{
    if m == 2 {
        if leap(y) {
            29
        } else {
            28
        }
    } else if m == 4 || m == 6 || m == 9 || m == 11 {
        30
    } else {
        31
    }
}

fn first_day_of(y: u64) -> (r: u64)
    requires
        1970 <= y < 0x1_0000_0000_0000,
    ensures
        r == days_to(y as int),
{
    proof {
        lemma_date_after(y as int, days_to(y as int));
    }
    let p: u64 = y - 1;
    365 * (y - 1970) + (p / 4 + p / 400 - p / 100) - 477
}

/// The date of a day, counted from the first of January 1970.
fn date_of(days: u64) -> (r: (u64, u64, u64))
    requires
        days < 0x1_0000_0000_0000,
    ensures
        (r.0 as int, r.1 as int, r.2 as int) == date_after(1970, days as int),
{
    let mut y: u64 = 1970 + days / 366;
    proof {
        lemma_estimate(days as int);
    }
    let era: u64 = days / 146097;
    if era > 0 {
        let guess: u64 = 1970 + era * 400;
        proof {
            lemma_era(era as int);
        }
        if guess > y {
            y = guess;
        }
    }
    while first_day_of(y + 1) <= days
        invariant
            days < 0x1_0000_0000_0000,
            1970 <= y,
            days_to(y as int) <= days,
            y <= 1970 + days,
        decreases days - days_to(y as int),
    {
        proof {
            lemma_days_to(y as int);
            lemma_bound(y as int + 1);
        }
        y = y + 1;
    }
    proof {
        lemma_date_after(y as int, days as int);
        lemma_days_to(y as int);
    }
    let mut left: u64 = days - first_day_of(y);
    let mut m: u64 = 1;
    while m < 12 && left >= len_of_month(y, m)
        invariant
            1 <= m <= 12,
            day_of_year(y as int, 1, days - days_to(y as int)) == day_of_year(
                y as int,
                m as int,
                left as int,
            ),
            left <= days < 0x1_0000_0000_0000,
        decreases 12 - m,
    {
        left = left - len_of_month(y, m);
        m = m + 1;
    }
    (y, m, left + 1)
}

/// The calendar does not run ahead of the days.
proof fn lemma_bound(y: int)
    requires
        y >= 1970,
    ensures
        y - 1970 <= days_to(y),
    decreases y,
{
    if y > 1970 {
        lemma_days_to(y - 1);
        lemma_bound(y - 1);
    } else {
        lemma_days_to(y);
    }
}

proof fn lemma_estimate(days: int)
    requires
        0 <= days,
    ensures
        days_to(1970 + days / 366) <= days,
{
    lemma_slow(1970 + days / 366);
}

proof fn lemma_slow(y: int)
    requires
        y >= 1970,
    ensures
        days_to(y) <= 366 * (y - 1970),
    decreases y,
{
    if y > 1970 {
        lemma_days_to(y - 1);
        lemma_slow(y - 1);
    }
}

/// Four hundred years have 146097 days.
proof fn lemma_era(era: int)
    requires
        0 <= era,
    ensures
        days_to(1970 + era * 400) == era * 146097,
{
}

/// A moment, in seconds since the first of January 1970 UTC, as
/// "YYYY-MM-DD HH:MM:SS".
pub open spec fn utc_text(secs: u64) -> Seq<char> {
    let (y, m, d) = date_after(1970, (secs / 86400) as int);
    let rem = secs % 86400;
    padded(y as nat, 4) + "-"@ + padded(m as nat, 2) + "-"@ + padded(d as nat, 2) + " "@ + padded(
        (rem / 3600) as nat,
        2,
    ) + ":"@ + padded((rem % 3600 / 60) as nat, 2) + ":"@ + padded((rem % 60) as nat, 2)
}

/// Format epoch seconds as "YYYY-MM-DD HH:MM:SS" UTC.
pub fn utc_string(secs: u64) -> (s: String)
    ensures
        s@ == utc_text(secs),
{
    let (y, m, d) = date_of(secs / 86400);
    let rem: u64 = secs % 86400;
    let mut s = String::new();
    push_padded(&mut s, y, 4);
    assert(s@ =~= padded(y as nat, 4));
    push_text(&mut s, "-");
    push_padded(&mut s, m, 2);
    push_text(&mut s, "-");
    push_padded(&mut s, d, 2);
    push_text(&mut s, " ");
    push_padded(&mut s, rem / 3600, 2);
    push_text(&mut s, ":");
    push_padded(&mut s, rem % 3600 / 60, 2);
    push_text(&mut s, ":");
    push_padded(&mut s, rem % 60, 2);
    s
}

/// A character inside a string of the log: backslashes and quotes behind a
/// backslash, control characters by their number.
pub open spec fn guarded_char(c: char) -> Seq<char> {
    if c == '\\' || c == '"' {
        seq!['\\', c]
    } else if (c as u32) < 0x20 {
        "\\u"@ + hex_padded(c as u32 as nat, 4)
    } else {
        seq![c]
    }
}

/// A text inside a string of the log.
pub open spec fn guarded(s: Seq<char>) -> Seq<char>
    decreases s.len(),
{
    if s.len() == 0 {
        Seq::empty()
    } else {
        guarded(s.drop_last()) + guarded_char(s.last())
    }
}

/// Escape the few characters that would break a JSON string value.
pub fn esc(s: &str) -> (r: String)
    ensures
        r@ == guarded(s@),
{
    let chars: Vec<char> = chars_of(s);
    let mut r = String::new();
    let mut i: usize = 0;
    assert(r@ =~= guarded(s@.take(0)));
    while i < chars.len()
        invariant
            chars@ == s@,
            i <= chars@.len(),
            r@ == guarded(s@.take(i as int)),
        decreases chars@.len() - i,
    {
        let ghost before = s@.take(i as int);
        let c: char = chars[i];
        if c == '\\' || c == '"' {
            r.push('\\');
            r.push(c);
        } else if (c as u32) < 0x20 {
            push_text(&mut r, "\\u");
            push_hex(&mut r, c as u32 as u64, 4);
        } else {
            r.push(c);
        }
        i = i + 1;
        proof {
            let t = s@.take(i as int);
            assert(t.drop_last() =~= before);
            assert(r@ =~= guarded(t));
        }
    }
    assert(s@.take(i as int) =~= s@);
    r
}

/// Whether a text holds no control character.
#[verifier::opaque]
pub open spec fn no_controls(s: Seq<char>) -> bool {
    forall|i: int| 0 <= i < s.len() ==> (#[trigger] s[i]) as u32 >= 0x20
}

/// The digits come behind the control characters and the quote.
proof fn lemma_digits(n: nat, base: nat)
    requires
        base <= 16,
    ensures
        forall|i: int|
            0 <= i < in_base(n, base).len() ==> (#[trigger] in_base(n, base)[i]) as u32 >= 0x30,
    decreases n,
{
    if base >= 2 && n >= base {
        assert(n / base < n) by (nonlinear_arith)
            requires
                n >= base >= 2,
        ;
        assert(n % base < base) by (nonlinear_arith)
            requires
                base >= 2,
        ;
        lemma_digits(n / base, base);
        let front = in_base(n / base, base);
        assert forall|i: int| 0 <= i < in_base(n, base).len() implies (#[trigger] in_base(n, base)[i])
            as u32 >= 0x30 by {
            if i < front.len() {
                assert(in_base(n, base)[i] == front[i]);
            }
        }
    }
}

proof fn lemma_guarded(s: Seq<char>)
    ensures
        no_controls(guarded(s)),
    decreases s.len(),
{
    reveal(no_controls);
    if s.len() > 0 {
        reveal_strlit("\\u");
        lemma_guarded(s.drop_last());
        lemma_digits(s.last() as u32 as nat, 16);
        assert(no_controls(guarded_char(s.last())));
    }
}

proof fn lemma_utc(secs: u64)
    ensures
        no_controls(utc_text(secs)),
{
    reveal(no_controls);
    reveal_strlit("-");
    reveal_strlit(" ");
    reveal_strlit(":");
    assert forall|n: nat, width: nat| no_controls(#[trigger] padded(n, width)) by {
        lemma_digits(n, 10);
    }
}

/// An event of the log.
#[derive(Debug)]
pub struct AuditEvent<'a> {
    pub event: &'a str,
    pub target: &'a str,
    pub by: &'a str,
    pub from: &'a str,
    pub grant: &'a str,
    /// Set on the event that ends a session.
    pub duration_s: Option<u64>,
}

/// An event at a moment as a line of the log.
pub open spec fn audit_text(now: u64, e: AuditEvent) -> Seq<char> {
    "{\"ts\":"@ + decimal(now as nat) + ",\"time\":\""@ + utc_text(now) + "\",\"event\":\""@
        + guarded(e.event@) + "\",\"target\":\""@ + guarded(e.target@) + "\",\"by\":\""@
        + guarded(e.by@) + "\",\"from\":\""@ + guarded(e.from@) + "\",\"grant\":\""@ + guarded(
        e.grant@,
    ) + "\""@ + (match e.duration_s {
        Some(d) => ",\"duration_s\":"@ + decimal(d as nat),
        None => Seq::empty(),
    }) + "}\n"@
}

/// An event at a moment as a line of the log.
pub fn audit_line(now: u64, e: &AuditEvent) -> (s: String)
    ensures
        s@ == audit_text(now, *e),
{
    let mut s = String::from_str("{\"ts\":");
    push_decimal(&mut s, now);
    push_text(&mut s, ",\"time\":\"");
    push_text(&mut s, utc_string(now).as_str());
    push_text(&mut s, "\",\"event\":\"");
    push_text(&mut s, esc(e.event).as_str());
    push_text(&mut s, "\",\"target\":\"");
    push_text(&mut s, esc(e.target).as_str());
    push_text(&mut s, "\",\"by\":\"");
    push_text(&mut s, esc(e.by).as_str());
    push_text(&mut s, "\",\"from\":\"");
    push_text(&mut s, esc(e.from).as_str());
    push_text(&mut s, "\",\"grant\":\"");
    push_text(&mut s, esc(e.grant).as_str());
    push_text(&mut s, "\"");
    match e.duration_s {
        Some(d) => {
            let mut t = String::from_str(",\"duration_s\":");
            push_decimal(&mut t, d);
            push_text(&mut s, t.as_str());
        },
        None => {
            assert(s@ + Seq::<char>::empty() =~= s@);
        },
    }
    push_text(&mut s, "}\n");
    s
}

/// No quote ends the string that a text stands in: each is behind a backslash.
pub proof fn law_guarded_text_stays_in_its_string(s: Seq<char>, i: int)
    requires
        0 <= i < guarded(s).len(),
        guarded(s)[i] == '"',
    ensures
        i > 0 && guarded(s)[i - 1] == '\\',
    decreases s.len(),
{
    reveal_strlit("\\u");
    let before = guarded(s.drop_last());
    if i < before.len() {
        law_guarded_text_stays_in_its_string(s.drop_last(), i);
    } else {
        let c = s.last();
        lemma_digits(c as u32 as nat, 16);
        assert(guarded(s)[i] == guarded_char(c)[i - before.len()]);
    }
}

/// Whatever the names in it are, an event is one line of the log: its last character
/// ends the line, and no other is a control character.
pub proof fn law_audit_event_is_one_line(now: u64, e: AuditEvent)
    ensures
        audit_text(now, e).len() > 0,
        audit_text(now, e).last() == '\n',
        no_controls(audit_text(now, e).drop_last()),
{
    lemma_labels();
    assert(no_controls(decimal(now as nat))) by {
        reveal(no_controls);
        lemma_digits(now as nat, 10);
    }
    lemma_utc(now);
    let dur = match e.duration_s {
        Some(d) => ",\"duration_s\":"@ + decimal(d as nat),
        None => Seq::empty(),
    };
    assert(no_controls(dur)) by {
        reveal(no_controls);
        reveal_strlit(",\"duration_s\":");
        if let Some(d) = e.duration_s {
            lemma_digits(d as nat, 10);
        }
    }
    let a = "{\"ts\":"@ + decimal(now as nat) + ",\"time\":\""@;
    lemma_joined("{\"ts\":"@, decimal(now as nat), ",\"time\":\""@);
    let b = a + utc_text(now) + "\",\"event\":\""@;
    lemma_joined(a, utc_text(now), "\",\"event\":\""@);
    lemma_guarded(e.event@);
    let c = b + guarded(e.event@) + "\",\"target\":\""@;
    lemma_joined(b, guarded(e.event@), "\",\"target\":\""@);
    lemma_guarded(e.target@);
    let d = c + guarded(e.target@) + "\",\"by\":\""@;
    lemma_joined(c, guarded(e.target@), "\",\"by\":\""@);
    lemma_guarded(e.by@);
    let f = d + guarded(e.by@) + "\",\"from\":\""@;
    lemma_joined(d, guarded(e.by@), "\",\"from\":\""@);
    lemma_guarded(e.from@);
    let g = f + guarded(e.from@) + "\",\"grant\":\""@;
    lemma_joined(f, guarded(e.from@), "\",\"grant\":\""@);
    lemma_guarded(e.grant@);
    let h = g + guarded(e.grant@) + "\""@;
    lemma_joined(g, guarded(e.grant@), "\""@);
    lemma_joined(h, dur, "}"@);
    assert(audit_text(now, e) == h + dur + "}\n"@);
    lemma_line_end(h + dur);
}

proof fn lemma_joined(a: Seq<char>, b: Seq<char>, c: Seq<char>)
    requires
        no_controls(a),
        no_controls(b),
        no_controls(c),
    ensures
        no_controls(a + b + c),
{
    reveal(no_controls);
}

proof fn lemma_line_end(s: Seq<char>)
    requires
        no_controls(s + "}"@),
    ensures
        (s + "}\n"@).len() > 0,
        (s + "}\n"@).last() == '\n',
        no_controls((s + "}\n"@).drop_last()),
{
    reveal_strlit("}");
    reveal_strlit("}\n");
    assert((s + "}\n"@).drop_last() =~= s + "}"@);
}

/// The fixed parts of a line.
proof fn lemma_labels()
    ensures
        no_controls("{\"ts\":"@),
        no_controls(",\"time\":\""@),
        no_controls("\",\"event\":\""@),
        no_controls("\",\"target\":\""@),
        no_controls("\",\"by\":\""@),
        no_controls("\",\"from\":\""@),
        no_controls("\",\"grant\":\""@),
        no_controls("\""@),
        no_controls(",\"duration_s\":"@),
        no_controls("}"@),
{
    reveal(no_controls);
    reveal_strlit("{\"ts\":");
    reveal_strlit(",\"time\":\"");
    reveal_strlit("\",\"event\":\"");
    reveal_strlit("\",\"target\":\"");
    reveal_strlit("\",\"by\":\"");
    reveal_strlit("\",\"from\":\"");
    reveal_strlit("\",\"grant\":\"");
    reveal_strlit("\"");
    reveal_strlit(",\"duration_s\":");
    reveal_strlit("}");
}

/// A log above this size is set aside, and a new one begun.
pub const MAX_LOG_BYTES: u64 = 5242880;

/// Whether a log of this size is set aside before the next line is written.
pub fn needs_rotation(len: u64) -> (r: bool)
    ensures
        r == (len > MAX_LOG_BYTES),
{
    len > MAX_LOG_BYTES
}

} // verus!
