//! What the viewer's files, packets and lines of text say.

use crate::text::laws::{glued, law_words_are_read_back};
use crate::text::parse::{
    digit_value, is_digit, is_white, lines_in, occurs, one_line, trimmed, value,
};
use crate::text::{padded, same_ignoring_case};
use crate::viewer::audit::{date_after, guarded, guarded_char, utc_text};
use crate::rdp::frame::UpdateRegion;
use crate::viewer::input::{attention, InputEvent, MouseAction};
use crate::viewer::paint::{channel, Sample, Screen};
use crate::viewer::state::{at_most, in_row, merged, region_bottom, touched, SharedFrame};
use crate::viewer::recent::{capped, doubled, others, quoted, with_host};
use crate::viewer::window::{bar_of, desk_of, WindowInput, WindowState};
use crate::viewer::wol::{
    count, digits_in, entry, file_with, is_about, mac_among, mac_for, mac_in, mac_on, mac_text,
    magic, other_entries,
};
use vstd::prelude::*;

verus! {

/// A magic packet: six bytes of ones, then the address sixteen times over.
pub proof fn law_magic_packets(mac: Seq<u8>, round: int, j: int)
    requires
        mac.len() == 6,
        0 <= round < 16,
        0 <= j < 6,
    ensures
        magic(mac).len() == 6 + 16 * 6,
        magic(mac)[j] == 0xff,
        magic(mac)[6 + 6 * round + j] == mac[j],
{
    assert((6 * round + j) % 6 == j);
}

proof fn lemma_digits_push(s: Seq<char>, c: char)
    ensures
        digits_in(s.push(c)) == (match digit_value(c) {
            Some(d) => digits_in(s).push(d),
            None => digits_in(s),
        }),
{
    assert(s.push(c).drop_last() =~= s);
}

proof fn lemma_all_digits_in(s: Seq<char>)
    requires
        forall|i: int| 0 <= i < s.len() ==> is_digit(#[trigger] s[i], 16),
    ensures
        digits_in(s).len() == s.len(),
        forall|i: int|
            0 <= i < s.len() ==> digit_value(s[i]) == Some(#[trigger] digits_in(s)[i]),
    decreases s.len(),
{
    if s.len() > 0 {
        let f = s.drop_last();
        assert forall|i: int| 0 <= i < f.len() implies is_digit(#[trigger] f[i], 16) by {
            assert(f[i] == s[i]);
        }
        lemma_all_digits_in(f);
        assert(is_digit(s[s.len() - 1], 16));
        assert forall|i: int| 0 <= i < s.len() implies digit_value(s[i]) == Some(
            #[trigger] digits_in(s)[i],
        ) by {
            if i < f.len() {
                assert(f[i] == s[i]);
                assert(digits_in(s)[i] == digits_in(f)[i]);
            }
        }
    }
}

/// Twelve hexadecimal digits are an address: each byte is written by two of them, the high
/// one first.
pub proof fn law_addresses_of_digits(s: Seq<char>, i: int)
    requires
        s.len() == 12,
        forall|k: int| 0 <= k < s.len() ==> is_digit(#[trigger] s[k], 16),
        0 <= i < 6,
    ensures
        mac_in(s) is Some,
        mac_in(s)->0.len() == 6,
        mac_in(s)->0[i] == value(s.subrange(2 * i, 2 * i + 2), 16),
{
    lemma_all_digits_in(s);
    let d = digits_in(s);
    let t = s.subrange(2 * i, 2 * i + 2);
    assert(is_digit(s[2 * i], 16) && is_digit(s[2 * i + 1], 16));
    assert(t.drop_last() =~= seq![s[2 * i]]);
    assert(t.last() == s[2 * i + 1]);
    let u = seq![s[2 * i]];
    assert(u.drop_last() =~= Seq::<char>::empty());
    assert(value(u.drop_last(), 16) == 0);
    assert(value(u, 16) == d[2 * i]);
    assert(value(t, 16) == d[2 * i] * 16 + d[2 * i + 1]);
}

/// What is no hexadecimal digit does not matter in an address, wherever it stands.
pub proof fn law_separators_do_not_matter(a: Seq<char>, c: char, b: Seq<char>)
    requires
        digit_value(c) is None,
    ensures
        digits_in(a + seq![c] + b) == digits_in(a + b),
        mac_in(a + seq![c] + b) == mac_in(a + b),
    decreases b.len(),
{
    if b.len() == 0 {
        assert(a + seq![c] + b =~= a.push(c));
        assert(a + b =~= a);
        lemma_digits_push(a, c);
    } else {
        law_separators_do_not_matter(a, c, b.drop_last());
        assert((a + seq![c] + b).drop_last() =~= a + seq![c] + b.drop_last());
        assert((a + b).drop_last() =~= a + b.drop_last());
    }
}

proof fn lemma_mac_on_skips(f: Seq<Seq<char>>, x: Seq<char>, t: Seq<Seq<char>>, host: Seq<char>)
    requires
        !is_about(x, host),
    ensures
        mac_on(f + seq![x] + t, host) == mac_on(f + t, host),
    decreases f.len(),
{
    let all = f + seq![x] + t;
    if f.len() == 0 {
        assert(all.skip(1) =~= t);
        assert(f + t =~= t);
        assert(all[0] == x);
    } else {
        assert(all[0] == f[0] && (f + t)[0] == f[0]);
        assert(all.skip(1) =~= f.skip(1) + seq![x] + t);
        assert((f + t).skip(1) =~= f.skip(1) + t);
        lemma_mac_on_skips(f.skip(1), x, t, host);
    }
}

proof fn lemma_others_keep(l: Seq<Seq<char>>, t: Seq<Seq<char>>, host: Seq<char>, other: Seq<char>)
    requires
        !same_ignoring_case(trimmed(host), trimmed(other)),
    ensures
        mac_on(other_entries(l, host) + t, other) == mac_on(l + t, other),
    decreases l.len(),
{
    if l.len() > 0 {
        let f = l.drop_last();
        let x = l.last();
        let more = seq![x] + t;
        assert(l + t =~= f + more);
        if entry(x) is Some && !is_about(x, host) {
            lemma_others_keep(f, more, host, other);
            assert(other_entries(l, host) + t =~= other_entries(f, host) + more);
        } else {
            lemma_others_keep(f, t, host, other);
            assert(!is_about(x, other)) by {
                if is_about(x, other) {
                    let h = trimmed(entry(x).unwrap().0);
                    assert(same_ignoring_case(h, trimmed(host)));
                    assert forall|i: int| 0 <= i < h.len() implies crate::text::lower(
                        trimmed(host)[i],
                    ) == crate::text::lower(trimmed(other)[i]) by {
                        assert(crate::text::lower(h[i]) == crate::text::lower(trimmed(host)[i]));
                        assert(crate::text::lower(h[i]) == crate::text::lower(trimmed(other)[i]));
                    }
                    assert(same_ignoring_case(trimmed(host), trimmed(other)));
                }
            }
            lemma_mac_on_skips(f, x, t, other);
            assert(f + more =~= f + seq![x] + t);
        }
    } else {
        assert(other_entries(l, host) + t =~= l + t);
    }
}

/// Remembering the address of one host keeps those of the others.
pub proof fn law_other_hosts_keep_their_address(
    file: Seq<char>,
    host: Seq<char>,
    mac: Seq<u8>,
    other: Seq<char>,
)
    requires
        mac.len() == 6,
        one_line(trimmed(host)),
        forall|i: int| 0 <= i < trimmed(host).len() ==> trimmed(host)[i] != '=',
        !same_ignoring_case(trimmed(host), trimmed(other)),
    ensures
        mac_on(lines_in(file_with(file, host, mac)), other) == mac_on(lines_in(file), other),
{
    let kept = other_entries(lines_in(file), host);
    let last = crate::viewer::wol::entry_text(host, mac);
    crate::viewer::wol::lemma_file_lines(file, host, mac);
    let none = Seq::<Seq<char>>::empty();
    lemma_others_keep(lines_in(file), none, host, other);
    assert(kept + none =~= kept);
    assert(lines_in(file) + none =~= lines_in(file));
    assert(!is_about(last, other)) by {
        assert(crate::text::parse::trimmed(trimmed(host)) == trimmed(host)) by {
            crate::text::parse::law_trimming_is_done_once(host);
        }
        reveal_strlit("=");
        assert(last =~= trimmed(host) + seq!['='] + mac_text(mac));
        crate::text::parse::lemma_split_behind(trimmed(host), '=', mac_text(mac));
    }
    lemma_mac_on_skips(kept, last, none, other);
    assert(kept + seq![last] + none =~= kept.push(last));
}

proof fn lemma_one_dash(m: Seq<u8>)
    requires
        m.len() >= 1,
    ensures
        count(mac_text(m), '-') == m.len() - 1,
        mac_text(m).len() > 0,
        forall|i: int| 0 <= i < mac_text(m).len() ==> !is_white(#[trigger] mac_text(m)[i]),
    decreases m.len(),
{
    reveal_strlit("-");
    let h = crate::text::hex_upper(m.last() as nat, 2);
    crate::text::laws::law_padding_keeps_the_number(m.last() as nat, 2);
    assert forall|i: int| 0 <= i < h.len() implies h[i] != '-' && !is_white(#[trigger] h[i]) by {}
    if m.len() == 1 {
        lemma_count_none(Seq::empty(), h, '-');
        assert(Seq::<char>::empty() + h =~= h);
        assert(count(Seq::<char>::empty(), '-') == 0);
    } else {
        let f = m.drop_last();
        lemma_one_dash(f);
        let a = mac_text(f) + "-"@;
        assert(a =~= mac_text(f).push('-'));
        assert(a.drop_last() =~= mac_text(f));
        lemma_count_none(a, h, '-');
        assert forall|i: int| 0 <= i < mac_text(m).len() implies !is_white(
            #[trigger] mac_text(m)[i],
        ) by {
            if i < mac_text(f).len() {
                assert(mac_text(m)[i] == mac_text(f)[i]);
            } else if i > mac_text(f).len() {
                assert(mac_text(m)[i] == h[i - mac_text(f).len() - 1]);
            }
        }
    }
}

proof fn lemma_count_none(a: Seq<char>, b: Seq<char>, c: char)
    requires
        forall|i: int| 0 <= i < b.len() ==> b[i] != c,
    ensures
        count(a + b, c) == count(a, c),
    decreases b.len(),
{
    if b.len() == 0 {
        assert(a + b =~= a);
    } else {
        assert((a + b).drop_last() =~= a + b.drop_last());
        assert((a + b).last() == b.last());
        lemma_count_none(a, b.drop_last(), c);
    }
}

/// A line of the ARP table that names an address and then its hardware address gives that,
/// and lines that do not name it are passed over.
pub proof fn law_arp_lines(ip: Seq<char>, m: Seq<u8>, kind: Seq<char>, rest: Seq<Seq<char>>)
    requires
        m.len() == 6,
        ip.len() > 0 && kind.len() > 0,
        forall|i: int| 0 <= i < ip.len() ==> !is_white(#[trigger] ip[i]) && ip[i] != '-',
        forall|i: int| 0 <= i < kind.len() ==> !is_white(#[trigger] kind[i]),
    ensures
        mac_for(seq![glued(seq![ip, mac_text(m), kind], ' ')] + rest, ip) == Some(m),
        forall|line: Seq<char>| !occurs(line, ip) ==> #[trigger] mac_for(seq![line] + rest, ip)
            == mac_for(rest, ip),
{
    let w = seq![ip, mac_text(m), kind];
    lemma_one_dash(m);
    crate::viewer::wol::law_mac_round_trip(m);
    assert forall|k: int| 0 <= k < w.len() implies (#[trigger] w[k]).len() > 0 by {}
    assert forall|k: int, i: int| 0 <= k < w.len() && 0 <= i < w[k].len() implies !is_white(
        #[trigger] w[k][i],
    ) by {}
    law_words_are_read_back(w, ' ');
    let line = glued(w, ' ');
    assert(occurs(line, ip)) by {
        assert(line =~= ip + (seq![' '] + glued(w.skip(1), ' ')));
        assert(line.subrange(0, 0 + ip.len() as int) =~= ip);
    }
    lemma_count_none(Seq::empty(), ip, '-');
    assert(Seq::<char>::empty() + ip =~= ip);
    assert(count(Seq::<char>::empty(), '-') == 0);
    assert(w.skip(1)[0] == mac_text(m));
    assert(mac_among(w.skip(1)) == Some(m));
    assert(mac_among(w) == mac_among(w.skip(1)));
    let l = seq![line] + rest;
    assert(l[0] == line);
    assert forall|line: Seq<char>| !occurs(line, ip) implies #[trigger] mac_for(
        seq![line] + rest,
        ip,
    ) == mac_for(rest, ip) by {
        let l = seq![line] + rest;
        assert(l[0] == line);
        assert(l.skip(1) =~= rest);
    }
}

/// At most twelve hosts are kept: the new one and the most recent others, in their order.
pub proof fn law_twelve_hosts_are_kept(l: Seq<Seq<char>>, host: Seq<char>, k: int)
    ensures
        with_host(l, host).len() <= 12,
        with_host(l, host).len() == (if others(l, host).len() < 11 {
            others(l, host).len() + 1
        } else {
            12
        }),
        with_host(l, host)[0] == host,
        0 <= k < 11 && k < others(l, host).len() ==> with_host(l, host)[k + 1] == others(
            l,
            host,
        )[k],
        capped(l).len() <= 12,
{
}

/// Text in which pairs of quotes stand for one.
pub open spec fn halved(s: Seq<char>) -> Seq<char>
    decreases s.len(),
{
    if s.len() == 0 {
        Seq::empty()
    } else if s.len() >= 2 && s[s.len() - 1] == '\'' && s[s.len() - 2] == '\'' {
        halved(s.take(s.len() - 2)).push('\'')
    } else {
        halved(s.drop_last()).push(s.last())
    }
}

/// Quotes that are doubled are read back as they were.
pub proof fn law_doubled_quotes_are_read_back(s: Seq<char>)
    ensures
        halved(doubled(s)) == s,
        doubled(s).len() > 0 && s.last() != '\'' ==> doubled(s).last() == s.last(),
    decreases s.len(),
{
    if s.len() > 0 {
        let f = s.drop_last();
        law_doubled_quotes_are_read_back(f);
        let d = doubled(s);
        if s.last() == '\'' {
            assert(d.take(d.len() - 2) =~= doubled(f));
        } else {
            assert(d.drop_last() =~= doubled(f));
        }
        assert(halved(d) =~= f.push(s.last()));
        assert(f.push(s.last()) =~= s);
    }
}

/// Hosts stand between single quotes, with commas between them.
pub proof fn law_quoted_hosts(l: Seq<Seq<char>>, h: Seq<char>)
    ensures
        quoted(seq![h]) == seq!['\''] + doubled(h) + seq!['\''],
        l.len() > 0 ==> quoted(l.push(h)) == quoted(l) + seq![',', '\''] + doubled(h) + seq!['\''],
{
    assert(seq![h].last() == h);
    assert(quoted(seq![h]) =~= seq!['\''] + doubled(h) + seq!['\'']);
    if l.len() > 0 {
        assert(l.push(h).drop_last() =~= l);
        assert(quoted(l.push(h)) =~= quoted(l) + seq![',', '\''] + doubled(h) + seq!['\'']);
    }
}

/// A moment is written as its date and the hours, minutes and seconds of its day.
pub proof fn law_moments(days: nat, h: nat, m: nat, s: nat, secs: u64)
    requires
        h < 24 && m < 60 && s < 60,
        secs == 86400 * days + 3600 * h + 60 * m + s,
    ensures
        ({
            let (year, month, day) = date_after(1970, days as int);
            utc_text(secs) == padded(year as nat, 4) + "-"@ + padded(month as nat, 2) + "-"@
                + padded(day as nat, 2) + " "@ + padded(h, 2) + ":"@ + padded(m, 2) + ":"@ + padded(
                s,
                2,
            )
        }),
{
    assert(secs / 86400 == days);
    let rem = secs % 86400;
    assert(rem == 3600 * h + 60 * m + s);
    assert(rem / 3600 == h);
    assert(rem % 3600 == 60 * m + s);
    assert(rem % 3600 / 60 == m);
    assert(rem % 60 == s);
}

/// Guarding works character by character: a quote and a backslash get a backslash in front,
/// a control character becomes its number in four digits, and others stay.
pub proof fn law_guarded_characters(s: Seq<char>, c: char)
    ensures
        guarded(s.push(c)) == guarded(s) + guarded_char(c),
        guarded(Seq::<char>::empty()).len() == 0,
        c == '"' || c == '\\' ==> guarded_char(c) == seq!['\\', c],
        (c as int) < 0x20 ==> guarded_char(c).len() == 6 && guarded_char(c)[0] == '\\'
            && guarded_char(c)[1] == 'u' && value(guarded_char(c).skip(2), 16) == c as nat,
        (c as int) >= 0x20 && c != '"' && c != '\\' ==> guarded_char(c) == seq![c],
{
    assert(s.push(c).drop_last() =~= s);
    crate::text::lemma_char(c);
    if (c as int) < 0x20 {
        reveal_strlit("\\u");
        let n = c as u32 as nat;
        crate::text::laws::law_padding_keeps_the_number(n, 4);
        crate::text::laws::law_numbers_are_read_back(n, 16);
        let h = crate::text::hex_padded(n, 4);
        assert(h.len() == 4) by {
            assert(crate::text::in_base(n, 16).len() <= 2) by {
                if n >= 16 {
                    assert(crate::text::in_base(n, 16) == crate::text::in_base(n / 16, 16).push(
                        crate::text::digit((n % 16) as int),
                    ));
                    assert(crate::text::in_base(n / 16, 16) == seq![
                        crate::text::digit((n / 16) as int),
                    ]);
                }
            }
        }
        assert(guarded_char(c).skip(2) =~= h);
    }
}

/// The toolbar takes the upper 30 rows of a window, the desktop the rest.
pub proof fn law_window_is_shared(win_h: u32)
    ensures
        win_h > 30 ==> bar_of(win_h) == 30 && desk_of(win_h) == win_h - 30,
        win_h <= 30 ==> bar_of(win_h) == win_h && desk_of(win_h) == 1,
{
}

/// A desktop of just the size of the free part is shown pixel for pixel.
pub proof fn law_fitting_desktops_are_not_scaled(
    s: Screen,
    src: Seq<u8>,
    cols: Seq<Sample>,
    rows: Seq<Sample>,
    x: int,
    y: int,
)
    requires
        s.height > 30,
        0 <= x < s.width,
        30 <= y < s.height,
        src.len() == 4 * s.width * (s.height - 30),
    ensures
        ({
            let c = (s.picture(src, s.width, (s.height - 30) as u32, cols, rows).at)(x, y);
            let i = 4 * ((y - 30) * s.width + x);
            channel(c, 2) == src[i] && channel(c, 1) == src[i + 1] && channel(c, 0) == src[i + 2]
        }),
{
    let i = 4 * ((y - 30) * s.width + x);
    assert((y - 30) * s.width + x + 1 <= s.width * (s.height - 30)) by (nonlinear_arith)
        requires
            0 <= x < s.width,
            30 <= y < s.height,
    ;
    assert(4 * s.width * (s.height - 30) == 4 * (s.width * (s.height - 30))) by (nonlinear_arith);
    crate::viewer::looks::law_desktop_pixels(s, 30, src, x, y);
}

/// The mouse below the toolbar is the mouse on the desktop: its place is remembered, and a
/// button is reported there. Over the toolbar the last place stays.
pub proof fn law_buttons_are_reported_at_the_last_place(
    s: WindowState,
    x: u32,
    y: i64,
    desk: (u16, u16),
    since: u64,
    action: crate::viewer::input::MouseAction,
    pressed: bool,
    win_w: u32,
    widths: Seq<u32>,
)
    requires
        !s.controls.view_only,
        y >= 30,
    ensures
        ({
            let t = s.next(WindowInput::Moved { x, y, desk, since_move: since });
            let r = t.reaction(WindowInput::Button { action, pressed, win_w }, widths);
            &&& r.send.len() == 1
            &&& r.send[0] == (crate::viewer::input::InputEvent::Mouse {
                action,
                down: pressed,
                units: 0,
                x: desk.0,
                y: desk.1,
            })
            &&& r.button is None
        }),
{
}

/// Moves are sent at most every 15 milliseconds, repaints made at most every 16.
pub proof fn law_window_paces(s: WindowState, x: u32, y: i64, desk: (u16, u16), ms: u64, widths: Seq<u32>)
    requires
        y >= 30,
        !s.controls.view_only,
    ensures
        ({
            let r = s.reaction(WindowInput::Moved { x, y, desk, since_move: ms }, widths);
            (r.send.len() == 1) == (ms >= 15) && r.moved == (ms >= 15) && r.redraw
        }),
        ({
            let i = WindowInput::RedrawRequested { since_paint: ms };
            s.reaction(i, widths).paint == (ms >= 16) && s.next(i).cap.pending == (ms < 16)
        }),
{
}

/// A region that is taken over brings its own pixels and leaves the others as they were.
pub proof fn law_region_copies_only_the_region(
    old_rgba: Seq<u8>,
    src: Seq<u8>,
    r: UpdateRegion,
    width: u32,
    height: u32,
    x: int,
    y: int,
    c: int,
)
    requires
        r.left <= r.right < width,
        r.top <= r.bottom < height,
        src.len() == 4 * (width * height),
        0 <= x < width,
        0 <= y < height,
        0 <= c < 4,
    ensures
        ({
            let i = 4 * (y * width + x) + c;
            merged(old_rgba, src, r, width, height)[i] == (if r.left <= x <= r.right && r.top <= y
                <= r.bottom {
                src[i]
            } else {
                old_rgba[i]
            })
        }),
{
    let i = 4 * (y * width + x) + c;
    let len = src.len() as int;
    assert(0 <= y * width && y * width + width <= width * height) by (nonlinear_arith)
        requires
            0 <= y < height,
            0 <= width,
    ;
    if r.left <= x <= r.right && r.top <= y <= r.bottom {
        assert(in_row(r, width, len, y, i));
    }
    if touched(r, width, height, len, i) {
        let z = choose|z: int|
            at_most(r.top as int, region_bottom(r, height)) <= z <= region_bottom(r, height)
                && #[trigger] in_row(r, width, len, z, i);
        if z < y {
            assert(z * width + width <= y * width) by (nonlinear_arith)
                requires
                    z < y,
                    0 <= width,
            ;
        } else if z > y {
            assert(y * width + width <= z * width) by (nonlinear_arith)
                requires
                    y < z,
                    0 <= width,
            ;
        }
    }
}

/// The whole picture is taken over if its size has changed, and every 300 milliseconds.
pub proof fn law_full_copies(f: SharedFrame, src: Seq<u8>, width: u32, height: u32, since: u64)
    ensures
        f.wants_all(src, width, height, since) <==> f.width != width || f.height != height
            || f.rgba@.len() != src.len() || since >= 300,
{
}

/// The attention sequence presses control (0x1D), alt (0x38) and the extended delete (0x53),
/// and lets them go in the opposite order.
pub proof fn law_attention_keys(k: int)
    requires
        0 <= k < 6,
    ensures
        attention().len() == 6,
        ({
            let j = if k < 3 {
                k
            } else {
                5 - k
            };
            attention()[k] == (InputEvent::Key {
                release: k >= 3,
                extended: j == 2,
                code: if j == 0 {
                    0x1D
                } else if j == 1 {
                    0x38
                } else {
                    0x53
                },
            })
        }),
{
}

/// A key is sent by its scan code, pressed or let go; End with control and alt is the
/// attention sequence when it is pressed. A turn of the wheel is sent as it is.
pub proof fn law_keys_are_sent(
    s: WindowState,
    pressed: bool,
    end_key: bool,
    code: u32,
    units: i16,
    widths: Seq<u32>,
)
    requires
        !s.controls.view_only,
    ensures
        ({
            let r = s.reaction(
                WindowInput::Key { pressed, end_key, scancode: Some(code) },
                widths,
            );
            if pressed && end_key && s.ctrl && s.alt {
                r.send == attention()
            } else {
                r.send.len() == 1 && r.send[0] == (InputEvent::Key {
                    release: !pressed,
                    extended: code >= 256,
                    code: (code % 256) as u8,
                })
            }
        }),
        ({
            let r = s.reaction(WindowInput::Wheel { units }, widths);
            r.send.len() == 1 && (r.send[0] matches InputEvent::Mouse { action, down, units: n, x, y }
                && action == MouseAction::Wheel && n == units)
        }),
{
}

} // verus!
