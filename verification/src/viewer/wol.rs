//! Wake-on-LAN: the magic packet, and the file that remembers the hardware
//! addresses of hosts, one `host=MAC` per line.

use crate::text::parse::{
    contains, digit_of, digit_value, join_lines, joined_lines, law_lines_are_read_back,
    law_trimming_is_done_once, lemma_lines_are_lines, lemma_split_behind, lines, lines_in,
    occurs, one_line, split_at_first, split_once, texts, trim, trimmed, words, words_in,
};
use crate::text::{
    chars_of, digit, eq_ignoring_case, hex_padded, hex_upper, in_base, push_hex_upper, push_text,
    same_ignoring_case, string_of, strings_of, upper, zeros,
};
use vstd::prelude::*;

verus! {

/// The hexadecimal digits of a text; everything else is passed over.
pub open spec fn digits_in(s: Seq<char>) -> Seq<nat>
    decreases s.len(),
{
    if s.len() == 0 {
        Seq::empty()
    } else {
        let before = digits_in(s.drop_last());
        match digit_value(s.last()) {
            Some(d) => before.push(d),
            None => before,
        }
    }
}

/// The six bytes that twelve digits write.
pub open spec fn six_bytes(d: Seq<nat>) -> Seq<u8> {
    Seq::new(6, |i: int| (16 * d[2 * i] + d[2 * i + 1]) as u8)
}

/// The hardware address that a text writes: exactly twelve hexadecimal digits, in
/// whatever groups.
pub open spec fn mac_in(s: Seq<char>) -> Option<Seq<u8>> {
    if digits_in(s).len() == 12 {
        Some(six_bytes(digits_in(s)))
    } else {
        None
    }
}

/// Parse a hardware address like `AA-BB-CC-DD-EE-FF`, `aa:bb:...` or
/// `aabbccddeeff`.
pub fn parse_mac(s: &str) -> (r: Option<[u8; 6]>)
    ensures
        match r {
            Some(m) => mac_in(s@) == Some(m@),
            None => mac_in(s@) is None,
        },
{
    let chars: Vec<char> = chars_of(s);
    let mut d: Vec<u8> = Vec::new();
    let mut i: usize = 0;
    assert(s@.take(0) =~= Seq::empty());
    while i < chars.len()
        invariant
            chars@ == s@,
            i <= chars@.len(),
            d@.len() == digits_in(s@.take(i as int)).len(),
            forall|k: int|
                0 <= k < d@.len() ==> #[trigger] d@[k] < 16 && d@[k] == digits_in(
                    s@.take(i as int),
                )[k],
        decreases chars@.len() - i,
    {
        let ghost before = d@;
        if let Some(v) = digit_of(chars[i]) {
            d.push(v);
        }
        i = i + 1;
        assert(s@.take(i as int).drop_last() =~= s@.take(i - 1));
    }
    assert(s@.take(i as int) =~= s@);
    if d.len() != 12 {
        return None;
    }
    let m: [u8; 6] = [
        16 * d[0] + d[1],
        16 * d[2] + d[3],
        16 * d[4] + d[5],
        16 * d[6] + d[7],
        16 * d[8] + d[9],
        16 * d[10] + d[11],
    ];
    assert(m@ =~= six_bytes(digits_in(s@)));
    Some(m)
}

/// A hardware address as text.
pub open spec fn mac_text(m: Seq<u8>) -> Seq<char>
    decreases m.len(),
{
    if m.len() == 0 {
        Seq::empty()
    } else if m.len() == 1 {
        hex_upper(m[0] as nat, 2)
    } else {
        mac_text(m.drop_last()) + "-"@ + hex_upper(m.last() as nat, 2)
    }
}

/// A hardware address as `AA-BB-CC-DD-EE-FF`.
pub fn fmt_mac(mac: [u8; 6]) -> (s: String)
    ensures
        s@ == mac_text(mac@),
{
    let mut s = String::new();
    let mut i: usize = 0;
    assert(s@ =~= mac_text(mac@.take(0)));
    while i < 6
        invariant
            i <= 6,
            mac@.len() == 6,
            s@ == mac_text(mac@.take(i as int)),
        decreases 6 - i,
    {
        let ghost before = mac@.take(i as int);
        if i > 0 {
            push_text(&mut s, "-");
        }
        push_hex_upper(&mut s, mac[i] as u64, 2);
        i = i + 1;
        proof {
            let t = mac@.take(i as int);
            assert(t.drop_last() =~= before);
            assert(s@ =~= mac_text(t));
        }
    }
    assert(mac@.take(i as int) =~= mac@);
    s
}

proof fn lemma_hex_pair(b: u8)
    ensures
        hex_upper(b as nat, 2).len() == 2,
        digit_value(hex_upper(b as nat, 2)[0]) == Some((b / 16) as nat),
        digit_value(hex_upper(b as nat, 2)[1]) == Some((b % 16) as nat),
{
    reveal_with_fuel(in_base, 3);
    let n = b as nat;
    let s = in_base(n, 16);
    if n < 16 {
        assert(s =~= seq![digit(n as int)]);
        assert(zeros(2, s) =~= seq!['0', digit(n as int)]);
    } else {
        assert(n / 16 < 16);
        assert(s =~= seq![digit((n / 16) as int), digit((n % 16) as int)]);
        assert(zeros(2, s) =~= s);
    }
    let h = hex_padded(n, 2);
    assert(h.len() == 2);
    lemma_digit_back((b / 16) as int);
    lemma_digit_back((b % 16) as int);
    assert(h[0] == digit((b / 16) as int));
    assert(h[1] == digit((b % 16) as int));
}

proof fn lemma_digit_back(d: int)
    requires
        0 <= d < 16,
    ensures
        digit_value(upper(digit(d))) == Some(d as nat),
{
}

proof fn lemma_digits_of_joined(a: Seq<char>, b: Seq<char>)
    ensures
        digits_in(a + b) == digits_in(a) + digits_in(b),
    decreases b.len(),
{
    if b.len() == 0 {
        assert(a + b =~= a);
        assert(digits_in(a) + digits_in(b) =~= digits_in(a));
    } else {
        assert((a + b).drop_last() =~= a + b.drop_last());
        lemma_digits_of_joined(a, b.drop_last());
        assert(digits_in(a + b) =~= digits_in(a) + digits_in(b));
    }
}

proof fn lemma_digits_of_pair(b: u8)
    ensures
        digits_in(hex_upper(b as nat, 2)) == seq![(b / 16) as nat, (b % 16) as nat],
{
    lemma_hex_pair(b);
    let h = hex_upper(b as nat, 2);
    reveal_with_fuel(digits_in, 3);
    assert(h.drop_last().drop_last() =~= Seq::empty());
    assert(digits_in(h) =~= seq![(b / 16) as nat, (b % 16) as nat]);
}

proof fn lemma_digits_of_mac(m: Seq<u8>)
    ensures
        digits_in(mac_text(m)).len() == 2 * m.len(),
        forall|i: int|
            0 <= i < m.len() ==> digits_in(mac_text(m))[2 * i] == #[trigger] m[i] / 16 && digits_in(
                mac_text(m),
            )[2 * i + 1] == m[i] % 16,
    decreases m.len(),
{
    if m.len() == 1 {
        lemma_digits_of_pair(m[0]);
    } else if m.len() > 1 {
        let rest = m.drop_last();
        lemma_digits_of_mac(rest);
        lemma_digits_of_pair(m.last());
        let pair = hex_upper(m.last() as nat, 2);
        lemma_digits_of_joined(mac_text(rest), "-"@);
        lemma_digits_of_joined(mac_text(rest) + "-"@, pair);
        reveal_strlit("-");
        assert(digits_in("-"@) =~= Seq::empty()) by {
            reveal_with_fuel(digits_in, 2);
            assert("-"@.drop_last() =~= Seq::empty());
            assert(digit_value('-') is None);
            assert("-"@.last() == '-');
        }
        assert(digits_in(mac_text(rest)) + digits_in("-"@) =~= digits_in(mac_text(rest)));
        assert forall|i: int| 0 <= i < m.len() implies digits_in(mac_text(m))[2 * i]
            == #[trigger] m[i] / 16 && digits_in(mac_text(m))[2 * i + 1] == m[i] % 16 by {
            if i < rest.len() {
                assert(rest[i] == m[i]);
            }
        }
    }
}

/// A hardware address is read back as it was written.
pub proof fn law_mac_round_trip(m: Seq<u8>)
    requires
        m.len() == 6,
    ensures
        mac_in(mac_text(m)) == Some(m),
{
    lemma_digits_of_mac(m);
    let d = digits_in(mac_text(m));
    assert(six_bytes(d) =~= m) by {
        assert forall|i: int| 0 <= i < 6 implies six_bytes(d)[i] == m[i] by {
            assert(d[2 * i] == m[i] / 16);
        }
    }
}

/// A magic packet: six bytes of ones, then the address sixteen times.
pub open spec fn magic(mac: Seq<u8>) -> Seq<u8> {
    Seq::new(
        102,
        |i: int|
            if i < 6 {
                0xFFu8
            } else {
                mac[(i - 6) % 6]
            },
    )
}

/// Build the magic packet that wakes a host.
pub fn magic_packet(mac: [u8; 6]) -> (pkt: Vec<u8>)
    ensures
        pkt@ == magic(mac@),
{
    let mut pkt: Vec<u8> = vec![0xFFu8; 6];
    let mut k: usize = 0;
    while k < 96
        invariant
            k <= 96,
            mac@.len() == 6,
            pkt@.len() == 6 + k,
            forall|i: int| 0 <= i < pkt@.len() ==> pkt@[i] == magic(mac@)[i],
        decreases 96 - k,
    {
        pkt.push(mac[k % 6]);
        k = k + 1;
    }
    assert(pkt@ =~= magic(mac@));
    pkt
}

/// The host and the address on a line `host=MAC`.
pub open spec fn entry(line: Seq<char>) -> Option<(Seq<char>, Seq<char>)> {
    split_at_first(line, '=')
}

/// Whether a line is about a host.
pub open spec fn is_about(line: Seq<char>, host: Seq<char>) -> bool {
    entry(line) matches Some((h, m)) && same_ignoring_case(trimmed(h), trimmed(host))
}

/// The address on the first line about a host.
pub open spec fn mac_on(l: Seq<Seq<char>>, host: Seq<char>) -> Option<Seq<u8>>
    decreases l.len(),
{
    if l.len() == 0 {
        None
    } else if is_about(l[0], host) {
        mac_in(entry(l[0]).unwrap().1)
    } else {
        mac_on(l.skip(1), host)
    }
}

/// The address of a host in the contents of the file.
pub fn cached_mac(file: &str, host: &str) -> (r: Option<[u8; 6]>)
    ensures
        match r {
            Some(m) => mac_on(lines_in(file@), host@) == Some(m@),
            None => mac_on(lines_in(file@), host@) is None,
        },
{
    let l: Vec<Vec<char>> = lines(chars_of(file).as_slice());
    let ghost all = lines_in(file@);
    let name: String = string_of(trim(chars_of(host).as_slice()));
    let mut i: usize = 0;
    assert(all.skip(0) =~= all);
    assert(texts(l@).len() == l@.len());
    while i < l.len()
        invariant
            i <= l@.len(),
            all == lines_in(file@),
            all == texts(l@),
            l@.len() == all.len(),
            name@ == trimmed(host@),
            mac_on(all, host@) == mac_on(all.skip(i as int), host@),
        decreases l@.len() - i,
    {
        let ghost rest = all.skip(i as int);
        assert(rest[0] == l@[i as int]@);
        if let Some((h, m)) = split_once(l[i].as_slice(), '=') {
            let key: String = string_of(trim(h));
            if eq_ignoring_case(key.as_str(), name.as_str()) {
                return parse_mac(string_of(m).as_str());
            }
        }
        i = i + 1;
        assert(rest.skip(1) =~= all.skip(i as int));
    }
    None
}

/// The lines about other hosts; lines that are no entries are dropped.
pub open spec fn other_entries(l: Seq<Seq<char>>, host: Seq<char>) -> Seq<Seq<char>>
    decreases l.len(),
{
    if l.len() == 0 {
        Seq::empty()
    } else {
        let before = other_entries(l.drop_last(), host);
        if entry(l.last()) is Some && !is_about(l.last(), host) {
            before.push(l.last())
        } else {
            before
        }
    }
}

/// An entry of the file.
pub open spec fn entry_text(host: Seq<char>, mac: Seq<u8>) -> Seq<char> {
    trimmed(host) + "="@ + mac_text(mac)
}

/// The contents of the file with the address of a host in it.
pub open spec fn file_with(file: Seq<char>, host: Seq<char>, mac: Seq<u8>) -> Seq<char> {
    joined_lines(other_entries(lines_in(file), host).push(entry_text(host, mac)))
}

/// The contents of the file with the address of a host in it, in place of any
/// before.
pub fn cache_mac(file: &str, host: &str, mac: [u8; 6]) -> (s: String)
    ensures
        s@ == file_with(file@, host@, mac@),
{
    let l: Vec<Vec<char>> = lines(chars_of(file).as_slice());
    let ghost all = lines_in(file@);
    let name: String = string_of(trim(chars_of(host).as_slice()));
    let mut out: Vec<String> = Vec::new();
    let mut i: usize = 0;
    assert(all.take(0) =~= Seq::empty());
    assert(strings_of(out@) =~= Seq::empty());
    assert(texts(l@).len() == l@.len());
    while i < l.len()
        invariant
            i <= l@.len(),
            all == texts(l@),
            l@.len() == all.len(),
            name@ == trimmed(host@),
            strings_of(out@) == other_entries(all.take(i as int), host@),
        decreases l@.len() - i,
    {
        let ghost before = strings_of(out@);
        assert(all[i as int] == l@[i as int]@);
        if let Some((h, _)) = split_once(l[i].as_slice(), '=') {
            let key: String = string_of(trim(h));
            if !eq_ignoring_case(key.as_str(), name.as_str()) {
                out.push(string_of(l[i].as_slice()));
                assert(strings_of(out@) =~= before.push(all[i as int]));
            }
        }
        i = i + 1;
        assert(all.take(i as int).drop_last() =~= all.take(i - 1));
    }
    assert(all.take(i as int) =~= all);
    let ghost before = strings_of(out@);
    let mut last = name;
    push_text(&mut last, "=");
    push_text(&mut last, fmt_mac(mac).as_str());
    out.push(last);
    assert(strings_of(out@) =~= before.push(last@));
    join_lines(out.as_slice())
}

proof fn lemma_other_entries(l: Seq<Seq<char>>, host: Seq<char>)
    requires
        forall|i: int| 0 <= i < l.len() ==> one_line(#[trigger] l[i]),
    ensures
        forall|i: int|
            0 <= i < other_entries(l, host).len() ==> one_line(#[trigger] other_entries(l, host)[i])
                && !is_about(other_entries(l, host)[i], host),
    decreases l.len(),
{
    if l.len() > 0 {
        let rest = l.drop_last();
        assert forall|i: int| 0 <= i < rest.len() implies one_line(#[trigger] rest[i]) by {
            assert(one_line(l[i]));
        }
        lemma_other_entries(rest, host);
        assert(one_line(l[l.len() - 1]));
        let before = other_entries(rest, host);
        let after = other_entries(l, host);
        assert forall|i: int| 0 <= i < after.len() implies one_line(#[trigger] after[i])
            && !is_about(after[i], host) by {
            if i < before.len() {
                assert(one_line(before[i]));
                assert(after[i] == before[i]);
            }
        }
    }
}

proof fn lemma_mac_on_last(l: Seq<Seq<char>>, host: Seq<char>, last: Seq<char>)
    requires
        forall|i: int| 0 <= i < l.len() ==> !is_about(#[trigger] l[i], host),
        is_about(last, host),
    ensures
        mac_on(l.push(last), host) == mac_in(entry(last).unwrap().1),
    decreases l.len(),
{
    let all = l.push(last);
    if l.len() > 0 {
        let rest = l.skip(1);
        assert forall|i: int| 0 <= i < rest.len() implies !is_about(#[trigger] rest[i], host) by {
            assert(!is_about(l[i + 1], host));
        }
        assert(!is_about(l[0], host));
        assert(all[0] == l[0]);
        assert(all.skip(1) =~= rest.push(last));
        lemma_mac_on_last(rest, host, last);
    }
}

proof fn lemma_mac_text_has_no_newline(m: Seq<u8>)
    ensures
        one_line(mac_text(m)),
    decreases m.len(),
{
    reveal_strlit("-");
    if m.len() > 0 {
        lemma_hex_pair(m.last());
        lemma_mac_text_has_no_newline(m.drop_last());
        let pair = hex_upper(m.last() as nat, 2);
        assert(pair[0] != '\n' && pair[1] != '\n') by {
            assert(digit_value('\n') is None);
        }
        if m.len() == 1 {
            assert(m[0] == m.last());
        }
    }
}

/// The file is read back line by line: the entries of the other hosts, then the new one.
pub proof fn lemma_file_lines(file: Seq<char>, host: Seq<char>, mac: Seq<u8>)
    requires
        mac.len() == 6,
        one_line(trimmed(host)),
    ensures
        lines_in(file_with(file, host, mac)) == other_entries(lines_in(file), host).push(
            entry_text(host, mac),
        ),
{
    let name = trimmed(host);
    let kept = other_entries(lines_in(file), host);
    let last = entry_text(host, mac);
    lemma_lines_are_lines(file);
    lemma_other_entries(lines_in(file), host);
    lemma_mac_text_has_no_newline(mac);
    reveal_strlit("=");
    assert(last =~= name + seq!['='] + mac_text(mac));
    let all = kept.push(last);
    assert forall|i: int| 0 <= i < all.len() implies one_line(#[trigger] all[i]) by {
        if i < kept.len() {
            assert(one_line(kept[i]));
        }
    }
    law_lines_are_read_back(all);
}

/// The address that was remembered for a host is the one that is found for it.
/// Left out are names with an equals sign or a newline, which cannot stand in the
/// file.
pub proof fn law_remembered_mac_is_found(file: Seq<char>, host: Seq<char>, mac: Seq<u8>)
    requires
        mac.len() == 6,
        one_line(trimmed(host)),
        forall|i: int| 0 <= i < trimmed(host).len() ==> trimmed(host)[i] != '=',
    ensures
        mac_on(lines_in(file_with(file, host, mac)), host) == Some(mac),
{
    law_trimming_is_done_once(host);
    let name = trimmed(host);
    let kept = other_entries(lines_in(file), host);
    let last = entry_text(host, mac);
    lemma_lines_are_lines(file);
    lemma_other_entries(lines_in(file), host);
    lemma_mac_text_has_no_newline(mac);
    reveal_strlit("=");
    assert(last =~= name + seq!['='] + mac_text(mac));
    lemma_split_behind(name, '=', mac_text(mac));
    assert(is_about(last, host));
    lemma_file_lines(file, host, mac);
    assert forall|i: int| 0 <= i < kept.len() implies !is_about(#[trigger] kept[i], host) by {
        assert(one_line(kept[i]));
    }
    lemma_mac_on_last(kept, host, last);
    law_mac_round_trip(mac);
}

/// How often a character occurs.
pub open spec fn count(s: Seq<char>, c: char) -> nat
    decreases s.len(),
{
    if s.len() == 0 {
        0
    } else {
        count(s.drop_last(), c) + if s.last() == c {
            1nat
        } else {
            0nat
        }
    }
}

fn count_char(s: &[char], c: char) -> (n: usize)
    ensures
        n == count(s@, c),
{
    let mut n: usize = 0;
    let mut i: usize = 0;
    while i < s.len()
        invariant
            i <= s@.len(),
            n <= i,
            n == count(s@.take(i as int), c),
        decreases s@.len() - i,
    {
        if s[i] == c {
            n = n + 1;
        }
        i = i + 1;
        assert(s@.take(i as int).drop_last() =~= s@.take(i - 1));
    }
    assert(s@.take(i as int) =~= s@);
    n
}

/// The first address among words: one with five dashes.
pub open spec fn mac_among(w: Seq<Seq<char>>) -> Option<Seq<u8>>
    decreases w.len(),
{
    if w.len() == 0 {
        None
    } else if count(w[0], '-') == 5 && mac_in(w[0]) is Some {
        mac_in(w[0])
    } else {
        mac_among(w.skip(1))
    }
}

/// The first address on lines that name an IP address.
pub open spec fn mac_for(l: Seq<Seq<char>>, ip: Seq<char>) -> Option<Seq<u8>>
    decreases l.len(),
{
    if l.len() == 0 {
        None
    } else if occurs(l[0], ip) && mac_among(words_in(l[0])) is Some {
        mac_among(words_in(l[0]))
    } else {
        mac_for(l.skip(1), ip)
    }
}

fn mac_in_words(w: &Vec<Vec<char>>) -> (r: Option<[u8; 6]>)
    ensures
        match r {
            Some(m) => mac_among(texts(w@)) == Some(m@),
            None => mac_among(texts(w@)) is None,
        },
{
    let ghost all = texts(w@);
    let mut i: usize = 0;
    assert(all.skip(0) =~= all);
    while i < w.len()
        invariant
            i <= w@.len(),
            all == texts(w@),
            mac_among(all) == mac_among(all.skip(i as int)),
        decreases w@.len() - i,
    {
        let ghost rest = all.skip(i as int);
        assert(rest[0] == w@[i as int]@);
        if count_char(w[i].as_slice(), '-') == 5 {
            if let Some(m) = parse_mac(string_of(w[i].as_slice()).as_str()) {
                return Some(m);
            }
        }
        i = i + 1;
        assert(rest.skip(1) =~= all.skip(i as int));
    }
    None
}

/// The hardware address of an IP address in the text of the ARP table.
pub fn mac_in_arp_table(table: &str, ip: &str) -> (r: Option<[u8; 6]>)
    ensures
        match r {
            Some(m) => mac_for(lines_in(table@), ip@) == Some(m@),
            None => mac_for(lines_in(table@), ip@) is None,
        },
{
    let l: Vec<Vec<char>> = lines(chars_of(table).as_slice());
    let ghost all = lines_in(table@);
    let needle: Vec<char> = chars_of(ip);
    let mut i: usize = 0;
    assert(all.skip(0) =~= all);
    assert(texts(l@).len() == l@.len());
    while i < l.len()
        invariant
            i <= l@.len(),
            all == lines_in(table@),
            all == texts(l@),
            l@.len() == all.len(),
            needle@ == ip@,
            mac_for(all, ip@) == mac_for(all.skip(i as int), ip@),
        decreases l@.len() - i,
    {
        let ghost rest = all.skip(i as int);
        assert(rest[0] == l@[i as int]@);
        if contains(l[i].as_slice(), needle.as_slice()) {
            if let Some(m) = mac_in_words(&words(l[i].as_slice())) {
                return Some(m);
            }
        }
        i = i + 1;
        assert(rest.skip(1) =~= all.skip(i as int));
    }
    None
}

} // verus!
