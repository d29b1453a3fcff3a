//! Recent connection targets, most recent first, kept in a file with one host per
//! line.

use crate::text::parse::{
    join_lines, joined_lines, law_lines_are_read_back, lines, lines_in, one_line, texts, trim, trimmed,
};
use crate::text::{chars_of, eq_ignoring_case, same_ignoring_case, string_of, strings_of};
use vstd::prelude::*;

verus! {

/// How many hosts are kept.
pub const CAP: usize = 12;

/// The hosts on lines: without white space around them, and none that is empty.
pub open spec fn hosts_on(l: Seq<Seq<char>>) -> Seq<Seq<char>>
    decreases l.len(),
{
    if l.len() == 0 {
        Seq::empty()
    } else {
        let rest = hosts_on(l.skip(1));
        if trimmed(l[0]).len() > 0 {
            seq![trimmed(l[0])] + rest
        } else {
            rest
        }
    }
}

/// As many as are kept.
pub open spec fn capped(l: Seq<Seq<char>>) -> Seq<Seq<char>> {
    if l.len() <= CAP {
        l
    } else {
        l.take(CAP as int)
    }
}

/// The hosts in a file.
pub open spec fn hosts_in(file: Seq<char>) -> Seq<Seq<char>> {
    capped(hosts_on(lines_in(file)))
}

/// Recent hosts in a file, most recent first (capped).
pub fn load(file: &str) -> (r: Vec<String>)
    ensures
        strings_of(r@) == hosts_in(file@),
{
    let l: Vec<Vec<char>> = lines(chars_of(file).as_slice());
    let ghost all = lines_in(file@);
    let mut out: Vec<String> = Vec::new();
    let mut i: usize = 0;
    assert(all.skip(0) =~= all);
    assert(strings_of(out@) + hosts_on(all) =~= hosts_on(all));
    assert(texts(l@).len() == l@.len());
    while i < l.len()
        invariant
            i <= l@.len(),
            l@.len() == all.len(),
            all == lines_in(file@),
            all == texts(l@),
            out@.len() <= CAP,
            hosts_on(all) == strings_of(out@) + hosts_on(all.skip(i as int)),
        decreases l@.len() - i,
    {
        if out.len() == CAP {
            assert(capped(hosts_on(all)) =~= strings_of(out@));
            return out;
        }
        let ghost rest = all.skip(i as int);
        let ghost before = strings_of(out@);
        assert(all[i as int] == l@[i as int]@);
        let host: String = string_of(trim(l[i].as_slice()));
        i = i + 1;
        assert(rest.skip(1) =~= all.skip(i as int));
        if chars_of(host.as_str()).len() > 0 {
            out.push(host);
            assert(strings_of(out@) =~= before.push(host@));
        }
        assert(strings_of(out@) + hosts_on(all.skip(i as int)) =~= before + hosts_on(rest));
    }
    assert(strings_of(out@) + hosts_on(all.skip(i as int)) =~= strings_of(out@));
    out
}

/// The hosts that are not the given one, in whatever case.
pub open spec fn others(l: Seq<Seq<char>>, host: Seq<char>) -> Seq<Seq<char>>
    decreases l.len(),
{
    if l.len() == 0 {
        Seq::empty()
    } else {
        let before = others(l.drop_last(), host);
        if same_ignoring_case(l.last(), host) {
            before
        } else {
            before.push(l.last())
        }
    }
}

/// The hosts after one more connection: the host comes first, and only there.
pub open spec fn with_host(l: Seq<Seq<char>>, host: Seq<char>) -> Seq<Seq<char>> {
    capped(seq![host] + others(l, host))
}

/// The file after a connection to `host`, given the file before; nothing where the
/// host is empty.
pub open spec fn file_with(file: Seq<char>, host: Seq<char>) -> Option<Seq<char>> {
    if trimmed(host).len() == 0 {
        None
    } else {
        Some(joined_lines(with_host(hosts_in(file), trimmed(host))))
    }
}

/// Record `host` as the most recent target (dedup, case-insensitive): the new
/// contents of the file.
pub fn add(file: &str, host: &str) -> (r: Option<String>)
    ensures
        match r {
            Some(s) => file_with(file@, host@) == Some(s@),
            None => file_with(file@, host@) is None,
        },
{
    let host: String = string_of(trim(chars_of(host).as_slice()));
    if chars_of(host.as_str()).len() == 0 {
        return None;
    }
    let list: Vec<String> = load(file);
    let ghost all = strings_of(list@);
    let mut out: Vec<String> = Vec::new();
    out.push(String::from_str(host.as_str()));
    let mut i: usize = 0;
    assert(strings_of(out@) =~= seq![host@] + others(all.take(0), host@));
    while i < list.len()
        invariant
            i <= list@.len(),
            all == strings_of(list@),
            strings_of(out@) == seq![host@] + others(all.take(i as int), host@),
        decreases list@.len() - i,
    {
        let ghost before = strings_of(out@);
        if !eq_ignoring_case(list[i].as_str(), host.as_str()) {
            out.push(String::from_str(list[i].as_str()));
            assert(strings_of(out@) =~= before.push(all[i as int]));
        }
        i = i + 1;
        proof {
            let t = all.take(i as int);
            assert(t.drop_last() =~= all.take(i - 1));
            assert(strings_of(out@) =~= seq![host@] + others(t, host@));
        }
    }
    assert(all.take(i as int) =~= all);
    if out.len() > CAP {
        let ghost before = strings_of(out@);
        out.truncate(CAP);
        assert(strings_of(out@) =~= before.take(CAP as int));
    }
    Some(join_lines(out.as_slice()))
}

/// The host of the last connection comes first, no host is listed that differs from
/// it only in case, and the list does not grow beyond its cap.
pub proof fn law_last_host_comes_first_and_once(l: Seq<Seq<char>>, host: Seq<char>)
    ensures
        with_host(l, host)[0] == host,
        with_host(l, host).len() <= CAP,
        forall|i: int|
            0 < i < with_host(l, host).len() ==> !same_ignoring_case(
                #[trigger] with_host(l, host)[i],
                host,
            ),
{
    lemma_others(l, host);
    let o = others(l, host);
    assert forall|i: int| 0 < i < with_host(l, host).len() implies !same_ignoring_case(
        #[trigger] with_host(l, host)[i],
        host,
    ) by {
        assert(with_host(l, host)[i] == o[i - 1]);
    }
}

proof fn lemma_others(l: Seq<Seq<char>>, host: Seq<char>)
    ensures
        forall|i: int|
            0 <= i < others(l, host).len() ==> !same_ignoring_case(
                #[trigger] others(l, host)[i],
                host,
            ),
        others(l, host).len() <= l.len(),
    decreases l.len(),
{
    if l.len() > 0 {
        lemma_others(l.drop_last(), host);
    }
}

proof fn lemma_others_again(l: Seq<Seq<char>>, host: Seq<char>)
    requires
        forall|i: int| 0 <= i < l.len() ==> !same_ignoring_case(#[trigger] l[i], host),
    ensures
        others(l, host) == l,
    decreases l.len(),
{
    if l.len() > 0 {
        let rest = l.drop_last();
        assert forall|i: int| 0 <= i < rest.len() implies !same_ignoring_case(
            #[trigger] rest[i],
            host,
        ) by {
            assert(rest[i] == l[i]);
        }
        lemma_others_again(rest, host);
        assert(!same_ignoring_case(l[l.len() - 1], host));
        assert(others(l, host) =~= l);
    } else {
        assert(others(l, host) =~= l);
    }
}

/// Connecting twice to the same host in a row lists it as connecting once does.
pub proof fn law_adding_twice_is_adding_once(l: Seq<Seq<char>>, host: Seq<char>)
    ensures
        with_host(with_host(l, host), host) == with_host(l, host),
{
    law_last_host_comes_first_and_once(l, host);
    let once = with_host(l, host);
    let rest = once.skip(1);
    assert forall|i: int| 0 <= i < rest.len() implies !same_ignoring_case(
        #[trigger] rest[i],
        host,
    ) by {
        assert(rest[i] == once[i + 1]);
    }
    lemma_others_again(rest, host);
    lemma_others_of_front(host, rest);
    assert(seq![host] + rest =~= once);
}

proof fn lemma_others_of_front(host: Seq<char>, rest: Seq<Seq<char>>)
    ensures
        others(seq![host] + rest, host) == others(rest, host),
    decreases rest.len(),
{
    let all = seq![host] + rest;
    if rest.len() == 0 {
        assert(all.drop_last() =~= Seq::empty());
        assert(others(all.drop_last(), host) =~= Seq::empty());
    } else {
        assert(all.drop_last() =~= seq![host] + rest.drop_last());
        lemma_others_of_front(host, rest.drop_last());
    }
}

/// Whether a text can stand as a host on a line: not empty, no white space around
/// it, on one line.
pub open spec fn is_host(h: Seq<char>) -> bool {
    h.len() > 0 && trimmed(h) == h && one_line(h)
}

/// The list is read back as it was written.
pub proof fn law_hosts_are_read_back(l: Seq<Seq<char>>)
    requires
        l.len() <= CAP,
        forall|i: int| 0 <= i < l.len() ==> is_host(#[trigger] l[i]),
    ensures
        hosts_in(joined_lines(l)) == l,
{
    assert forall|i: int| 0 <= i < l.len() implies one_line(#[trigger] l[i]) by {
        assert(is_host(l[i]));
    }
    if l.len() > 0 {
        assert(is_host(l[l.len() - 1]));
    }
    law_lines_are_read_back(l);
    lemma_hosts_on(l);
}

proof fn lemma_hosts_on(l: Seq<Seq<char>>)
    requires
        forall|i: int| 0 <= i < l.len() ==> is_host(#[trigger] l[i]),
    ensures
        hosts_on(l) == l,
    decreases l.len(),
{
    if l.len() > 0 {
        let rest = l.skip(1);
        assert forall|i: int| 0 <= i < rest.len() implies is_host(#[trigger] rest[i]) by {
            assert(is_host(l[i + 1]));
        }
        lemma_hosts_on(rest);
        assert(is_host(l[0]));
        assert(seq![l[0]] + rest =~= l);
    } else {
        assert(hosts_on(l) =~= l);
    }
}

/// Text in which every single quote is written twice.
pub open spec fn doubled(s: Seq<char>) -> Seq<char>
    decreases s.len(),
{
    if s.len() == 0 {
        Seq::empty()
    } else if s.last() == '\'' {
        doubled(s.drop_last()).push('\'').push('\'')
    } else {
        doubled(s.drop_last()).push(s.last())
    }
}

/// Hosts as a list of quoted strings for a shell, with commas between them.
pub open spec fn quoted(hosts: Seq<Seq<char>>) -> Seq<char>
    decreases hosts.len(),
{
    if hosts.len() == 0 {
        Seq::empty()
    } else {
        let before = if hosts.len() == 1 {
            Seq::empty()
        } else {
            quoted(hosts.drop_last()).push(',')
        };
        (before.push('\'') + doubled(hosts.last())).push('\'')
    }
}

fn push_doubled(out: &mut String, s: &str)
    ensures
        final(out)@ == old(out)@ + doubled(s@),
{
    let chars: Vec<char> = chars_of(s);
    let mut i: usize = 0;
    assert(s@.take(0) =~= Seq::<char>::empty());
    assert(out@ =~= old(out)@ + doubled(s@.take(0)));
    while i < chars.len()
        invariant
            i <= chars@.len(),
            chars@ == s@,
            out@ == old(out)@ + doubled(s@.take(i as int)),
        decreases chars.len() - i,
    {
        let c: char = chars[i];
        assert(s@.take(i + 1).drop_last() =~= s@.take(i as int));
        let ghost before = out@;
        out.push(c);
        if c == '\'' {
            out.push('\'');
        }
        i = i + 1;
        assert(out@ =~= old(out)@ + doubled(s@.take(i as int)));
    }
    assert(s@.take(chars@.len() as int) =~= s@);
}

/// The hosts as a list that a shell reads back, whatever quotes they hold.
pub fn dropdown_items(hosts: &Vec<String>) -> (r: String)
    ensures
        r@ == quoted(strings_of(hosts@)),
{
    let ghost all = strings_of(hosts@);
    let mut s = String::new();
    let mut i: usize = 0;
    assert(all.take(0) =~= Seq::<Seq<char>>::empty());
    assert(s@ =~= quoted(all.take(0)));
    while i < hosts.len()
        invariant
            i <= hosts@.len(),
            all == strings_of(hosts@),
            s@ == quoted(all.take(i as int)),
        decreases hosts.len() - i,
    {
        proof {
            assert(all.take(i + 1).drop_last() =~= all.take(i as int));
            assert(all.take(i + 1).last() == hosts@[i as int]@);
            if i == 0 {
                assert(s@ =~= Seq::<char>::empty());
            }
        }
        if i > 0 {
            s.push(',');
        }
        s.push('\'');
        push_doubled(&mut s, hosts[i].as_str());
        s.push('\'');
        i = i + 1;
        assert(s@ =~= quoted(all.take(i as int)));
    }
    assert(all.take(hosts@.len() as int) =~= all);
    s
}

} // verus!
