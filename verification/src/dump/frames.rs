//! The frames of a stream, one line each.

use crate::capture::timeline::{frame_at_start, frames_in, LARGE_FRAME};
use crate::dump::{dump_of, hexdump};
use crate::protocol::framing::{control_text, decode_control_string};
use crate::text::{chars_of, decimal, hex_padded, push_decimal, push_hex, push_text};
use crate::wire::{le32_at, u32_at};
use vstd::prelude::*;
use vstd::slice::slice_subrange;

verus! {

/// A text with spaces in front of it up to a width.
pub open spec fn aligned(s: Seq<char>, width: nat) -> Seq<char> {
    if s.len() >= width {
        s
    } else {
        Seq::new((width - s.len()) as nat, |i: int| ' ') + s
    }
}

/// What a line says of a frame.
pub open spec fn frame_line(side: Seq<char>, i: nat, frame: (u8, nat)) -> Seq<char> {
    "  "@ + side + "["@ + aligned(decimal(i), 3) + "] type=0x"@ + hex_padded(frame.0 as nat, 2)
        + " len="@ + decimal(frame.1)
}

/// How many of the client's frames are listed.
pub const CLIENT_LINES: usize = 62;

/// The lines of the client's first `k` frames.
pub open spec fn client_lines(f: Seq<(u8, nat)>, k: nat) -> Seq<char>
    decreases k,
{
    if k == 0 {
        Seq::empty()
    } else {
        client_lines(f, (k - 1) as nat) + frame_line("c"@, (k - 1) as nat, f[k - 1]) + "\n"@
    }
}

/// The client's frames: the first ones, and how many more there are.
pub open spec fn client_listing(f: Seq<(u8, nat)>) -> Seq<char> {
    if f.len() >= CLIENT_LINES {
        client_lines(f, CLIENT_LINES as nat) + "  \u{2026} (+"@ + decimal(
            (f.len() - CLIENT_LINES) as nat,
        ) + " more)\n"@
    } else {
        client_lines(f, f.len())
    }
}

/// The mark of a frame that is as large as graphics are.
pub open spec fn large_mark(len: nat) -> Seq<char> {
    if len > LARGE_FRAME {
        "   <== large (graphics?)"@
    } else {
        Seq::empty()
    }
}

/// The line of a server frame: after the first ones only large frames have one.
pub open spec fn server_line(f: Seq<(u8, nat)>, i: nat) -> Seq<char> {
    if i <= 60 || f[i as int].1 > LARGE_FRAME {
        frame_line("s"@, i, f[i as int]) + large_mark(f[i as int].1) + "\n"@
    } else {
        Seq::empty()
    }
}

/// The first large frame among those up to `i`, `seen` being that of those before.
pub open spec fn first_large(f: Seq<(u8, nat)>, i: nat, seen: Option<nat>) -> Option<nat> {
    if seen is None && f[i as int].1 > LARGE_FRAME {
        Some(i)
    } else {
        seen
    }
}

/// The server's frames from the `i`th on. Once the server is streaming, the listing
/// stops.
pub open spec fn server_listing(f: Seq<(u8, nat)>, i: nat, seen: Option<nat>) -> Seq<char>
    decreases f.len() - i,
{
    if i >= f.len() {
        Seq::empty()
    } else {
        let large = first_large(f, i, seen);
        if i > 60 && large is Some && i > large.unwrap() + 3 {
            server_line(f, i) + "  \u{2026} (server streaming; stop)\n"@
        } else {
            server_line(f, i) + server_listing(f, i + 1, large)
        }
    }
}

/// The frames of both directions of a connection.
pub open spec fn timeline_text(c2s: Seq<u8>, s2c: Seq<u8>) -> Seq<char> {
    "\n--- CLIENT\u{2192}SERVER frames ("@ + decimal(frames_in(c2s).len()) + ") ---\n"@
        + client_listing(frames_in(c2s)) + ("\n--- SERVER\u{2192}CLIENT frames ("@ + decimal(
        frames_in(s2c).len(),
    ) + ") ---\n"@ + server_listing(frames_in(s2c), 0, None))
}

/// The types and lengths of frames.
pub open spec fn kinds_of(v: Seq<(u8, usize)>) -> Seq<(u8, nat)> {
    v.map_values(|f: (u8, usize)| (f.0, f.1 as nat))
}

/// The frames of a stream, up to the first that is not whole.
fn list_frames(stream: &[u8]) -> (v: Vec<(u8, usize)>)
    ensures
        kinds_of(v@) == frames_in(stream@),
{
    let mut v: Vec<(u8, usize)> = Vec::new();
    let mut off: usize = 0;
    assert(stream@.skip(0) =~= stream@);
    assert(kinds_of(v@) + frames_in(stream@) =~= frames_in(stream@));
    loop
        invariant
            stream.len() == stream@.len(),
            off <= stream@.len(),
            frames_in(stream@) == kinds_of(v@) + frames_in(stream@.skip(off as int)),
        decreases stream@.len() - off,
    {
        let ghost rest = stream@.skip(off as int);
        let ghost before = kinds_of(v@);
        let left: usize = stream.len() - off;
        if left < 4 {
            assert(kinds_of(v@) + frames_in(rest) =~= kinds_of(v@));
            return v;
        }
        let header: u32 = u32_at(stream, off);
        assert(header == le32_at(rest, 0));
        let len: usize = (header % 0x1000000) as usize;
        if len == 0 || len > left - 4 {
            assert(frame_at_start(rest) is None);
            assert(kinds_of(v@) + frames_in(rest) =~= kinds_of(v@));
            return v;
        }
        let msg_type: u8 = (header / 0x1000000) as u8;
        v.push((msg_type, len));
        off = off + 4 + len;
        proof {
            let after = stream@.skip(off as int);
            assert(frame_at_start(rest) == Some((msg_type, len as nat)));
            assert(rest.skip(4 + len as int) =~= after);
            assert(kinds_of(v@) =~= before.push((msg_type, len as nat)));
            assert(kinds_of(v@) + frames_in(after) =~= before + frames_in(rest));
        }
    }
}

fn push_aligned(s: &mut String, n: u64, width: usize)
    ensures
        final(s)@ == old(s)@ + aligned(decimal(n as nat), width as nat),
{
    let mut t = String::new();
    push_decimal(&mut t, n);
    assert(t@ =~= decimal(n as nat));
    let digits: usize = chars_of(t.as_str()).len();
    let missing: usize = if digits >= width {
        0
    } else {
        width - digits
    };
    let ghost pad = Seq::new(missing as nat, |i: int| ' ');
    let mut i: usize = 0;
    assert(s@ =~= old(s)@ + pad.take(0));
    while i < missing
        invariant
            i <= missing,
            pad == Seq::new(missing as nat, |i: int| ' '),
            s@ == old(s)@ + pad.take(i as int),
        decreases missing - i,
    {
        s.push(' ');
        i = i + 1;
        assert(s@ =~= old(s)@ + pad.take(i as int));
    }
    push_text(s, t.as_str());
    assert(s@ =~= old(s)@ + aligned(decimal(n as nat), width as nat));
}

fn line_of(side: &str, i: usize, frame: (u8, usize)) -> (s: String)
    ensures
        s@ == frame_line(side@, i as nat, (frame.0, frame.1 as nat)),
{
    let mut s = String::from_str("  ");
    push_text(&mut s, side);
    push_text(&mut s, "[");
    push_aligned(&mut s, i as u64, 3);
    push_text(&mut s, "] type=0x");
    push_hex(&mut s, frame.0 as u64, 2);
    push_text(&mut s, " len=");
    push_decimal(&mut s, frame.1 as u64);
    s
}

fn list_client(v: &Vec<(u8, usize)>) -> (s: String)
    ensures
        s@ == client_listing(kinds_of(v@)),
{
    let n: usize = if v.len() >= CLIENT_LINES {
        CLIENT_LINES
    } else {
        v.len()
    };
    let mut s = String::new();
    let mut i: usize = 0;
    assert(s@ =~= client_lines(kinds_of(v@), 0));
    while i < n
        invariant
            i <= n <= v@.len(),
            s@ == client_lines(kinds_of(v@), i as nat),
        decreases n - i,
    {
        let ghost before = s@;
        push_text(&mut s, line_of("c", i, v[i]).as_str());
        push_text(&mut s, "\n");
        i = i + 1;
        assert(s@ =~= client_lines(kinds_of(v@), i as nat));
    }
    if v.len() >= CLIENT_LINES {
        push_text(&mut s, "  \u{2026} (+");
        push_decimal(&mut s, (v.len() - CLIENT_LINES) as u64);
        push_text(&mut s, " more)\n");
    }
    s
}

fn push_server_line(s: &mut String, v: &Vec<(u8, usize)>, i: usize)
    requires
        i < v@.len(),
    ensures
        final(s)@ == old(s)@ + server_line(kinds_of(v@), i as nat),
{
    let large: bool = v[i].1 > LARGE_FRAME;
    if i <= 60 || large {
        let mut line = line_of("s", i, v[i]);
        if large {
            push_text(&mut line, "   <== large (graphics?)");
        } else {
            assert(line@ + Seq::<char>::empty() =~= line@);
        }
        push_text(&mut line, "\n");
        push_text(s, line.as_str());
    } else {
        assert(s@ =~= old(s)@ + server_line(kinds_of(v@), i as nat));
    }
}

fn list_server(v: &Vec<(u8, usize)>) -> (s: String)
    ensures
        s@ == server_listing(kinds_of(v@), 0, None),
{
    let ghost f = kinds_of(v@);
    let mut s = String::new();
    let mut i: usize = 0;
    let mut seen: Option<usize> = None;
    let ghost mut seen_at: Option<nat> = None;
    assert(s@ + server_listing(f, 0, None) =~= server_listing(f, 0, None));
    while i < v.len()
        invariant
            i <= v@.len(),
            f == kinds_of(v@),
            match seen {
                Some(k) => seen_at == Some(k as nat) && k < i,
                None => seen_at is None,
            },
            server_listing(f, 0, None) == s@ + server_listing(f, i as nat, seen_at),
        decreases v@.len() - i,
    {
        let ghost before = s@;
        let ghost large = first_large(f, i as nat, seen_at);
        if seen.is_none() && v[i].1 > LARGE_FRAME {
            seen = Some(i);
        }
        push_server_line(&mut s, v, i);
        if let Some(k) = seen {
            if i > 60 && i - k > 3 {
                push_text(&mut s, "  \u{2026} (server streaming; stop)\n");
                assert(s@ =~= before + server_listing(f, i as nat, seen_at));
                return s;
            }
        }
        assert(s@ + server_listing(f, (i + 1) as nat, large) =~= before + server_listing(
            f,
            i as nat,
            seen_at,
        ));
        proof {
            seen_at = large;
        }
        i = i + 1;
    }
    assert(s@ + server_listing(f, i as nat, seen_at) =~= s@);
    s
}

/// One line for every frame of a connection's two streams. The bodies are encrypted;
/// the sizes are enough to see when the server begins to stream graphics, and what the
/// client sent before.
pub fn dump_timeline(c2s: &[u8], s2c: &[u8]) -> (s: String)
    ensures
        s@ == timeline_text(c2s@, s2c@),
{
    let c: Vec<(u8, usize)> = list_frames(c2s);
    let v: Vec<(u8, usize)> = list_frames(s2c);
    let mut s = String::from_str("\n--- CLIENT\u{2192}SERVER frames (");
    push_decimal(&mut s, c.len() as u64);
    push_text(&mut s, ") ---\n");
    push_text(&mut s, list_client(&c).as_str());
    let mut t = String::from_str("\n--- SERVER\u{2192}CLIENT frames (");
    push_decimal(&mut t, v.len() as u64);
    push_text(&mut t, ") ---\n");
    push_text(&mut t, list_server(&v).as_str());
    push_text(&mut s, t.as_str());
    s
}

/// What a message type is called.
pub open spec fn kind_word(msg_type: u8) -> Seq<char> {
    if msg_type == 0x80 {
        "CONTROL"@
    } else if msg_type == 0x00 {
        "DATA"@
    } else {
        "?"@
    }
}

/// The text of a control message, in quotes.
pub open spec fn quoted_control(msg_type: u8, body: Seq<u8>) -> Seq<char> {
    match control_text(body) {
        Some(t) => if msg_type == 0x80 {
            "  \""@ + t + "\""@
        } else {
            Seq::empty()
        },
        None => Seq::empty(),
    }
}

/// A captured payload as text: what its header says, and a dump.
pub open spec fn payload_text(p: Seq<u8>) -> Seq<char> {
    "    ["@ + decimal(p.len()) + " bytes]"@ + (if p.len() >= 4 {
        let header = le32_at(p, 0);
        let msg_type = (header / 0x1000000) as u8;
        " hdr=0x"@ + hex_padded(header as nat, 8) + " type=0x"@ + hex_padded(msg_type as nat, 2)
            + " "@ + kind_word(msg_type) + " body_len="@ + decimal((header % 0x1000000) as nat)
            + quoted_control(msg_type, p.skip(4)) + "\n"@
    } else {
        " (short)\n"@
    }) + dump_of(p, 80)
}

fn header_text(payload: &[u8]) -> (s: String)
    requires
        payload@.len() >= 4,
    ensures
        ({
            let header = le32_at(payload@, 0);
            let msg_type = (header / 0x1000000) as u8;
            s@ == " hdr=0x"@ + hex_padded(header as nat, 8) + " type=0x"@ + hex_padded(
                msg_type as nat,
                2,
            ) + " "@ + kind_word(msg_type) + " body_len="@ + decimal((header % 0x1000000) as nat)
                + quoted_control(msg_type, payload@.skip(4)) + "\n"@
        }),
{
    let header: u32 = u32_at(payload, 0);
    let msg_type: u8 = (header / 0x1000000) as u8;
    let mut s = String::from_str(" hdr=0x");
    push_hex(&mut s, header as u64, 8);
    push_text(&mut s, " type=0x");
    push_hex(&mut s, msg_type as u64, 2);
    push_text(&mut s, " ");
    match msg_type {
        0x80 => push_text(&mut s, "CONTROL"),
        0x00 => push_text(&mut s, "DATA"),
        _ => push_text(&mut s, "?"),
    }
    push_text(&mut s, " body_len=");
    push_decimal(&mut s, (header % 0x1000000) as u64);
    let body: &[u8] = slice_subrange(payload, 4, payload.len());
    assert(body@ =~= payload@.skip(4));
    let mut note = String::new();
    if msg_type == 0x80 {
        if let Some(t) = decode_control_string(body) {
            note = String::from_str("  \"");
            push_text(&mut note, t.as_str());
            push_text(&mut note, "\"");
        }
    }
    assert(note@ =~= quoted_control(msg_type, body@));
    push_text(&mut s, note.as_str());
    push_text(&mut s, "\n");
    s
}

/// A captured payload as text: what its header says, and a dump.
pub fn peek_and_dump(payload: &[u8]) -> (s: String)
    ensures
        s@ == payload_text(payload@),
{
    let mut s = String::from_str("    [");
    push_decimal(&mut s, payload.len() as u64);
    push_text(&mut s, " bytes]");
    if payload.len() >= 4 {
        push_text(&mut s, header_text(payload).as_str());
    } else {
        push_text(&mut s, " (short)\n");
    }
    push_text(&mut s, hexdump(payload, 80).as_str());
    s
}

} // verus!
