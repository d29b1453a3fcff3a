//! Bytes and frames as text, for the command-line tools.

pub mod frames;
pub mod laws;

use crate::capture::timeline::frame_at_start;
use crate::protocol::framing::{control_text, decode_control_string};
use crate::text::{chars_of, decimal, hex_padded, push_decimal, push_hex, push_text};
use crate::wire::{le16_at, le32_at, u16_at, u32_at};
use vstd::prelude::*;
use vstd::slice::slice_subrange;

verus! {

/// A byte as a character: printable ASCII as it is, everything else a dot.
pub open spec fn shown(b: u8) -> char {
    if 0x20 <= b < 0x7f {
        b as char
    } else {
        '.'
    }
}

/// Bytes as characters.
pub open spec fn ascii(b: Seq<u8>) -> Seq<char> {
    Seq::new(b.len(), |i: int| shown(b[i]))
}

/// Bytes as two-digit hexadecimal numbers with spaces between them.
pub open spec fn hex_bytes(b: Seq<u8>) -> Seq<char>
    decreases b.len(),
{
    if b.len() == 0 {
        Seq::empty()
    } else if b.len() == 1 {
        hex_padded(b[0] as nat, 2)
    } else {
        hex_bytes(b.drop_last()) + " "@ + hex_padded(b.last() as nat, 2)
    }
}

/// A text with spaces behind it up to a width.
pub open spec fn widened(s: Seq<char>, width: nat) -> Seq<char> {
    if s.len() >= width {
        s
    } else {
        s + Seq::new((width - s.len()) as nat, |i: int| ' ')
    }
}

/// One line of a dump: offset, hexadecimal, characters.
pub open spec fn hex_line(indent: Seq<char>, offset: nat, chunk: Seq<u8>) -> Seq<char> {
    indent + hex_padded(offset, 4) + "  "@ + widened(hex_bytes(chunk), 48) + "  "@ + ascii(chunk)
        + "\n"@
}

/// The bytes of line `k`.
pub open spec fn chunk_of(b: Seq<u8>, k: int) -> Seq<u8> {
    b.subrange(
        16 * k,
        if 16 * k + 16 <= b.len() {
            16 * k + 16
        } else {
            b.len() as int
        },
    )
}

/// The first `k` lines of a dump.
pub open spec fn hex_lines(indent: Seq<char>, b: Seq<u8>, k: nat) -> Seq<char>
    decreases k,
{
    if k == 0 {
        Seq::empty()
    } else {
        hex_lines(indent, b, (k - 1) as nat) + hex_line(
            indent,
            (16 * (k - 1)) as nat,
            chunk_of(b, k - 1),
        )
    }
}

/// How many lines a dump takes.
pub open spec fn line_count(n: nat) -> nat {
    (n + 15) / 16
}

/// A dump of at most `max` bytes, and how many more there are.
pub open spec fn dump_of(b: Seq<u8>, max: nat) -> Seq<char> {
    if b.len() <= max {
        hex_lines("   "@, b, line_count(b.len()))
    } else {
        hex_lines("   "@, b.take(max as int), line_count(max)) + "   \u{2026} (+"@ + decimal(
            (b.len() - max) as nat,
        ) + " more bytes)\n"@
    }
}

fn shown_char(b: u8) -> (c: char)
    ensures
        c == shown(b),
{
    if b >= 0x20 && b < 0x7f {
        b as char
    } else {
        '.'
    }
}

fn hex_text(b: &[u8]) -> (s: String)
    ensures
        s@ == hex_bytes(b@),
{
    let mut s = String::new();
    let mut i: usize = 0;
    assert(s@ =~= hex_bytes(b@.take(0)));
    while i < b.len()
        invariant
            i <= b@.len(),
            s@ == hex_bytes(b@.take(i as int)),
        decreases b@.len() - i,
    {
        let ghost before = b@.take(i as int);
        if i > 0 {
            push_text(&mut s, " ");
        }
        push_hex(&mut s, b[i] as u64, 2);
        i = i + 1;
        proof {
            let t = b@.take(i as int);
            assert(t.drop_last() =~= before);
            assert(s@ =~= hex_bytes(t));
        }
    }
    assert(b@.take(i as int) =~= b@);
    s
}

fn push_ascii(s: &mut String, b: &[u8])
    ensures
        final(s)@ == old(s)@ + ascii(b@),
{
    let mut i: usize = 0;
    assert(s@ =~= old(s)@ + ascii(b@).take(0));
    while i < b.len()
        invariant
            i <= b@.len(),
            s@ == old(s)@ + ascii(b@).take(i as int),
        decreases b@.len() - i,
    {
        s.push(shown_char(b[i]));
        i = i + 1;
        assert(s@ =~= old(s)@ + ascii(b@).take(i as int));
    }
    assert(ascii(b@).take(i as int) =~= ascii(b@));
}

/// The characters of a text, counted.
fn char_count(s: &str) -> (n: usize)
    ensures
        n == s@.len(),
{
    chars_of(s).len()
}

fn push_widened(s: &mut String, t: &str, width: usize)
    ensures
        final(s)@ == old(s)@ + widened(t@, width as nat),
{
    let n: usize = char_count(t);
    push_text(s, t);
    let missing: usize = if n >= width {
        0
    } else {
        width - n
    };
    let ghost pad = Seq::new(missing as nat, |i: int| ' ');
    let mut i: usize = 0;
    assert(s@ =~= old(s)@ + t@ + pad.take(0));
    while i < missing
        invariant
            i <= missing,
            pad == Seq::new(missing as nat, |i: int| ' '),
            s@ == old(s)@ + t@ + pad.take(i as int),
        decreases missing - i,
    {
        s.push(' ');
        i = i + 1;
        assert(s@ =~= old(s)@ + t@ + pad.take(i as int));
    }
    assert(s@ =~= old(s)@ + widened(t@, width as nat));
}

/// One line of a dump.
pub fn hexdump_line(indent: &str, offset: u64, chunk: &[u8]) -> (s: String)
    ensures
        s@ == hex_line(indent@, offset as nat, chunk@),
{
    let mut s = String::from_str(indent);
    push_hex(&mut s, offset, 4);
    push_text(&mut s, "  ");
    push_widened(&mut s, hex_text(chunk).as_str(), 48);
    push_text(&mut s, "  ");
    push_ascii(&mut s, chunk);
    push_text(&mut s, "\n");
    s
}

/// The first `lines` lines of a dump, or all if there are fewer.
pub fn hexdump_lines(indent: &str, b: &[u8], lines: usize) -> (s: String)
    ensures
        s@ == hex_lines(
            indent@,
            b@,
            if lines <= line_count(b@.len()) {
                lines as nat
            } else {
                line_count(b@.len())
            },
        ),
{
    let all: usize = b.len() / 16 + if b.len() % 16 == 0 {
        0
    } else {
        1
    };
    assert(all == line_count(b@.len()));
    let n: usize = if lines <= all {
        lines
    } else {
        all
    };
    let mut s = String::new();
    let mut k: usize = 0;
    assert(s@ =~= hex_lines(indent@, b@, 0));
    while k < n
        invariant
            k <= n <= line_count(b@.len()),
            b.len() == b@.len(),
            s@ == hex_lines(indent@, b@, k as nat),
        decreases n - k,
    {
        let start: usize = 16 * k;
        let end: usize = if b.len() - start >= 16 {
            start + 16
        } else {
            b.len()
        };
        let chunk: &[u8] = slice_subrange(b, start, end);
        assert(chunk@ =~= chunk_of(b@, k as int));
        push_text(&mut s, hexdump_line(indent, start as u64, chunk).as_str());
        k = k + 1;
    }
    s
}

/// A dump of at most `max` bytes, and how many more there are.
pub fn hexdump(b: &[u8], max: usize) -> (s: String)
    ensures
        s@ == dump_of(b@, max as nat),
{
    if b.len() <= max {
        return hexdump_lines("   ", b, b.len());
    }
    let first: &[u8] = slice_subrange(b, 0, max);
    assert(first@ =~= b@.take(max as int));
    let mut s = hexdump_lines("   ", first, max);
    push_text(&mut s, "   \u{2026} (+");
    push_decimal(&mut s, (b.len() - max) as u64);
    push_text(&mut s, " more bytes)\n");
    s
}

/// What a message type says.
pub open spec fn kind_of(msg_type: u8) -> Seq<char> {
    if msg_type == 0x80 {
        "CONTROL(utf16)"@
    } else if msg_type == 0x00 {
        "DATA/SSPI"@
    } else {
        "OTHER"@
    }
}

/// The text that a control message carries.
pub open spec fn control_note(msg_type: u8, body: Seq<u8>) -> Seq<char> {
    match control_text(body) {
        Some(t) => if msg_type == 0x80 {
            "  string=\""@ + t + "\""@
        } else {
            Seq::empty()
        },
        None => Seq::empty(),
    }
}

/// Whether the body of a data frame starts with a GSS token.
pub open spec fn is_gss(body: Seq<u8>) -> bool {
    body.len() > 0 && body[0] == 0x60
}

pub open spec fn is_inner_framed(body: Seq<u8>) -> bool {
    body.len() >= 3 && body[1] == 0x81 && body[0] == 0xb9
}

/// Whether the body of a data frame has two parts, each behind its length.
pub open spec fn is_sealed(msg_type: u8, body: Seq<u8>) -> bool {
    msg_type == 0x00 && !is_gss(body) && !is_inner_framed(body) && body.len() >= 4 && 2 + le16_at(
        body,
        0,
    ) + 2 <= body.len()
}

/// What the body of a sealed frame holds.
pub open spec fn sealed_note(body: Seq<u8>) -> Seq<char> {
    let a = le16_at(body, 0);
    let at = 2 + a;
    let b = le16_at(body, at);
    let start = at + 2;
    "  [SecFilter: lenA="@ + decimal(a as nat) + " lenB="@ + decimal(b as nat) + (if start + 4
        <= body.len() && body[start] == 0x05 && body[start + 1] == 0x04 {
        " B=GSS-wrap-token(flags=0x"@ + hex_padded(body[start + 2] as nat, 2) + ")"@
    } else {
        Seq::empty()
    }) + "]"@
}

/// What the body of a data frame looks like.
pub open spec fn data_note(msg_type: u8, body: Seq<u8>) -> Seq<char> {
    if msg_type != 0x00 {
        Seq::empty()
    } else if is_gss(body) {
        "  [SPNEGO NegTokenInit / GSS \u{2014} AP-REQ]"@
    } else if is_inner_framed(body) {
        "  [inner-framed]"@
    } else if is_sealed(msg_type, body) {
        sealed_note(body)
    } else {
        Seq::empty()
    }
}

/// A frame as text.
#[verifier::opaque]
pub open spec fn frame_text(idx: nat, msg_type: u8, body: Seq<u8>) -> Seq<char> {
    "\n-- msg "@ + decimal(idx) + ": type=0x"@ + hex_padded(msg_type as nat, 2) + " "@ + kind_of(
        msg_type,
    ) + " body_len="@ + decimal(body.len()) + control_note(msg_type, body) + data_note(
        msg_type,
        body,
    ) + "\n"@ + dump_of(
        body,
        if is_sealed(msg_type, body) {
            160
        } else {
            64
        },
    )
}

/// What stands where no whole frame follows.
#[verifier::opaque]
pub open spec fn stop_text(idx: nat, header: u32, left: nat) -> Seq<char> {
    "\n-- msg "@ + decimal(idx) + ": header=0x"@ + hex_padded(header as nat, 8) + " type=0x"@
        + hex_padded((header / 0x1000000) as nat, 2) + " body_len="@ + decimal(
        (header % 0x1000000) as nat,
    ) + " (stop \u{2014} "@ + decimal(left) + " bytes left)\n"@
}

/// How many frames of a stream are shown.
pub const FRAMES_SHOWN: u64 = 12;

/// The frames of a stream from the `idx`th on as text.
pub open spec fn frames_text(stream: Seq<u8>, idx: nat) -> Seq<char>
    decreases stream.len(),
{
    if stream.len() < 4 {
        Seq::empty()
    } else {
        match frame_at_start(stream) {
            None => stop_text(idx, le32_at(stream, 0), (stream.len() - 4) as nat),
            Some((t, n)) => {
                let text = frame_text(idx, t, stream.subrange(4, 4 + n as int));
                if idx >= FRAMES_SHOWN {
                    text
                        + "\n\u{2026} (stopping after 12 messages \u{2014} rest is data phase)\n"@
                } else if 4 + n <= stream.len() {
                    text + frames_text(stream.skip(4 + n as int), idx + 1)
                } else {
                    text
                }
            },
        }
    }
}

fn push_control_note(s: &mut String, msg_type: u8, body: &[u8])
    ensures
        final(s)@ == old(s)@ + control_note(msg_type, body@),
{
    if msg_type == 0x80 {
        if let Some(t) = decode_control_string(body) {
            push_text(s, "  string=\"");
            push_text(s, t.as_str());
            push_text(s, "\"");
            assert(s@ =~= old(s)@ + control_note(msg_type, body@));
            return;
        }
    }
    assert(s@ =~= old(s)@ + control_note(msg_type, body@));
}

fn sealed_text(body: &[u8]) -> (s: String)
    requires
        is_sealed(0, body@),
    ensures
        s@ == sealed_note(body@),
{
    let a: u16 = u16_at(body, 0);
    let at: usize = 2 + a as usize;
    let b: u16 = u16_at(body, at);
    let start: usize = at + 2;
    let mut s = String::from_str("  [SecFilter: lenA=");
    push_decimal(&mut s, a as u64);
    push_text(&mut s, " lenB=");
    push_decimal(&mut s, b as u64);
    if body.len() - start >= 4 && body[start] == 0x05 && body[start + 1] == 0x04 {
        let mut t = String::from_str(" B=GSS-wrap-token(flags=0x");
        push_hex(&mut t, body[start + 2] as u64, 2);
        push_text(&mut t, ")");
        push_text(&mut s, t.as_str());
    } else {
        assert(s@ + Seq::<char>::empty() =~= s@);
    }
    push_text(&mut s, "]");
    s
}

fn push_data_note(s: &mut String, msg_type: u8, body: &[u8]) -> (sealed: bool)
    ensures
        final(s)@ == old(s)@ + data_note(msg_type, body@),
        sealed == is_sealed(msg_type, body@),
{
    assert(s@ + Seq::<char>::empty() =~= s@);
    if msg_type != 0x00 {
        return false;
    }
    if body.len() > 0 && body[0] == 0x60 {
        push_text(s, "  [SPNEGO NegTokenInit / GSS \u{2014} AP-REQ]");
        return false;
    }
    if body.len() >= 3 && body[1] == 0x81 && body[0] == 0xb9 {
        push_text(s, "  [inner-framed]");
        return false;
    }
    if body.len() >= 4 && body.len() - 4 >= u16_at(body, 0) as usize {
        push_text(s, sealed_text(body).as_str());
        return true;
    }
    false
}

/// A frame as text: its type, its length, what it looks like, and a dump.
pub fn describe_frame(idx: u64, msg_type: u8, body: &[u8]) -> (s: String)
    ensures
        s@ == frame_text(idx as nat, msg_type, body@),
{
    reveal(frame_text);
    let mut s = String::from_str("\n-- msg ");
    push_decimal(&mut s, idx);
    push_text(&mut s, ": type=0x");
    push_hex(&mut s, msg_type as u64, 2);
    push_text(&mut s, " ");
    match msg_type {
        0x80 => push_text(&mut s, "CONTROL(utf16)"),
        0x00 => push_text(&mut s, "DATA/SSPI"),
        _ => push_text(&mut s, "OTHER"),
    }
    push_text(&mut s, " body_len=");
    push_decimal(&mut s, body.len() as u64);
    push_control_note(&mut s, msg_type, body);
    let sealed: bool = push_data_note(&mut s, msg_type, body);
    push_text(&mut s, "\n");
    push_text(
        &mut s,
        hexdump(
            body,
            if sealed {
                160
            } else {
                64
            },
        ).as_str(),
    );
    s
}

fn describe_stop(idx: u64, header: u32, left: u64) -> (s: String)
    ensures
        s@ == stop_text(idx as nat, header, left as nat),
{
    reveal(stop_text);
    let mut s = String::from_str("\n-- msg ");
    push_decimal(&mut s, idx);
    push_text(&mut s, ": header=0x");
    push_hex(&mut s, header as u64, 8);
    push_text(&mut s, " type=0x");
    push_hex(&mut s, (header / 0x1000000) as u64, 2);
    push_text(&mut s, " body_len=");
    push_decimal(&mut s, (header % 0x1000000) as u64);
    push_text(&mut s, " (stop \u{2014} ");
    push_decimal(&mut s, left);
    push_text(&mut s, " bytes left)\n");
    s
}

fn frames_as_text(stream: &[u8]) -> (s: String)
    ensures
        s@ == frames_text(stream@, 0),
{
    let mut s = String::new();
    let mut off: usize = 0;
    let mut idx: u64 = 0;
    assert(stream@.skip(0) =~= stream@);
    assert(s@ + frames_text(stream@, 0) =~= frames_text(stream@, 0));
    loop
        invariant
            stream.len() == stream@.len(),
            off <= stream@.len(),
            idx <= FRAMES_SHOWN,
            frames_text(stream@, 0) == s@ + frames_text(stream@.skip(off as int), idx as nat),
        decreases stream@.len() - off,
    {
        let ghost rest = stream@.skip(off as int);
        let ghost before = s@;
        let left: usize = stream.len() - off;
        if left < 4 {
            assert(s@ + frames_text(rest, idx as nat) =~= s@);
            return s;
        }
        let header: u32 = u32_at(stream, off);
        assert(header == le32_at(rest, 0));
        let body_len: usize = (header % 0x1000000) as usize;
        if body_len == 0 || body_len > left - 4 {
            assert(frame_at_start(rest) is None);
            push_text(&mut s, describe_stop(idx, header, (left - 4) as u64).as_str());
            return s;
        }
        let msg_type: u8 = (header / 0x1000000) as u8;
        let body: &[u8] = slice_subrange(stream, off + 4, off + 4 + body_len);
        proof {
            assert(frame_at_start(rest) == Some((msg_type, body_len as nat)));
            assert(body@ =~= rest.subrange(4, 4 + body_len as int));
        }
        push_text(&mut s, describe_frame(idx, msg_type, body).as_str());
        if idx >= FRAMES_SHOWN {
            push_text(
                &mut s,
                "\n\u{2026} (stopping after 12 messages \u{2014} rest is data phase)\n",
            );
            assert(s@ =~= before + frames_text(rest, idx as nat));
            return s;
        }
        off = off + 4 + body_len;
        proof {
            let after = stream@.skip(off as int);
            assert(rest.skip(4 + body_len as int) =~= after);
            assert(s@ + frames_text(after, (idx + 1) as nat) =~= before + frames_text(
                rest,
                idx as nat,
            ));
        }
        idx = idx + 1;
    }
}

/// A stream of frames as text, under a label.
pub fn dump_framed(label: &str, stream: &[u8]) -> (s: String)
    ensures
        s@ == "\n######## "@ + label@ + " ("@ + decimal(stream@.len()) + " bytes total) ########\n"@
            + frames_text(stream@, 0),
{
    let mut s = String::from_str("\n######## ");
    push_text(&mut s, label);
    push_text(&mut s, " (");
    push_decimal(&mut s, stream.len() as u64);
    push_text(&mut s, " bytes total) ########\n");
    push_text(&mut s, frames_as_text(stream).as_str());
    s
}

} // verus!
