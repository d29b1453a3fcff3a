//! What a dump shows of the bytes.

use crate::dump::{
    ascii, chunk_of, dump_of, frame_text, frames_text, hex_bytes, hex_line, hex_lines, is_gss,
    is_inner_framed, is_sealed, line_count, widened,
};
use crate::capture::laws::framed;
use crate::capture::timeline::frame_at_start;
use crate::dump::frames::{
    client_lines, client_listing, first_large, frame_line, server_line, server_listing,
};
use crate::text::laws::{law_numbers_are_read_back, law_padding_keeps_the_number};
use crate::text::parse::value;
use crate::text::{decimal, hex_padded, in_base};
use vstd::prelude::*;

verus! {

proof fn lemma_two_digits(b: u8)
    ensures
        hex_padded(b as nat, 2).len() == 2,
        value(hex_padded(b as nat, 2), 16) == b,
{
    law_padding_keeps_the_number(b as nat, 2);
    law_numbers_are_read_back(b as nat, 16);
    let n = b as nat;
    if n >= 16 {
        assert(in_base(n, 16) == in_base(n / 16, 16).push(crate::text::digit((n % 16) as int)));
        assert(in_base(n / 16, 16) == seq![crate::text::digit((n / 16) as int)]);
    }
    assert(in_base(n, 16).len() <= 2);
}

/// Bytes in hexadecimal: two digits each, a space between them.
pub proof fn law_hex_bytes(b: Seq<u8>, k: int)
    requires
        0 <= k < b.len(),
    ensures
        hex_bytes(b).len() == 3 * b.len() - 1,
        value(hex_bytes(b).subrange(3 * k, 3 * k + 2), 16) == b[k],
        k + 1 < b.len() ==> hex_bytes(b)[3 * k + 2] == ' ',
    decreases b.len(),
{
    reveal_strlit(" ");
    lemma_two_digits(b.last());
    let h = hex_padded(b.last() as nat, 2);
    if b.len() == 1 {
        assert(hex_bytes(b).subrange(0, 2) =~= h);
    } else {
        let f = b.drop_last();
        law_hex_bytes(f, 0);
        let n = f.len() as int;
        assert(hex_bytes(b) == hex_bytes(f) + " "@ + h);
        if k < n {
            law_hex_bytes(f, k);
            assert(hex_bytes(b).subrange(3 * k, 3 * k + 2) =~= hex_bytes(f).subrange(
                3 * k,
                3 * k + 2,
            ));
            if k + 1 < n {
                assert(hex_bytes(b)[3 * k + 2] == hex_bytes(f)[3 * k + 2]);
            }
        } else {
            assert(hex_bytes(b).subrange(3 * k, 3 * k + 2) =~= h);
        }
    }
}

/// Bytes as characters: those of printable ASCII as they are, others as dots.
pub proof fn law_shown_bytes(b: Seq<u8>, k: int)
    requires
        0 <= k < b.len(),
    ensures
        ascii(b).len() == b.len(),
        0x20 <= b[k] <= 0x7e ==> ascii(b)[k] as int == b[k],
        b[k] < 0x20 || b[k] > 0x7e ==> ascii(b)[k] == '.',
{
}

/// A line of a dump: the indent, the offset in four digits or more, the hexadecimal in a
/// column of 48, and the characters, with two spaces between them.
pub proof fn law_dump_lines(indent: Seq<char>, offset: nat, chunk: Seq<u8>)
    requires
        chunk.len() <= 16,
    ensures
        ({
            let l = hex_line(indent, offset, chunk);
            let o = hex_padded(offset, 4).len() as int;
            let at = indent.len() + o + 2;
            &&& l.len() == at + 48 + 2 + chunk.len() + 1
            &&& l.take(indent.len() as int) == indent
            &&& value(l.subrange(indent.len() as int, indent.len() + o), 16) == offset
            &&& o >= 4
            &&& l.subrange(at, at + hex_bytes(chunk).len()) == hex_bytes(chunk)
            &&& forall|i: int| hex_bytes(chunk).len() <= i < 48 ==> #[trigger] l[at + i] == ' '
            &&& l.subrange(at + 50, at + 50 + chunk.len()) == ascii(chunk)
            &&& l.last() == '\n'
        }),
{
    reveal_strlit("  ");
    reveal_strlit("\n");
    law_padding_keeps_the_number(offset, 4);
    let h = hex_bytes(chunk);
    if chunk.len() > 0 {
        law_hex_bytes(chunk, 0);
    } else {
        assert(h.len() == 0);
    }
    let l = hex_line(indent, offset, chunk);
    let o = hex_padded(offset, 4).len() as int;
    let at = indent.len() + o + 2;
    assert(widened(h, 48).len() == 48);
    assert(l.take(indent.len() as int) =~= indent);
    assert(l.subrange(indent.len() as int, indent.len() + o) =~= hex_padded(offset, 4));
    assert forall|i: int| 0 <= i < 48 implies #[trigger] l[at + i] == widened(h, 48)[i] by {}
    assert(l.subrange(at, at + h.len()) =~= h) by {
        assert forall|i: int| 0 <= i < h.len() implies l[at + i] == h[i] by {
            assert(widened(h, 48)[i] == h[i]);
        }
    }
    assert(l.subrange(at + 50, at + 50 + chunk.len()) =~= ascii(chunk));
}

/// A dump has a line for every sixteen bytes begun; line `k` shows the bytes from `16 * k`
/// on, under that offset.
pub proof fn law_dump_covers_every_byte(indent: Seq<char>, b: Seq<u8>, k: int)
    requires
        0 <= k < line_count(b.len()),
    ensures
        16 * (line_count(b.len()) - 1) < b.len() <= 16 * line_count(b.len()),
        chunk_of(b, k) == b.subrange(
            16 * k,
            if 16 * k + 16 <= b.len() {
                16 * k + 16
            } else {
                b.len() as int
            },
        ),
        hex_lines(indent, b, (k + 1) as nat) == hex_lines(indent, b, k as nat) + hex_line(
            indent,
            (16 * k) as nat,
            chunk_of(b, k),
        ),
        hex_lines(indent, b, 0).len() == 0,
{
}

/// A dump with a limit shows that many bytes and says how many more there are.
pub proof fn law_dump_limits(b: Seq<u8>, max: nat)
    ensures
        b.len() <= max ==> dump_of(b, max) == hex_lines("   "@, b, line_count(b.len())),
        b.len() > max ==> dump_of(b, max) == hex_lines("   "@, b.take(max as int), line_count(max))
            + "   \u{2026} (+"@ + decimal((b.len() - max) as nat) + " more bytes)\n"@,
{
}

/// A stream is shown frame by frame: the first one under its number, then the rest under
/// the next. After the twelfth the listing ends.
pub proof fn law_streams_are_shown_frame_by_frame(t: u8, body: Seq<u8>, rest: Seq<u8>, idx: nat)
    requires
        0 < body.len() < 0x100_0000,
    ensures
        ({
            let all = frames_text(framed(t, body) + rest, idx);
            let this = frame_text(idx, t, body);
            &&& idx < 12 ==> all == this + frames_text(rest, idx + 1)
            &&& idx >= 12 ==> all == this
                + "\n\u{2026} (stopping after 12 messages \u{2014} rest is data phase)\n"@
        }),
        rest.len() < 4 ==> frames_text(rest, idx).len() == 0,
{
    let b = framed(t, body) + rest;
    let n = body.len();
    assert(b[0] == n % 256 && b[1] == n / 256 % 256 && b[2] == n / 65536 && b[3] == t);
    assert(n == n % 256 + 256 * (n / 256 % 256) + 65536 * (n / 65536));
    assert(frame_at_start(b) == Some((t, n)));
    assert(b.subrange(4, 4 + n as int) =~= body);
    assert(b.skip(4 + n as int) =~= rest);
}

/// What a data frame is taken for: a token that starts with 0x60; one with an inner frame
/// (0xb9, 0x81); or two parts behind their lengths, if the first length fits.
pub proof fn law_sealed_frames_are_told(msg_type: u8, body: Seq<u8>)
    requires
        body.len() >= 4,
    ensures
        is_gss(body) <==> body[0] == 0x60,
        is_inner_framed(body) <==> body[0] == 0xb9 && body[1] == 0x81,
        is_sealed(msg_type, body) <==> msg_type == 0 && body[0] != 0x60 && !(body[0] == 0xb9
            && body[1] == 0x81) && body[0] + 256 * body[1] + 4 <= body.len(),
{
}

/// The lines of frames, one after another.
pub open spec fn all_server_lines(f: Seq<(u8, nat)>, i: nat) -> Seq<char>
    decreases f.len() - i,
{
    if i >= f.len() {
        Seq::empty()
    } else {
        server_line(f, i) + all_server_lines(f, i + 1)
    }
}

/// Up to sixty-one frames of the server are all listed; later ones only if they are large.
pub proof fn law_short_listings_are_complete(f: Seq<(u8, nat)>, i: nat, seen: Option<nat>)
    requires
        f.len() <= 61,
    ensures
        server_listing(f, i, seen) == all_server_lines(f, i),
        i < f.len() ==> server_line(f, i) == frame_line("s"@, i, f[i as int]) + (if f[i as int].1
            > 300 {
            "   <== large (graphics?)"@
        } else {
            Seq::empty()
        }) + "\n"@,
    decreases f.len() - i,
{
    if i < f.len() {
        law_short_listings_are_complete(f, i + 1, first_large(f, i, seen));
    }
}

/// Behind the sixty-first frame a small one has no line; three frames behind the first large
/// one the listing stops.
pub proof fn law_long_listings_stop(f: Seq<(u8, nat)>, i: nat, large: nat)
    requires
        60 < i < f.len(),
    ensures
        f[i as int].1 <= 300 ==> server_line(f, i).len() == 0,
        i > large + 3 ==> server_listing(f, i, Some(large)) == server_line(f, i)
            + "  \u{2026} (server streaming; stop)\n"@,
        i <= large + 3 ==> server_listing(f, i, Some(large)) == server_line(f, i) + server_listing(
            f,
            i + 1,
            Some(large),
        ),
{
}

/// The first sixty-two frames of the client are listed, and the others counted.
pub proof fn law_client_listings(f: Seq<(u8, nat)>, k: nat)
    ensures
        f.len() < 62 ==> client_listing(f) == client_lines(f, f.len()),
        f.len() >= 62 ==> client_listing(f) == client_lines(f, 62) + "  \u{2026} (+"@ + decimal(
            (f.len() - 62) as nat,
        ) + " more)\n"@,
        k < f.len() ==> client_lines(f, k + 1) == client_lines(f, k) + frame_line(
            "c"@,
            k,
            f[k as int],
        ) + "\n"@,
        client_lines(f, 0).len() == 0,
{
}

} // verus!
