//! The other side of bulk compression: what a compressor writes, and that the
//! decompressor reads it back.

use crate::protocol::mppc::{
    bit_at, bits_at, copy_offset, expand, match_length, ones_run, skip, MppcState,
};
use vstd::arithmetic::power2::{lemma2_to64, lemma_pow2_unfold, pow2};
use vstd::prelude::*;

verus! {

/// A piece of compressed data: a byte as it is, or a copy of `length` bytes that were
/// produced `distance` bytes ago.
pub enum Token {
    Literal(u8),
    Copy { distance: nat, length: nat },
}

/// The low `n` bits of `v`, the highest first.
pub open spec fn bits_of(v: nat, n: nat) -> Seq<bool>
    decreases n,
{
    if n == 0 {
        Seq::empty()
    } else {
        bits_of(v / 2, (n - 1) as nat).push(v % 2 == 1)
    }
}

/// `n` one bits.
pub open spec fn ones(n: nat) -> Seq<bool> {
    Seq::new(n, |i: int| true)
}

/// A distance on the wire: the shortest form that holds it.
pub open spec fn distance_bits(d: nat) -> Seq<bool> {
    if d < 64 {
        seq![true, true, true, true, true] + bits_of(d, 6)
    } else if d < 320 {
        seq![true, true, true, true, false] + bits_of((d - 64) as nat, 8)
    } else if d < 2368 {
        seq![true, true, true, false] + bits_of((d - 320) as nat, 11)
    } else {
        seq![true, true, false] + bits_of((d - 2368) as nat, 16)
    }
}

/// How many one bits stand in front of a length: one for 4 to 7, and one more for each
/// doubling.
pub open spec fn magnitude(l: nat) -> nat
    decreases l,
{
    if l < 8 {
        1
    } else {
        1 + magnitude(l / 2)
    }
}

/// A length on the wire: one 0 for 3; else the magnitude in ones, a 0, and the length
/// without its highest bit.
pub open spec fn length_bits(l: nat) -> Seq<bool> {
    if l == 3 {
        seq![false]
    } else {
        let n = magnitude(l);
        ones(n) + seq![false] + bits_of((l - pow2(n + 1)) as nat, n + 1)
    }
}

impl Token {
    pub open spec fn bits(self) -> Seq<bool> {
        match self {
            Token::Literal(b) => if b < 0x80 {
                seq![false] + bits_of(b as nat, 7)
            } else {
                seq![true, false] + bits_of((b - 0x80) as nat, 7)
            },
            Token::Copy { distance, length } => distance_bits(distance) + length_bits(length),
        }
    }

    /// Whether the token can follow what was produced so far: a copy starts inside it,
    /// and the window has room.
    pub open spec fn fits(self, out: Seq<u8>) -> bool {
        match self {
            Token::Literal(_) => out.len() < 65536,
            Token::Copy { distance, length } => 1 <= distance <= out.len() && 3 <= length
                && out.len() + length <= 65536,
        }
    }

    /// What has been produced once the token is expanded.
    pub open spec fn produces(self, out: Seq<u8>) -> Seq<u8> {
        match self {
            Token::Literal(b) => out.push(b),
            Token::Copy { distance, length } => repeated(out, distance, length),
        }
    }
}

/// `out` and `n` more bytes, each the one that stands `d` bytes before it.
pub open spec fn repeated(out: Seq<u8>, d: nat, n: nat) -> Seq<u8>
    decreases n,
{
    if n == 0 {
        out
    } else {
        repeated(out.push(out[out.len() - d]), d, (n - 1) as nat)
    }
}

pub open spec fn stream(tokens: Seq<Token>) -> Seq<bool>
    decreases tokens.len(),
{
    if tokens.len() == 0 {
        Seq::empty()
    } else {
        tokens[0].bits() + stream(tokens.skip(1))
    }
}

pub open spec fn all_fit(tokens: Seq<Token>, out: Seq<u8>) -> bool
    decreases tokens.len(),
{
    tokens.len() == 0 || (tokens[0].fits(out) && all_fit(
        tokens.skip(1),
        tokens[0].produces(out),
    ))
}

pub open spec fn all_produce(tokens: Seq<Token>, out: Seq<u8>) -> Seq<u8>
    decreases tokens.len(),
{
    if tokens.len() == 0 {
        out
    } else {
        all_produce(tokens.skip(1), tokens[0].produces(out))
    }
}

pub open spec fn weight(bits: Seq<bool>, i: int, w: int) -> int {
    if 0 <= i < bits.len() && bits[i] {
        w
    } else {
        0
    }
}

/// Bits as bytes, the first bit highest, the last byte filled up with zeros.
pub open spec fn packed(bits: Seq<bool>) -> Seq<u8> {
    Seq::new(
        ((bits.len() + 7) / 8) as nat,
        |i: int|
            (weight(bits, 8 * i, 128) + weight(bits, 8 * i + 1, 64) + weight(bits, 8 * i + 2, 32)
                + weight(bits, 8 * i + 3, 16) + weight(bits, 8 * i + 4, 8) + weight(
                bits,
                8 * i + 5,
                4,
            ) + weight(bits, 8 * i + 6, 2) + weight(bits, 8 * i + 7, 1)) as u8,
    )
}

proof fn lemma_shift(x: u8)
    ensures
        ((x >> 0u8) & 1u8) == x % 2,
        ((x >> 1u8) & 1u8) == x / 2 % 2,
        ((x >> 2u8) & 1u8) == x / 4 % 2,
        ((x >> 3u8) & 1u8) == x / 8 % 2,
        ((x >> 4u8) & 1u8) == x / 16 % 2,
        ((x >> 5u8) & 1u8) == x / 32 % 2,
        ((x >> 6u8) & 1u8) == x / 64 % 2,
        ((x >> 7u8) & 1u8) == x / 128 % 2,
{
    assert(((x >> 0u8) & 1u8) == x % 2 && ((x >> 1u8) & 1u8) == x / 2 % 2 && ((x >> 2u8) & 1u8)
        == x / 4 % 2 && ((x >> 3u8) & 1u8) == x / 8 % 2 && ((x >> 4u8) & 1u8) == x / 16 % 2 && ((x
        >> 5u8) & 1u8) == x / 32 % 2 && ((x >> 6u8) & 1u8) == x / 64 % 2 && ((x >> 7u8) & 1u8) == x
        / 128 % 2) by (bit_vector);
}

/// Whether the bits stand in the data from `pos` on.
#[verifier::opaque]
spec fn holds(data: Seq<u8>, pos: int, bits: Seq<bool>) -> bool {
    &&& 0 <= pos
    &&& pos + bits.len() <= 8 * data.len()
    &&& forall|k: int|
        0 <= k < bits.len() ==> bit_at(data, pos + k) == (if #[trigger] bits[k] {
            1nat
        } else {
            0nat
        })
}

spec fn one(b: bool) -> nat {
    if b {
        1
    } else {
        0
    }
}

/// The bits of a byte that is put together from them.
proof fn lemma_byte(b: Seq<bool>, x: u8, k: int)
    requires
        b.len() == 8,
        x == 128 * one(b[0]) + 64 * one(b[1]) + 32 * one(b[2]) + 16 * one(b[3]) + 8 * one(b[4]) + 4
            * one(b[5]) + 2 * one(b[6]) + one(b[7]),
        0 <= k < 8,
    ensures
        ((x >> ((7 - k) as u8)) & 1u8) == one(b[k]),
{
    lemma_shift(x);
    let y = x as int;
    let (b0, b1, b2, b3) = (one(b[0]), one(b[1]), one(b[2]), one(b[3]));
    let (b4, b5, b6, b7) = (one(b[4]), one(b[5]), one(b[6]), one(b[7]));
    assert(y / 2 == 64 * b0 + 32 * b1 + 16 * b2 + 8 * b3 + 4 * b4 + 2 * b5 + b6);
    assert(y / 4 == 32 * b0 + 16 * b1 + 8 * b2 + 4 * b3 + 2 * b4 + b5);
    assert(y / 8 == 16 * b0 + 8 * b1 + 4 * b2 + 2 * b3 + b4);
    assert(y / 16 == 8 * b0 + 4 * b1 + 2 * b2 + b3);
    assert(y / 32 == 4 * b0 + 2 * b1 + b2);
    assert(y / 64 == 2 * b0 + b1);
    assert(y / 128 == b0);
    if k == 0 {
    } else if k == 1 {
    } else if k == 2 {
    } else if k == 3 {
    } else if k == 4 {
    } else if k == 5 {
    } else if k == 6 {
    } else {
    }
}

proof fn lemma_packed(bits: Seq<bool>)
    ensures
        packed(bits).len() == (bits.len() + 7) / 8,
        holds(packed(bits), 0, bits),
{
    reveal(holds);
    let data = packed(bits);
    assert forall|k: int| 0 <= k < bits.len() implies bit_at(data, 0 + k) == (if #[trigger] bits[k] {
        1nat
    } else {
        0nat
    }) by {
        let i = k / 8;
        let b = Seq::new(8, |j: int| 8 * i + j < bits.len() && bits[8 * i + j]);
        assert(k == 8 * i + k % 8);
        assert(b[k % 8] == bits[k]);
        lemma_byte(b, data[i], k % 8);
    }
}

proof fn lemma_holds_split(data: Seq<u8>, pos: int, a: Seq<bool>, b: Seq<bool>)
    requires
        holds(data, pos, a + b),
    ensures
        holds(data, pos, a),
        holds(data, pos + a.len(), b),
{
    reveal(holds);
    let all = a + b;
    assert forall|k: int| 0 <= k < a.len() implies bit_at(data, pos + k) == (if #[trigger] a[k] {
        1nat
    } else {
        0nat
    }) by {
        assert(all[k] == a[k]);
    }
    assert forall|k: int| 0 <= k < b.len() implies bit_at(data, pos + a.len() + k) == (
    if #[trigger] b[k] {
        1nat
    } else {
        0nat
    }) by {
        assert(all[a.len() + k] == b[k]);
    }
}

proof fn lemma_bits_of_len(v: nat, n: nat)
    ensures
        bits_of(v, n).len() == n,
    decreases n,
{
    if n > 0 {
        lemma_bits_of_len(v / 2, (n - 1) as nat);
    }
}

proof fn lemma_number(data: Seq<u8>, pos: int, v: nat, n: nat)
    requires
        holds(data, pos, bits_of(v, n)),
        v < pow2(n),
    ensures
        bits_at(data, pos, n) == v,
        bits_of(v, n).len() == n,
        pos + n <= 8 * data.len(),
    decreases n,
{
    reveal(holds);
    lemma_bits_of_len(v, n);
    if n == 0 {
        lemma2_to64();
    } else {
        let m = (n - 1) as nat;
        lemma_bits_of_len(v / 2, m);
        lemma_pow2_unfold(n);
        assert(bits_of(v, n) =~= bits_of(v / 2, m) + seq![v % 2 == 1]);
        lemma_holds_split(data, pos, bits_of(v / 2, m), seq![v % 2 == 1]);
        lemma_number(data, pos, v / 2, m);
        assert(seq![v % 2 == 1][0] == (v % 2 == 1));
        assert(bit_at(data, pos + m + 0) == v % 2);
    }
}

/// A distance that was written is the distance that is read.
proof fn lemma_distance(data: Seq<u8>, pos: int, d: nat)
    requires
        d < 67904,
        holds(data, pos, distance_bits(d)),
    ensures
        bit_at(data, pos) == 1,
        bit_at(data, pos + 1) == 1,
        copy_offset(data, pos + 2) == (d, pos + distance_bits(d).len() as int),
{
    reveal(holds);
    lemma2_to64();
    let all = distance_bits(d);
    let (head, v, n) = if d < 64 {
        (seq![true, true, true, true, true], d, 6nat)
    } else if d < 320 {
        (seq![true, true, true, true, false], (d - 64) as nat, 8nat)
    } else if d < 2368 {
        (seq![true, true, true, false], (d - 320) as nat, 11nat)
    } else {
        (seq![true, true, false], (d - 2368) as nat, 16nat)
    };
    assert(all == head + bits_of(v, n));
    lemma_holds_split(data, pos, head, bits_of(v, n));
    lemma_number(data, pos + head.len(), v, n);
    assert(head[0] && head[1]);
    assert(bit_at(data, pos + 0) == 1);
    assert(bit_at(data, pos + 2) == (if head[2] {
        1nat
    } else {
        0nat
    }));
    if head.len() > 3 {
        assert(bit_at(data, pos + 3) == (if head[3] {
            1nat
        } else {
            0nat
        }));
    }
    if head.len() > 4 {
        assert(bit_at(data, pos + 4) == (if head[4] {
            1nat
        } else {
            0nat
        }));
    }
}

proof fn lemma_magnitude(l: nat)
    requires
        4 <= l,
    ensures
        1 <= magnitude(l),
        pow2(magnitude(l) + 1) <= l < pow2(magnitude(l) + 2),
        l < 0x1_0000_0000 ==> magnitude(l) <= 30,
    decreases l,
{
    lemma2_to64();
    if l >= 8 {
        lemma_magnitude(l / 2);
        let n = magnitude(l / 2);
        lemma_pow2_unfold(n + 2);
        lemma_pow2_unfold(n + 3);
    }
    let n = magnitude(l);
    if l < 0x1_0000_0000 && n > 30 {
        lemma_pow2_le(32, n + 1);
    }
}

proof fn lemma_pow2_le(a: nat, b: nat)
    requires
        a <= b,
    ensures
        pow2(a) <= pow2(b),
{
    if a < b {
        vstd::arithmetic::power2::lemma_pow2_strictly_increases(a, b);
    }
}

proof fn lemma_ones(data: Seq<u8>, pos: int, n: nat, limit: nat)
    requires
        n < limit,
        holds(data, pos, ones(n) + seq![false]),
    ensures
        ones_run(data, pos, limit) == n,
    decreases n,
{
    reveal(holds);
    let all = ones(n) + seq![false];
    if n == 0 {
        assert(!all[0]);
        assert(bit_at(data, pos + 0) == 0);
    } else {
        assert(all[0]);
        assert(bit_at(data, pos + 0) == 1);
        let rest = ones((n - 1) as nat) + seq![false];
        assert(all =~= seq![true] + rest);
        lemma_holds_split(data, pos, seq![true], rest);
        lemma_ones(data, pos + 1, (n - 1) as nat, (limit - 1) as nat);
    }
}

/// A length that was written is the length that is read.
proof fn lemma_length(data: Seq<u8>, pos: int, l: nat)
    requires
        3 <= l < 0x1_0000_0000,
        holds(data, pos, length_bits(l)),
    ensures
        match_length(data, pos) == (l, pos + length_bits(l).len() as int),
{
    reveal(holds);
    if l == 3 {
        assert(length_bits(l) =~= ones(0) + seq![false]);
        lemma_ones(data, pos, 0, 31);
    } else {
        lemma_magnitude(l);
        let n = magnitude(l);
        let v = (l - pow2(n + 1)) as nat;
        lemma_pow2_unfold(n + 2);
        let head = ones(n) + seq![false];
        lemma_holds_split(data, pos, head, bits_of(v, n + 1));
        lemma_ones(data, pos, n, 31);
        lemma_number(data, pos + head.len(), v, n + 1);
    }
}

proof fn lemma_repeated(s: MppcState, src: int, d: nat, n: nat)
    requires
        s.wf(),
        1 <= d <= s.offset,
        src == s.offset - d,
        s.offset + n <= 65536,
    ensures
        ({
            let t = s.copy_run(src, n);
            &&& t.wf()
            &&& t.offset == s.offset + n
            &&& t.history.take(t.offset as int) == repeated(
                s.history.take(s.offset as int),
                d,
                n,
            )
            &&& forall|i: int| t.offset <= i < t.history.len() ==> t.history[i] == s.history[i]
        }),
    decreases n,
{
    if n > 0 {
        let b = s.history[src];
        let next = s.append(b);
        let out = s.history.take(s.offset as int);
        assert(out[out.len() - d] == b);
        assert(next.history.take(next.offset as int) =~= out.push(b));
        lemma_repeated(next, src + 1, d, (n - 1) as nat);
    }
}

proof fn lemma_literal_step(data: Seq<u8>, pos: int, b: u8, s: MppcState)
    requires
        s.offset < 65536,
        holds(data, pos, Token::Literal(b).bits()),
    ensures
        expand(data, pos, s) == expand(
            data,
            pos + Token::Literal(b).bits().len(),
            MppcState { history: s.history.update(s.offset as int, b), offset: s.offset + 1 },
        ),
{
    reveal(holds);
    lemma2_to64();
    let (head, v) = if b < 0x80 {
        (seq![false], b as nat)
    } else {
        (seq![true, false], (b - 0x80) as nat)
    };
    lemma_bits_of_len(v, 7);
    lemma_holds_split(data, pos, head, bits_of(v, 7));
    lemma_number(data, pos + head.len(), v, 7);
    assert(bit_at(data, pos + 0) == (if head[0] {
        1nat
    } else {
        0nat
    }));
    if b >= 0x80 {
        assert(!head[1]);
        assert(bit_at(data, pos + 1) == 0);
    }
}

proof fn lemma_copy_step(data: Seq<u8>, pos: int, distance: nat, length: nat, s: MppcState)
    requires
        1 <= distance <= s.offset,
        3 <= length,
        s.offset + length <= 65536,
        holds(data, pos, Token::Copy { distance, length }.bits()),
    ensures
        expand(data, pos, s) == expand(
            data,
            pos + Token::Copy { distance, length }.bits().len(),
            s.copy_run(s.offset - distance, length),
        ),
{
    reveal(holds);
    let db = distance_bits(distance);
    lemma_holds_split(data, pos, db, length_bits(length));
    lemma_distance(data, pos, distance);
    lemma_length(data, pos + db.len(), length);
    lemma_bits_of_len(distance, 6);
    lemma_bits_of_len((distance - 64) as nat, 8);
    lemma_bits_of_len((distance - 320) as nat, 11);
    lemma_bits_of_len((distance - 2368) as nat, 16);
    assert(db.len() >= 11);
    assert((s.offset - distance) % 65536 == s.offset - distance);
}

proof fn lemma_expand(data: Seq<u8>, pos: int, tokens: Seq<Token>, s: MppcState)
    requires
        s.wf(),
        all_fit(tokens, s.history.take(s.offset as int)),
        holds(data, pos, stream(tokens)),
        8 * data.len() - pos - stream(tokens).len() < 8,
    ensures
        ({
            let t = expand(data, pos, s);
            &&& t.wf()
            &&& s.offset <= t.offset
            &&& t.history.take(t.offset as int) == all_produce(
                tokens,
                s.history.take(s.offset as int),
            )
            &&& forall|i: int| t.offset <= i < t.history.len() ==> t.history[i] == s.history[i]
        }),
    decreases tokens.len(),
{
    let out = s.history.take(s.offset as int);
    if tokens.len() == 0 {
        assert(8 * data.len() - pos < 8);
    } else {
        let rest = tokens.skip(1);
        lemma_holds_split(data, pos, tokens[0].bits(), stream(rest));
        let q = pos + tokens[0].bits().len();
        match tokens[0] {
            Token::Literal(b) => {
                lemma_literal_step(data, pos, b, s);
                let next = MppcState {
                    history: s.history.update(s.offset as int, b),
                    offset: s.offset + 1,
                };
                assert(next.history.take(next.offset as int) =~= out.push(b));
                lemma_expand(data, q, rest, next);
            },
            Token::Copy { distance, length } => {
                lemma_copy_step(data, pos, distance, length, s);
                lemma_repeated(s, s.offset - distance, distance, length);
                lemma_expand(data, q, rest, s.copy_run(s.offset - distance, length));
            },
        }
    }
}

/// What a compressor writes, the decompressor reads: the data of any tokens are expanded
/// to the bytes that the tokens stand for, behind what was produced before. A copy
/// reaches back as many bytes as its distance says, in whichever of the four forms that
/// distance is written, and the rest of the window is left alone.
pub proof fn law_tokens_are_expanded(tokens: Seq<Token>, s: MppcState)
    requires
        s.wf(),
        all_fit(tokens, s.history.take(s.offset as int)),
    ensures
        ({
            let t = expand(packed(stream(tokens)), 0, s);
            let out = all_produce(tokens, s.history.take(s.offset as int));
            &&& t.wf()
            &&& t.offset == out.len()
            &&& t.history.take(t.offset as int) == out
            &&& forall|i: int| t.offset <= i < t.history.len() ==> t.history[i] == s.history[i]
        }),
{
    lemma_packed(stream(tokens));
    lemma_expand(packed(stream(tokens)), 0, tokens, s);
}

/// The tokens of a text without repetitions.
pub open spec fn literals(text: Seq<u8>) -> Seq<Token> {
    Seq::new(text.len(), |i: int| Token::Literal(text[i]))
}

proof fn lemma_literals(text: Seq<u8>, out: Seq<u8>)
    requires
        out.len() + text.len() <= 65536,
    ensures
        all_fit(literals(text), out),
        all_produce(literals(text), out) == out + text,
    decreases text.len(),
{
    if text.len() == 0 {
        assert(out + text =~= out);
    } else {
        let t = literals(text);
        assert(t.skip(1) =~= literals(text.skip(1)));
        lemma_literals(text.skip(1), out.push(text[0]));
        assert(out.push(text[0]) + text.skip(1) =~= out + text);
    }
}

/// Every text that the window has room for comes back from its encoding.
pub proof fn law_texts_come_back(text: Seq<u8>, s: MppcState)
    requires
        s.wf(),
        s.offset + text.len() <= 65536,
    ensures
        ({
            let t = expand(packed(stream(literals(text))), 0, s);
            &&& t.offset == s.offset + text.len()
            &&& t.history.subrange(s.offset as int, t.offset as int) == text
        }),
{
    let out = s.history.take(s.offset as int);
    lemma_literals(text, out);
    law_tokens_are_expanded(literals(text), s);
    let t = expand(packed(stream(literals(text))), 0, s);
    assert(t.history.subrange(s.offset as int, t.offset as int) =~= t.history.take(
        t.offset as int,
    ).skip(s.offset as int));
    assert((out + text).skip(s.offset as int) =~= text);
}

/// A copy takes its bytes one after the other from its source. Where the source lies
/// behind the write position (the tail that a reset to the front keeps), the bytes are
/// those that stood there before.
pub proof fn law_copies_read_their_source(s: MppcState, src: int, n: nat, i: int)
    requires
        s.wf(),
        0 <= src < 65536,
        s.offset + n <= 65536,
        0 <= i < n,
    ensures
        s.copy_run(src, n).offset == s.offset + n,
        src < s.offset ==> s.copy_run(src, n).history[s.offset + i] == s.copy_run(
            src,
            n,
        ).history[src + i],
        src >= s.offset ==> s.copy_run(src, n).history[s.offset + i] == s.history[src + i],
    decreases n,
{
    let next = s.append(s.history[src]);
    let end = s.copy_run(src, n);
    lemma_copy_keeps(next, src + 1, (n - 1) as nat);
    lemma_copy_keeps(s, src, n);
    assert(next.history[s.offset as int] == s.history[src]);
    assert(end.history[s.offset as int] == s.history[src]);
    if src < s.offset {
        assert(end.history[src] == s.history[src]);
    }
    if i > 0 {
        if src + 1 < 65536 {
            law_copies_read_their_source(next, src + 1, (n - 1) as nat, i - 1);
        } else {
            lemma_copy_from_headroom(next, src + 1, (n - 1) as nat, i - 1);
        }
    }
}

proof fn lemma_copy_keeps(s: MppcState, src: int, n: nat)
    requires
        s.wf(),
        s.offset + n <= 65536,
    ensures
        s.copy_run(src, n).wf(),
        s.copy_run(src, n).offset == s.offset + n,
        forall|k: int|
            0 <= k < s.offset ==> s.copy_run(src, n).history[k] == #[trigger] s.history[k],
    decreases n,
{
    if n > 0 {
        let next = s.append(s.history[src]);
        lemma_copy_keeps(next, src + 1, (n - 1) as nat);
        assert forall|k: int| 0 <= k < s.offset implies s.copy_run(src, n).history[k]
            == #[trigger] s.history[k] by {
            assert(next.history[k] == s.history[k]);
        }
    }
}

proof fn lemma_copy_from_headroom(s: MppcState, src: int, n: nat, i: int)
    requires
        s.wf(),
        65536 <= src,
        src + n <= 131072,
        s.offset + n <= 65536,
        0 <= i < n,
    ensures
        s.copy_run(src, n).history[s.offset + i] == s.history[src + i],
    decreases n,
{
    let next = s.append(s.history[src]);
    lemma_copy_keeps(next, src + 1, (n - 1) as nat);
    assert(next.history[s.offset as int] == s.history[src]);
    if i > 0 {
        lemma_copy_from_headroom(next, src + 1, (n - 1) as nat, i - 1);
    }
}

/// A reset to the front starts writing at the front again and keeps the history to copy
/// from; a flush forgets it.
pub proof fn law_resets(s: MppcState, at_front: bool)
    requires
        s.wf(),
    ensures
        s.reset(false, false) == s,
        s.reset(true, false).offset == 0,
        s.reset(true, false).history == s.history,
        s.reset(at_front, true).offset == 0,
        s.reset(at_front, true).history.len() == s.history.len(),
        forall|i: int| 0 <= i < s.history.len() ==> s.reset(at_front, true).history[i] == 0,
{
}

/// The bits of a copy.
pub open spec fn copy_bits(distance: nat, length: nat) -> Seq<bool> {
    distance_bits(distance) + length_bits(length)
}

proof fn lemma_copy_read(data: Seq<u8>, distance: nat, length: nat, s: MppcState)
    requires
        s.offset < 65536,
        distance <= 65536,
        3 <= length < 0x1_0000_0000,
        data == packed(copy_bits(distance, length)),
    ensures
        expand(data, 0, s) == (if distance == 0 || s.offset + length > 65536 {
            s
        } else {
            expand(
                data,
                copy_bits(distance, length).len() as int,
                s.copy_run((s.offset - distance) % 65536, length),
            )
        }),
        8 * data.len() - copy_bits(distance, length).len() < 8,
{
    let bits = copy_bits(distance, length);
    lemma_packed(bits);
    let db = distance_bits(distance);
    lemma_holds_split(data, 0, db, length_bits(length));
    lemma_distance(data, 0, distance);
    lemma_length(data, db.len() as int, length);
    lemma_bits_of_len(distance, 6);
    lemma_bits_of_len((distance - 64) as nat, 8);
    lemma_bits_of_len((distance - 320) as nat, 11);
    lemma_bits_of_len((distance - 2368) as nat, 16);
    assert(db.len() >= 11);
}

/// A copy that reaches back beyond the start of the window takes its bytes from the
/// window's end, where the bytes from before the last reset still stand.
pub proof fn law_copies_wrap_around(s: MppcState, distance: nat, length: nat)
    requires
        s.wf(),
        s.offset < 65536,
        1 <= distance <= 65536,
        3 <= length,
        s.offset + length <= 65536,
    ensures
        expand(packed(copy_bits(distance, length)), 0, s) == s.copy_run(
            if distance <= s.offset {
                s.offset - distance
            } else {
                65536 + s.offset - distance
            },
            length,
        ),
{
    let data = packed(copy_bits(distance, length));
    lemma_copy_read(data, distance, length, s);
}

/// A copy of distance 0, or one that does not fit in the window, ends the expansion and
/// changes nothing; so do a full window and data of less than a byte.
pub proof fn law_impossible_copies_end_the_expansion(
    s: MppcState,
    distance: nat,
    length: nat,
    data: Seq<u8>,
)
    requires
        s.offset <= 65536,
        distance <= 65536,
        3 <= length < 0x1_0000_0000,
    ensures
        distance == 0 || s.offset + length > 65536 ==> expand(
            packed(copy_bits(distance, length)),
            0,
            s,
        ) == s,
        s.offset == 65536 ==> expand(data, 0, s) == s,
        data.len() == 0 ==> expand(data, 0, s) == s,
{
    if s.offset < 65536 {
        lemma_copy_read(packed(copy_bits(distance, length)), distance, length, s);
    }
}

} // verus!
