//! RDP bulk decompression: MPPC (Microsoft Point-to-Point Compression), the
//! RDP 5.0 / 64K variant (MS-RDPBCGR 3.1.8.4.2).
//!
//! The wire format is an MSB-first bit stream of literal bytes and copy tuples
//! (offset and length) that refer back into a sliding history window. The
//! decompressor is stateful: the 64K history persists across updates, so every
//! compressed fast-path update must be fed through it in order.

use vstd::arithmetic::power2::{lemma2_to64, lemma_pow2_pos, lemma_pow2_unfold, pow2};
use vstd::bits::lemma_u64_shl_is_mul;
use vstd::prelude::*;

verus! {

/// Size of the history window that copy tuples refer into.
pub const HISTORY_SIZE: usize = 65536;

/// The history window plus read headroom. A copy whose source starts near the
/// end of the window and runs past it reads the zeros there: it does not wrap.
pub const HISTORY_CAP: usize = 131072;

/// The decompressor's state: the history bytes and the next write position.
#[verifier::ext_equal]
pub struct MppcState {
    pub history: Seq<u8>,
    pub offset: nat,
}

impl MppcState {
    /// What every call keeps: the write position stays within the window and
    /// the headroom behind the window stays zero.
    pub open spec fn wf(self) -> bool {
        &&& self.history.len() == HISTORY_CAP
        &&& self.offset <= HISTORY_SIZE
        &&& forall|i: int| HISTORY_SIZE <= i < HISTORY_CAP ==> #[trigger] self.history[i] == 0
    }

    /// The state after one more byte has been produced.
    pub open spec fn append(self, b: u8) -> MppcState {
        MppcState { history: self.history.update(self.offset as int, b), offset: self.offset + 1 }
    }

    /// The state after `n` bytes have been copied one at a time from `src` on.
    pub open spec fn copy_run(self, src: int, n: nat) -> MppcState
        decreases n,
    {
        if n == 0 {
            self
        } else {
            self.append(self.history[src]).copy_run(src + 1, (n - 1) as nat)
        }
    }

    /// The effect of the two reset flags of an update.
    pub open spec fn reset(self, at_front: bool, flushed: bool) -> MppcState {
        MppcState {
            history: if flushed {
                Seq::new(HISTORY_CAP as nat, |i: int| 0u8)
            } else {
                self.history
            },
            offset: if at_front || flushed {
                0
            } else {
                self.offset
            },
        }
    }
}

/// Bit `i` of `data`, counted MSB-first; every bit past the end is 0.
pub open spec fn bit_at(data: Seq<u8>, i: int) -> nat {
    if 0 <= i < 8 * data.len() {
        ((data[i / 8] >> ((7 - i % 8) as u8)) & 1u8) as nat
    } else {
        0
    }
}

/// The `n` bits from `pos` on, as an unsigned number (first bit highest).
pub open spec fn bits_at(data: Seq<u8>, pos: int, n: nat) -> nat
    decreases n,
{
    if n == 0 {
        0
    } else {
        2 * bits_at(data, pos, (n - 1) as nat) + bit_at(data, pos + n - 1)
    }
}

/// The position `n` bits after `pos`, held at the end of the data.
pub open spec fn skip(data: Seq<u8>, pos: int, n: int) -> int {
    if pos + n <= 8 * data.len() {
        pos + n
    } else {
        8 * data.len() as int
    }
}

/// The number of consecutive 1 bits from `pos` on, counting at most `limit`.
pub open spec fn ones_run(data: Seq<u8>, pos: int, limit: nat) -> nat
    decreases limit,
{
    if limit == 0 || bit_at(data, pos) != 1 {
        0
    } else {
        1 + ones_run(data, skip(data, pos, 1), (limit - 1) as nat)
    }
}

/// The CopyOffset at `pos` (RDP5/64K table) and the position behind it.
pub open spec fn copy_offset(data: Seq<u8>, pos: int) -> (nat, int) {
    let p1 = skip(data, pos, 1);
    let p2 = skip(data, p1, 1);
    let p3 = skip(data, p2, 1);
    if bit_at(data, pos) == 0 {
        (bits_at(data, p1, 16) + 2368, skip(data, p1, 16))
    } else if bit_at(data, p1) == 0 {
        (bits_at(data, p2, 11) + 320, skip(data, p2, 11))
    } else if bit_at(data, p2) == 0 {
        (bits_at(data, p3, 8) + 64, skip(data, p3, 8))
    } else {
        (bits_at(data, p3, 6), skip(data, p3, 6))
    }
}

/// The Length-of-Match at `pos` (RFC 2118) and the position behind it: a single
/// 0 is 3; `n` ones and a 0 are followed by `n + 1` value bits and stand for
/// 2^(n+1) plus the value. A run of 31 ones ends the prefix by itself.
pub open spec fn match_length(data: Seq<u8>, pos: int) -> (nat, int) {
    let n = ones_run(data, pos, 31);
    let p = skip(data, pos, if n < 31 { n as int + 1 } else { 31 });
    if n == 0 {
        (3, p)
    } else {
        (pow2(n + 1) + bits_at(data, p, n + 1), skip(data, p, n as int + 1))
    }
}

/// The state after the tokens from `pos` on have been expanded. Expansion stops
/// when no whole token can begin (fewer than 8 bits are left), when the window
/// is full, at a copy offset of 0, and at a copy that would cross the window's
/// end.
pub open spec fn expand(data: Seq<u8>, pos: int, s: MppcState) -> MppcState
    decreases 8 * data.len() - pos,
{
    if 8 * data.len() - pos < 8 || s.offset >= HISTORY_SIZE {
        s
    } else if bit_at(data, pos) == 0 {
        expand(data, pos + 8, s.append(bits_at(data, pos + 1, 7) as u8))
    } else if bit_at(data, pos + 1) == 0 {
        expand(data, skip(data, pos, 9), s.append((128 + bits_at(data, pos + 2, 7)) as u8))
    } else {
        let (off, p) = copy_offset(data, pos + 2);
        let (len, q) = match_length(data, p);
        if off == 0 || s.offset + len > HISTORY_SIZE {
            s
        } else {
            expand(data, q, s.copy_run((s.offset - off) % 65536, len))
        }
    }
}

proof fn lemma_bits_bound(data: Seq<u8>, pos: int, n: nat)
    ensures
        bits_at(data, pos, n) < pow2(n),
    decreases n,
{
    lemma_pow2_pos(n);
    if n > 0 {
        lemma_bits_bound(data, pos, (n - 1) as nat);
        lemma_pow2_unfold(n);
        lemma_bit(data, pos + n - 1);
    }
}

proof fn lemma_bit(data: Seq<u8>, i: int)
    ensures
        bit_at(data, i) <= 1,
{
    if 0 <= i < 8 * data.len() {
        let x: u8 = data[i / 8];
        let s: u8 = (7 - i % 8) as u8;
        assert((x >> s) & 1u8 <= 1u8) by (bit_vector);
    }
}

/// Copying keeps the state well formed, leaves the bytes before the write
/// position alone and moves the write position by the number of bytes.
proof fn lemma_copy_run(s: MppcState, src: int, n: nat)
    requires
        s.wf(),
        s.offset + n <= HISTORY_SIZE,
    ensures
        s.copy_run(src, n).wf(),
        s.copy_run(src, n).offset == s.offset + n,
        forall|i: int| 0 <= i < s.offset ==> s.copy_run(src, n).history[i] == s.history[i],
    decreases n,
{
    if n > 0 {
        let t = s.append(s.history[src]);
        lemma_copy_run(t, src + 1, (n - 1) as nat);
        assert forall|i: int| 0 <= i < s.offset implies s.copy_run(src, n).history[i]
            == s.history[i] by {
            assert(t.history[i] == s.history[i]);
        }
    }
}

/// Decompression keeps the state well formed, whatever the data: the write
/// position never leaves the 64K window, the headroom stays zero, and what was
/// produced before is left alone.
pub proof fn law_expand_keeps_history(data: Seq<u8>, pos: int, s: MppcState)
    requires
        s.wf(),
    ensures
        expand(data, pos, s).wf(),
        expand(data, pos, s).offset >= s.offset,
        forall|i: int|
            0 <= i < s.offset ==> #[trigger] expand(data, pos, s).history[i] == s.history[i],
    decreases 8 * data.len() - pos,
{
    if 8 * data.len() - pos < 8 || s.offset >= HISTORY_SIZE {
    } else if bit_at(data, pos) == 0 {
        let t = s.append(bits_at(data, pos + 1, 7) as u8);
        law_expand_keeps_history(data, pos + 8, t);
        assert(forall|i: int| 0 <= i < s.offset ==> t.history[i] == s.history[i]);
    } else if bit_at(data, pos + 1) == 0 {
        let t = s.append((128 + bits_at(data, pos + 2, 7)) as u8);
        law_expand_keeps_history(data, skip(data, pos, 9), t);
        assert(forall|i: int| 0 <= i < s.offset ==> t.history[i] == s.history[i]);
    } else {
        let (off, p) = copy_offset(data, pos + 2);
        let (len, q) = match_length(data, p);
        if off == 0 || s.offset + len > HISTORY_SIZE {
        } else {
            let t = s.copy_run((s.offset - off) % 65536, len);
            lemma_copy_run(s, (s.offset - off) % 65536, len);
            law_expand_keeps_history(data, q, t);
        }
    }
}

/// MSB-first bit reader over a byte slice. Reads past the end return 0 bits.
struct BitReader<'a> {
    data: &'a [u8],
    byte: usize,
    bit: u8,
}

impl<'a> BitReader<'a> {
    spec fn wf(self) -> bool {
        &&& self.bit < 8
        &&& self.byte <= self.data@.len()
        &&& self.byte == self.data@.len() ==> self.bit == 0
    }

    spec fn pos(self) -> int {
        8 * self.byte + self.bit
    }

    fn new(data: &'a [u8]) -> (r: Self)
        ensures
            r.wf(),
            r.data@ == data@,
            r.pos() == 0,
    {
        BitReader { data, byte: 0, bit: 0 }
    }

    fn read_bit(&mut self) -> (v: u32)
        requires
            old(self).wf(),
        ensures
            final(self).wf(),
            final(self).data == old(self).data,
            v == bit_at(old(self).data@, old(self).pos()),
            v <= 1,
            final(self).pos() == skip(old(self).data@, old(self).pos(), 1),
    {
        proof {
            lemma_bit(self.data@, self.pos());
        }
        if self.byte < self.data.len() {
            let v: u32 = ((self.data[self.byte] >> (7 - self.bit)) & 1) as u32;
            assert(self.pos() / 8 == self.byte && self.pos() % 8 == self.bit);
            self.bit = self.bit + 1;
            if self.bit == 8 {
                self.bit = 0;
                self.byte = self.byte + 1;
            }
            v
        } else {
            0
        }
    }

    /// Number of unread bits remaining in the source.
    fn bits_left(&self) -> (n: u128)
        requires
            self.wf(),
        ensures
            n == 8 * self.data@.len() - self.pos(),
    {
        (self.data.len() as u128) * 8 - ((self.byte as u128) * 8 + self.bit as u128)
    }

    fn read(&mut self, n: u8) -> (v: u64)
        requires
            old(self).wf(),
            n <= 32,
        ensures
            final(self).wf(),
            final(self).data == old(self).data,
            v == bits_at(old(self).data@, old(self).pos(), n as nat),
            v < pow2(n as nat),
            final(self).pos() == skip(old(self).data@, old(self).pos(), n as int),
    {
        let mut v: u64 = 0;
        let mut i: u8 = 0;
        let ghost data = self.data@;
        let ghost start = self.pos();
        while i < n
            invariant
                self.wf(),
                self.data == old(self).data,
                data == self.data@,
                start == old(self).pos(),
                0 <= start <= 8 * data.len(),
                i <= n <= 32,
                v == bits_at(data, start, i as nat),
                self.pos() == skip(data, start, i as int),
            decreases n - i,
        {
            proof {
                lemma_bits_bound(data, start, i as nat);
                lemma_pow2_le_32(i as nat);
            }
            let b: u32 = self.read_bit();
            v = v * 2 + b as u64;
            i = i + 1;
        }
        proof {
            lemma_bits_bound(data, start, n as nat);
        }
        v
    }
}

proof fn lemma_pow2_le_32(n: nat)
    requires
        n <= 33,
    ensures
        pow2(n) <= 0x2_0000_0000,
{
    lemma2_to64();
    if n < 33 {
        vstd::arithmetic::power2::lemma_pow2_strictly_increases(n, 33);
    }
    lemma_pow2_unfold(33);
}

/// Decode the CopyOffset. The `11` copy indicator has already been consumed.
fn decode_offset(br: &mut BitReader) -> (r: u64)
    requires
        old(br).wf(),
    ensures
        final(br).wf(),
        final(br).data == old(br).data,
        (r as nat, final(br).pos()) == copy_offset(old(br).data@, old(br).pos()),
        r <= 67903,
{
    proof {
        lemma2_to64();
    }
    if br.read_bit() == 0 {
        // 110: 16 bits, 2368 and up
        br.read(16) + 2368
    } else if br.read_bit() == 0 {
        // 1110: 11 bits, 320..=2367
        br.read(11) + 320
    } else if br.read_bit() == 0 {
        // 11110: 8 bits, 64..=319
        br.read(8) + 64
    } else {
        // 11111: 6 bits, 0..=63
        br.read(6)
    }
}

/// Decode the Length-of-Match.
fn decode_length(br: &mut BitReader) -> (r: u64)
    requires
        old(br).wf(),
    ensures
        final(br).wf(),
        final(br).data == old(br).data,
        (r as nat, final(br).pos()) == match_length(old(br).data@, old(br).pos()),
        r <= 0x4_0000_0000,
{
    let mut n: u32 = 0;
    let ghost data = br.data@;
    let ghost start = br.pos();
    loop
        invariant_except_break
            n <= 30,
            br.pos() == skip(data, start, n as int),
            ones_run(data, start, 31) == n + ones_run(data, br.pos(), (31 - n) as nat),
        invariant
            br.wf(),
            br.data == old(br).data,
            data == br.data@,
            start == old(br).pos(),
            0 <= start <= 8 * data.len(),
        ensures
            n <= 31,
            n == ones_run(data, start, 31),
            br.pos() == skip(data, start, if n < 31 { n as int + 1 } else { 31 }),
        decreases 31 - n,
    {
        let b: u32 = br.read_bit();
        if b != 1 {
            break;
        }
        n = n + 1;
        if n > 30 {
            assert(ones_run(data, br.pos(), 0) == 0);
            break;  // a malformed stream must not run away

        }
    }
    if n == 0 {
        3
    } else {
        let bits: u8 = (n + 1) as u8;
        proof {
            lemma_pow2_le_32(bits as nat);
            lemma_u64_shl_is_mul(1, bits as u64);
        }
        (1u64 << (bits as u64)) + br.read(bits)
    }
}

/// Stateful MPPC (RDP5/64K) decompressor: a linear history pointer, reset to 0
/// on the at-front and flushed flags and never wrapped inside a copy, and a
/// copy whose source index is taken modulo 64K only at its start.
pub struct MppcDecompressor {
    history: Vec<u8>,
    offset: usize,
}

impl View for MppcDecompressor {
    type V = MppcState;

    closed spec fn view(&self) -> MppcState {
        MppcState { history: self.history@, offset: self.offset as nat }
    }
}

impl Default for MppcDecompressor {
    fn default() -> (r: Self)
        ensures
            r@.wf(),
            r@.offset == 0,
            r@.history == Seq::new(HISTORY_CAP as nat, |i: int| 0u8),
    {
        Self::new()
    }
}

impl MppcDecompressor {
    pub fn new() -> (r: Self)
        ensures
            r@.wf(),
            r@.offset == 0,
            r@.history == Seq::new(HISTORY_CAP as nat, |i: int| 0u8),
    {
        let r = MppcDecompressor { history: vec![0u8; HISTORY_CAP], offset: 0 };
        assert(r@.history =~= Seq::new(HISTORY_CAP as nat, |i: int| 0u8));
        r
    }

    /// Append one byte to the history and to `out`.
    fn emit(&mut self, b: u8, out: &mut Vec<u8>)
        requires
            old(self)@.wf(),
            old(self)@.offset < HISTORY_SIZE,
        ensures
            final(self)@ == old(self)@.append(b),
            final(self)@.wf(),
            final(out)@ == old(out)@.push(b),
    {
        self.history.set(self.offset, b);
        out.push(b);
        self.offset = self.offset + 1;
    }

    /// Copy `length` bytes from `off` bytes back. The source index is taken
    /// modulo 64K at its start (so a back-reference right after a reset reaches
    /// the retained tail); the copy then runs linearly.
    fn copy_back(&mut self, off: usize, length: usize, out: &mut Vec<u8>)
        requires
            old(self)@.wf(),
            0 < off <= HISTORY_CAP,
            old(self)@.offset + length <= HISTORY_SIZE,
        ensures
            final(self)@.wf(),
            final(self)@ == old(self)@.copy_run((old(self)@.offset - off) % 65536, length as nat),
            final(out)@ == old(out)@ + final(self)@.history.subrange(
                old(self)@.offset as int,
                final(self)@.offset as int,
            ),
            final(self)@.offset == old(self)@.offset + length,
            forall|i: int|
                0 <= i < old(self)@.offset ==> final(self)@.history[i] == old(self)@.history[i],
    {
        let ghost s = self@;
        let mut src: usize = (self.offset + HISTORY_CAP - off) % HISTORY_SIZE;
        let ghost src0 = src as int;
        assert(src0 == (s.offset - off) % 65536);
        let mut i: usize = 0;
        assert(out@ =~= old(out)@ + self@.history.subrange(s.offset as int, self@.offset as int));
        while i < length
            invariant
                self@.wf(),
                self@.offset == s.offset + i,
                s.offset + length <= HISTORY_SIZE,
                i <= length,
                src == src0 + i,
                0 <= src0 < HISTORY_SIZE,
                s.copy_run(src0, length as nat) == self@.copy_run(
                    src as int,
                    (length - i) as nat,
                ),
                out@ == old(out)@ + self@.history.subrange(s.offset as int, self@.offset as int),
                forall|j: int| 0 <= j < s.offset ==> self@.history[j] == s.history[j],
            decreases length - i,
        {
            let b: u8 = self.history[src];
            self.emit(b, out);
            assert(out@ =~= old(out)@ + self@.history.subrange(
                s.offset as int,
                self@.offset as int,
            ));
            src = src + 1;
            i = i + 1;
        }
    }

    /// Decompress one update's payload. `compressed`, `at_front` and `flushed`
    /// come from the fast-path compression flags. An uncompressed payload is
    /// returned as it is and does not enter the history.
    pub fn decompress(
        &mut self,
        data: &[u8],
        compressed: bool,
        at_front: bool,
        flushed: bool,
    ) -> (out: Vec<u8>)
        requires
            old(self)@.wf(),
        ensures
            final(self)@.wf(),
            !compressed ==> out@ == data@ && final(self)@ == old(self)@.reset(at_front, flushed),
            compressed ==> final(self)@ == expand(data@, 0, old(self)@.reset(at_front, flushed)),
            compressed ==> out@ == final(self)@.history.subrange(
                old(self)@.reset(at_front, flushed).offset as int,
                final(self)@.offset as int,
            ),
    {
        if flushed {
            let mut i: usize = 0;
            while i < HISTORY_SIZE
                invariant
                    self@.wf(),
                    i <= HISTORY_SIZE,
                    forall|j: int| 0 <= j < i ==> self.history@[j] == 0,
                decreases HISTORY_SIZE - i,
            {
                self.history.set(i, 0);
                i = i + 1;
            }
            self.offset = 0;
            assert forall|j: int| 0 <= j < HISTORY_CAP implies self.history@[j] == 0 by {
                if j >= HISTORY_SIZE {
                    assert(self@.history[j] == 0);
                }
            }
            assert(self@.history =~= Seq::new(HISTORY_CAP as nat, |i: int| 0u8));
        }
        if at_front {
            self.offset = 0;
        }
        assert(self@ =~= old(self)@.reset(at_front, flushed));
        let ghost s0 = self@;
        if !compressed {
            return vstd::slice::slice_to_vec(data);
        }
        let mut out: Vec<u8> = Vec::new();
        let mut br = BitReader::new(data);
        assert(out@ =~= self@.history.subrange(s0.offset as int, self@.offset as int));
        // The smallest token is an 8-bit literal: with fewer bits left only the
        // padding of the last byte remains.
        while br.bits_left() >= 8
            invariant_except_break
                expand(data@, 0, s0) == expand(data@, br.pos(), self@),
            invariant
                br.wf(),
                br.data@ == data@,
                s0.wf(),
                self@.wf(),
                s0.offset <= self@.offset,
                out@ == self@.history.subrange(s0.offset as int, self@.offset as int),
            ensures
                self@ == expand(data@, 0, s0),
            decreases 8 * data@.len() - br.pos(),
        {
            let ghost pos = br.pos();
            if self.offset >= HISTORY_SIZE {
                break;
            }
            let ghost s = self@;
            proof {
                lemma2_to64();
            }
            if br.read_bit() == 0 {
                // 0xxxxxxx: literal 0x00..=0x7F
                let lit: u8 = br.read(7) as u8;
                self.emit(lit, &mut out);
                assert(out@ =~= self@.history.subrange(s0.offset as int, self@.offset as int));
            } else if br.read_bit() == 0 {
                // 10xxxxxxx: literal 0x80..=0xFF
                let lit: u8 = 128 + br.read(7) as u8;
                self.emit(lit, &mut out);
                assert(out@ =~= self@.history.subrange(s0.offset as int, self@.offset as int));
            } else {
                // 11...: copy tuple
                let off: usize = decode_offset(&mut br) as usize;
                let len: u64 = decode_length(&mut br);
                if off == 0 {
                    break;
                }
                if self.offset as u64 + len > HISTORY_SIZE as u64 {
                    break;
                }
                self.copy_back(off, len as usize, &mut out);
                assert(out@ =~= self@.history.subrange(s0.offset as int, self@.offset as int));
            }
        }
        out
    }
}

} // verus!
