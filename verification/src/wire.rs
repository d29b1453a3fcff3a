//! Little-endian numbers on the wire.

use vstd::prelude::*;

verus! {

/// The little-endian 16-bit value of two bytes.
pub open spec fn le16(b0: u8, b1: u8) -> u16 {
    (b0 + 0x100 * b1) as u16
}

/// The little-endian 32-bit value of four bytes.
pub open spec fn le32(b0: u8, b1: u8, b2: u8, b3: u8) -> u32 {
    (b0 + 0x100 * b1 + 0x10000 * b2 + 0x1000000 * b3) as u32
}

/// The 32-bit value at position `i`.
pub open spec fn le32_at(b: Seq<u8>, i: int) -> u32 {
    le32(b[i], b[i + 1], b[i + 2], b[i + 3])
}

/// The 16-bit value at position `i`.
pub open spec fn le16_at(b: Seq<u8>, i: int) -> u16 {
    le16(b[i], b[i + 1])
}

pub fn u16_le(b0: u8, b1: u8) -> (v: u16)
    ensures
        v == le16(b0, b1),
{
    b0 as u16 + 0x100 * b1 as u16
}

pub fn u32_le(b0: u8, b1: u8, b2: u8, b3: u8) -> (v: u32)
    ensures
        v == le32(b0, b1, b2, b3),
{
    b0 as u32 + 0x100 * b1 as u32 + 0x10000 * b2 as u32 + 0x1000000 * b3 as u32
}

/// The 16-bit value at position `i` of a slice.
pub fn u16_at(b: &[u8], i: usize) -> (v: u16)
    requires
        i + 2 <= b@.len(),
    ensures
        v == le16_at(b@, i as int),
{
    u16_le(b[i], b[i + 1])
}

/// The 32-bit value at position `i` of a slice.
pub fn u32_at(b: &[u8], i: usize) -> (v: u32)
    requires
        i + 4 <= b@.len(),
    ensures
        v == le32_at(b@, i as int),
{
    u32_le(b[i], b[i + 1], b[i + 2], b[i + 3])
}

/// The two bytes of a 16-bit number, lowest first.
pub open spec fn bytes16(x: u16) -> Seq<u8> {
    seq![(x % 0x100) as u8, (x / 0x100) as u8]
}

/// The four bytes of a 32-bit number, lowest first.
pub open spec fn bytes32(x: u32) -> Seq<u8> {
    seq![
        (x % 0x100) as u8,
        (x / 0x100 % 0x100) as u8,
        (x / 0x10000 % 0x100) as u8,
        (x / 0x1000000) as u8,
    ]
}

/// The eight bytes of a 64-bit number, lowest first.
pub open spec fn bytes64(x: u64) -> Seq<u8> {
    bytes32((x % 0x1_0000_0000) as u32) + bytes32((x / 0x1_0000_0000) as u32)
}

/// The four bytes of a 32-bit number, highest first.
pub open spec fn bytes32_be(x: u32) -> Seq<u8> {
    seq![
        (x / 0x1000000) as u8,
        (x / 0x10000 % 0x100) as u8,
        (x / 0x100 % 0x100) as u8,
        (x % 0x100) as u8,
    ]
}

/// `n` zero bytes.
pub open spec fn zero_bytes(n: nat) -> Seq<u8> {
    Seq::new(n, |i: int| 0u8)
}

/// The bytes that each of several vectors holds.
pub open spec fn contents(v: Seq<Vec<u8>>) -> Seq<Seq<u8>> {
    Seq::new(v.len(), |i: int| v[i]@)
}

/// Numbers are read back as they were written.
pub proof fn law_numbers_round_trip(x: u16, y: u32, rest: Seq<u8>)
    ensures
        le16_at(bytes16(x) + rest, 0) == x,
        le32_at(bytes32(y) + rest, 0) == y,
{
    assert((bytes16(x) + rest)[0] == bytes16(x)[0]);
    assert((bytes16(x) + rest)[1] == bytes16(x)[1]);
    lemma_bytes32(y);
    assert(forall|i: int| 0 <= i < 4 ==> (bytes32(y) + rest)[i] == bytes32(y)[i]);
}

/// The number in the two bytes at `i`, the low one first.
pub open spec fn number16(b: Seq<u8>, i: int) -> int {
    b[i] + 256 * b[i + 1]
}

/// The number in the four bytes at `i`, the lowest one first.
pub open spec fn number32(b: Seq<u8>, i: int) -> int {
    b[i] + 256 * b[i + 1] + 65536 * b[i + 2] + 16777216 * b[i + 3]
}

/// Numbers are written and read with the lowest byte first; the ones that are named
/// after the other order have the highest byte first.
pub proof fn law_byte_order(b: Seq<u8>, i: int, x: u16, y: u32, z: u64)
    ensures
        le16_at(b, i) == number16(b, i),
        le32_at(b, i) == number32(b, i),
        bytes16(x).len() == 2,
        number16(bytes16(x), 0) == x,
        bytes32(y).len() == 4,
        number32(bytes32(y), 0) == y,
        bytes64(z).len() == 8,
        number32(bytes64(z), 0) + 0x1_0000_0000 * number32(bytes64(z), 4) == z,
        bytes32_be(y).len() == 4,
        number32(bytes32_be(y).reverse(), 0) == y,
{
    lemma_bytes32(y);
    let low = (z % 0x1_0000_0000) as u32;
    let high = (z / 0x1_0000_0000) as u32;
    lemma_bytes32(low);
    lemma_bytes32(high);
    let w = bytes64(z);
    assert(w[0] == bytes32(low)[0] && w[1] == bytes32(low)[1] && w[2] == bytes32(low)[2] && w[3]
        == bytes32(low)[3]);
    assert(w[4] == bytes32(high)[0] && w[5] == bytes32(high)[1] && w[6] == bytes32(high)[2] && w[7]
        == bytes32(high)[3]);
    let r = bytes32_be(y).reverse();
    assert(r =~= bytes32(y));
}

/// Bit `k` of a byte, the highest first.
pub open spec fn bit_of_byte(x: u8, k: int) -> bool {
    if k == 0 {
        x / 128 % 2 == 1
    } else if k == 1 {
        x / 64 % 2 == 1
    } else if k == 2 {
        x / 32 % 2 == 1
    } else if k == 3 {
        x / 16 % 2 == 1
    } else if k == 4 {
        x / 8 % 2 == 1
    } else if k == 5 {
        x / 4 % 2 == 1
    } else if k == 6 {
        x / 2 % 2 == 1
    } else {
        x % 2 == 1
    }
}

/// Shifting a byte down brings its bits to the lowest place.
pub proof fn lemma_bit_of_byte(x: u8, k: int)
    requires
        0 <= k < 8,
    ensures
        ((x >> ((7 - k) as u8)) & 1u8) == (if bit_of_byte(x, k) {
            1int
        } else {
            0int
        }),
{
    assert(((x >> 0u8) & 1u8) == x % 2 && ((x >> 1u8) & 1u8) == x / 2 % 2 && ((x >> 2u8) & 1u8)
        == x / 4 % 2 && ((x >> 3u8) & 1u8) == x / 8 % 2 && ((x >> 4u8) & 1u8) == x / 16 % 2 && ((x
        >> 5u8) & 1u8) == x / 32 % 2 && ((x >> 6u8) & 1u8) == x / 64 % 2 && ((x >> 7u8) & 1u8) == x
        / 128 % 2) by (bit_vector);
}

pub proof fn lemma_bytes16(x: u16)
    ensures
        le16(bytes16(x)[0], bytes16(x)[1]) == x,
{
}

pub proof fn lemma_bytes32(y: u32)
    ensures
        le32(bytes32(y)[0], bytes32(y)[1], bytes32(y)[2], bytes32(y)[3]) == y,
{
    assert(y == (y % 0x100) + 0x100 * (y / 0x100 % 0x100) + 0x10000 * (y / 0x10000 % 0x100)
        + 0x1000000 * (y / 0x1000000)) by (nonlinear_arith);
}

pub fn push_u16(v: &mut Vec<u8>, x: u16)
    ensures
        final(v)@ == old(v)@ + bytes16(x),
{
    v.push((x % 0x100) as u8);
    v.push((x / 0x100) as u8);
    assert(v@ =~= old(v)@ + bytes16(x));
}

pub fn push_u32(v: &mut Vec<u8>, x: u32)
    ensures
        final(v)@ == old(v)@ + bytes32(x),
{
    v.push((x % 0x100) as u8);
    v.push((x / 0x100 % 0x100) as u8);
    v.push((x / 0x10000 % 0x100) as u8);
    v.push((x / 0x1000000) as u8);
    assert(v@ =~= old(v)@ + bytes32(x));
}

pub fn push_u64(v: &mut Vec<u8>, x: u64)
    ensures
        final(v)@ == old(v)@ + bytes64(x),
{
    push_u32(v, (x % 0x1_0000_0000) as u32);
    push_u32(v, (x / 0x1_0000_0000) as u32);
    assert(v@ =~= old(v)@ + bytes64(x));
}

pub fn push_u32_be(v: &mut Vec<u8>, x: u32)
    ensures
        final(v)@ == old(v)@ + bytes32_be(x),
{
    v.push((x / 0x1000000) as u8);
    v.push((x / 0x10000 % 0x100) as u8);
    v.push((x / 0x100 % 0x100) as u8);
    v.push((x % 0x100) as u8);
    assert(v@ =~= old(v)@ + bytes32_be(x));
}

/// Append `n` zero bytes.
pub fn push_zeros(v: &mut Vec<u8>, n: usize)
    ensures
        final(v)@ == old(v)@ + zero_bytes(n as nat),
{
    let mut i: usize = 0;
    assert(v@ =~= old(v)@ + zero_bytes(0));
    while i < n
        invariant
            i <= n,
            v@ == old(v)@ + zero_bytes(i as nat),
        decreases n - i,
    {
        v.push(0);
        i = i + 1;
        assert(v@ =~= old(v)@ + zero_bytes(i as nat));
    }
}

/// Append bytes.
pub fn push_slice(v: &mut Vec<u8>, s: &[u8])
    ensures
        final(v)@ == old(v)@ + s@,
{
    v.extend_from_slice(s);
    assert(v@ =~= old(v)@ + s@);
}

/// UTF-16 units of bytes, two by two; a single byte at the end counts as the low
/// half of a unit.
pub open spec fn units_padded(b: Seq<u8>) -> Seq<u16> {
    Seq::new(
        ((b.len() + 1) / 2) as nat,
        |i: int|
            le16(
                b[2 * i],
                if 2 * i + 1 < b.len() {
                    b[2 * i + 1]
                } else {
                    0
                },
            ),
    )
}

/// The bytes of UTF-16 units, low half first.
pub open spec fn unit_bytes(u: Seq<u16>) -> Seq<u8>
    decreases u.len(),
{
    if u.len() == 0 {
        Seq::empty()
    } else {
        unit_bytes(u.drop_last()) + bytes16(u.last())
    }
}

/// UTF-16 units of bytes, two by two, low half first.
pub fn units_of_bytes(b: &[u8]) -> (r: Vec<u16>)
    ensures
        r@ == units_padded(b@),
{
    let mut out: Vec<u16> = Vec::new();
    let mut i: usize = 0;
    while i < b.len()
        invariant
            i <= b@.len() || i == b@.len() + 1,
            out@.len() * 2 == i,
            forall|k: int| 0 <= k < out@.len() ==> out@[k] == units_padded(b@)[k],
        decreases b@.len() + 1 - i,
    {
        if b.len() - i == 1 {
            out.push(u16_le(b[i], 0));
            assert(out@ =~= units_padded(b@));
            return out;
        }
        out.push(u16_le(b[i], b[i + 1]));
        i = i + 2;
    }
    assert(out@ =~= units_padded(b@));
    out
}

/// Append UTF-16 units, low half first.
pub fn push_units(v: &mut Vec<u8>, u: &[u16])
    ensures
        final(v)@ == old(v)@ + unit_bytes(u@),
{
    let mut i: usize = 0;
    assert(u@.take(0) =~= Seq::<u16>::empty());
    assert(v@ =~= old(v)@ + unit_bytes(u@.take(0)));
    while i < u.len()
        invariant
            i <= u@.len(),
            v@ == old(v)@ + unit_bytes(u@.take(i as int)),
        decreases u@.len() - i,
    {
        let ghost before = v@;
        push_u16(v, u[i]);
        i = i + 1;
        proof {
            let t = u@.take(i as int);
            assert(t.drop_last() =~= u@.take(i - 1));
            assert(t.last() == u@[i - 1]);
            assert(v@ =~= old(v)@ + unit_bytes(t));
        }
    }
    assert(u@.take(i as int) =~= u@);
}

/// The bytes of `n` units are `2 * n`, and each unit stands at its place.
pub proof fn lemma_unit_bytes(u: Seq<u16>)
    ensures
        unit_bytes(u).len() == 2 * u.len(),
        forall|k: int|
            0 <= k < u.len() ==> #[trigger] u[k] == le16_at(unit_bytes(u), 2 * k),
    decreases u.len(),
{
    if u.len() > 0 {
        let rest = u.drop_last();
        lemma_unit_bytes(rest);
        assert forall|k: int| 0 <= k < u.len() implies #[trigger] u[k] == le16_at(
            unit_bytes(u),
            2 * k,
        ) by {
            if k < rest.len() {
                assert(rest[k] == u[k]);
                assert(unit_bytes(u)[2 * k] == unit_bytes(rest)[2 * k]);
                assert(unit_bytes(u)[2 * k + 1] == unit_bytes(rest)[2 * k + 1]);
            } else {
                assert(unit_bytes(u)[2 * k] == bytes16(u.last())[0]);
                assert(unit_bytes(u)[2 * k + 1] == bytes16(u.last())[1]);
            }
        }
    }
}

} // verus!
