//! Where the fields of the primary drawing orders stand on the wire.

use crate::orders::color::rgba;
use crate::orders::cursor::Reading;
use crate::orders::glyph::{FastTextView, GlyphIndexView};
use crate::orders::header::{present, Bounds};
use crate::orders::primary::{DstBlt, LineTo, MemBlt, OpaqueRect, PatBlt, ScrBlt};
use vstd::prelude::*;

verus! {

/// The unsigned number in the two bytes at `i`, the low one first.
pub open spec fn unsigned16(b: Seq<u8>, i: int) -> int {
    b[i] + 256 * b[i + 1]
}

/// The signed number in the two bytes at `i`, the low one first.
pub open spec fn signed16(b: Seq<u8>, i: int) -> int {
    if unsigned16(b, i) < 32768 {
        unsigned16(b, i)
    } else {
        unsigned16(b, i) - 65536
    }
}

/// The signed number in the byte at `i`.
pub open spec fn signed8(b: Seq<u8>, i: int) -> int {
    if b[i] < 128 {
        b[i] as int
    } else {
        b[i] - 256
    }
}

/// How many bytes a field of `n` takes: none if it is left out.
#[verifier::opaque]
pub open spec fn taken(ff: u32, mask: u32, n: int) -> int {
    if ff & mask != 0 {
        n
    } else {
        0
    }
}

/// What a field takes lies between nothing and its size.
pub proof fn lemma_taken(ff: u32, mask: u32, n: int)
    requires
        0 <= n,
    ensures
        0 <= taken(ff, mask, n) <= n,
{
    reveal(taken);
}

/// How many bytes a coordinate takes.
#[verifier::opaque]
pub open spec fn coordinate_size(delta: bool) -> int {
    if delta {
        1
    } else {
        2
    }
}

proof fn lemma_coordinate_size(delta: bool)
    ensures
        1 <= coordinate_size(delta) <= 2,
{
    reveal(coordinate_size);
}

/// A coordinate after an order: kept if it is left out; else the one at `i`, or the old
/// one moved by the signed byte there.
#[verifier::opaque]
pub open spec fn is_coordinate(
    new: i32,
    old: i32,
    ff: u32,
    mask: u32,
    delta: bool,
    b: Seq<u8>,
    i: int,
) -> bool {
    if ff & mask == 0 {
        new == old
    } else if delta {
        i32::MIN <= old + signed8(b, i) <= i32::MAX ==> new == old + signed8(b, i)
    } else {
        new == signed16(b, i)
    }
}

/// A byte after an order.
#[verifier::opaque]
pub open spec fn is_byte(new: u8, old: u8, ff: u32, mask: u32, b: Seq<u8>, i: int) -> bool {
    new == (if ff & mask != 0 {
        b[i]
    } else {
        old
    })
}

/// A 16-bit number after an order.
#[verifier::opaque]
pub open spec fn is_number(new: u16, old: u16, ff: u32, mask: u32, b: Seq<u8>, i: int) -> bool {
    new == (if ff & mask != 0 {
        unsigned16(b, i)
    } else {
        old as int
    })
}

/// A signed byte after an order.
#[verifier::opaque]
pub open spec fn is_signed_byte(new: i32, old: i32, ff: u32, mask: u32, b: Seq<u8>, i: int) -> bool {
    new == (if ff & mask != 0 {
        signed8(b, i)
    } else {
        old as int
    })
}

/// A color after an order: red, green and blue, opaque.
#[verifier::opaque]
pub open spec fn is_color(new: [u8; 4], old: [u8; 4], ff: u32, mask: u32, b: Seq<u8>, i: int) -> bool {
    if ff & mask != 0 {
        rgba(new) == (b[i], b[i + 1], b[i + 2], 0xffu8)
    } else {
        new == old
    }
}

/// Counted bytes after an order: as many as the byte at `i` says, or as there are.
#[verifier::opaque]
pub open spec fn is_counted(new: Seq<u8>, old: Seq<u8>, ff: u32, mask: u32, b: Seq<u8>, i: int) -> bool {
    if ff & mask != 0 {
        if i + 1 + b[i] <= b.len() {
            new == b.subrange(i + 1, i + 1 + b[i])
        } else {
            new == b.subrange(i + 1, b.len() as int)
        }
    } else {
        new == old
    }
}

/// How many bytes counted bytes take, their count included.
pub open spec fn counted_size(b: Seq<u8>, i: int) -> int {
    if i + 1 + b[i] <= b.len() {
        1 + b[i]
    } else {
        b.len() - i
    }
}

/// `d`, moved to `pos`.
pub open spec fn moved_to(d: Reading, pos: int) -> Reading {
    Reading { pos, ..d }
}

proof fn lemma_masks()
    ensures
        1u32 << 0u32 == 0x1,
        1u32 << 1u32 == 0x2,
        1u32 << 2u32 == 0x4,
        1u32 << 3u32 == 0x8,
        1u32 << 4u32 == 0x10,
        1u32 << 5u32 == 0x20,
        1u32 << 6u32 == 0x40,
        1u32 << 7u32 == 0x80,
        1u32 << 8u32 == 0x100,
        1u32 << 9u32 == 0x200,
        1u32 << 10u32 == 0x400,
        1u32 << 11u32 == 0x800,
        1u32 << 12u32 == 0x1000,
        1u32 << 13u32 == 0x2000,
        1u32 << 14u32 == 0x4000,
        1u32 << 15u32 == 0x8000,
        1u32 << 16u32 == 0x10000,
        1u32 << 17u32 == 0x20000,
        1u32 << 18u32 == 0x40000,
        1u32 << 19u32 == 0x80000,
        1u32 << 20u32 == 0x100000,
        1u32 << 21u32 == 0x200000,
{
    assert(1u32 << 0u32 == 0x1 && 1u32 << 1u32 == 0x2 && 1u32 << 2u32 == 0x4 && 1u32 << 3u32 == 0x8
        && 1u32 << 4u32 == 0x10 && 1u32 << 5u32 == 0x20 && 1u32 << 6u32 == 0x40 && 1u32 << 7u32
        == 0x80 && 1u32 << 8u32 == 0x100 && 1u32 << 9u32 == 0x200 && 1u32 << 10u32 == 0x400 && 1u32
        << 11u32 == 0x800 && 1u32 << 12u32 == 0x1000 && 1u32 << 13u32 == 0x2000 && 1u32 << 14u32
        == 0x4000 && 1u32 << 15u32 == 0x8000 && 1u32 << 16u32 == 0x10000 && 1u32 << 17u32 == 0x20000
        && 1u32 << 18u32 == 0x40000 && 1u32 << 19u32 == 0x80000 && 1u32 << 20u32 == 0x100000 && 1u32
        << 21u32 == 0x200000) by (bit_vector);
}

pub proof fn lemma_signs(x: u16, y: u8)
    ensures
        x as i16 == (if x < 32768 {
            x as int
        } else {
            x - 65536
        }),
        y as i8 == (if y < 128 {
            y as int
        } else {
            y - 256
        }),
{
    assert(x < 32768 ==> x as i16 == x) by (bit_vector);
    assert(x >= 32768 ==> x as i16 == x - 65536) by (bit_vector);
    assert(y < 128 ==> y as i8 == y) by (bit_vector);
    assert(y >= 128 ==> y as i8 == y - 256) by (bit_vector);
}

#[verifier::opaque]
spec fn coord_at(d: Reading, ff: u32, bit: u32, delta: bool, old: i32) -> (Reading, i32) {
    d.coord(ff, bit, delta, old)
}

proof fn lemma_coord(
    d: Reading,
    pos: int,
    ff: u32,
    bit: u32,
    mask: u32,
    delta: bool,
    old: i32,
)
    requires
        mask == 1u32 << bit,
        d.live(),
        d.pos <= pos,
        pos + coordinate_size(delta) <= d.data.len(),
    ensures
        ({
            let (e, v) = coord_at(moved_to(d, pos), ff, bit, delta, old);
            &&& e == moved_to(d, pos + taken(ff, mask, coordinate_size(delta)))
            &&& is_coordinate(v, old, ff, mask, delta, d.data, pos)
        }),
{
    reveal(coord_at);
    reveal(taken);
    reveal(is_coordinate);
    reveal(coordinate_size);
    lemma_signs(crate::wire::le16(d.data[pos], d.data[pos + 1]), d.data[pos]);
}

#[verifier::opaque]
spec fn u8_at(d: Reading, ff: u32, bit: u32, old: u8) -> (Reading, u8) {
    d.field(ff, bit, old)
}

proof fn lemma_u8(d: Reading, pos: int, ff: u32, bit: u32, mask: u32, old: u8)
    requires
        mask == 1u32 << bit,
        d.live(),
        d.pos <= pos,
        pos + 1 <= d.data.len(),
    ensures
        ({
            let (e, v) = u8_at(moved_to(d, pos), ff, bit, old);
            e == moved_to(d, pos + taken(ff, mask, 1)) && is_byte(v, old, ff, mask, d.data, pos)
        }),
{
    reveal(taken);
    reveal(is_byte);
    reveal(u8_at);
}

#[verifier::opaque]
spec fn u16_at(d: Reading, ff: u32, bit: u32, old: u16) -> (Reading, u16) {
    d.field(ff, bit, old)
}

proof fn lemma_u16(d: Reading, pos: int, ff: u32, bit: u32, mask: u32, old: u16)
    requires
        mask == 1u32 << bit,
        d.live(),
        d.pos <= pos,
        pos + 2 <= d.data.len(),
    ensures
        ({
            let (e, v) = u16_at(moved_to(d, pos), ff, bit, old);
            e == moved_to(d, pos + taken(ff, mask, 2)) && is_number(v, old, ff, mask, d.data, pos)
        }),
{
    reveal(taken);
    reveal(is_number);
    reveal(u16_at);
}

#[verifier::opaque]
spec fn i8_at(d: Reading, ff: u32, bit: u32, old: i32) -> (Reading, i32) {
    d.field(ff, bit, old)
}

proof fn lemma_i8(d: Reading, pos: int, ff: u32, bit: u32, mask: u32, old: i32)
    requires
        mask == 1u32 << bit,
        d.live(),
        d.pos <= pos,
        pos + 1 <= d.data.len(),
    ensures
        ({
            let (e, v) = i8_at(moved_to(d, pos), ff, bit, old);
            e == moved_to(d, pos + taken(ff, mask, 1)) && is_signed_byte(v, old, ff, mask, d.data, pos)
        }),
{
    reveal(taken);
    reveal(is_signed_byte);
    reveal(i8_at);
    lemma_signs(0, d.data[pos]);
}

#[verifier::opaque]
spec fn color_at(d: Reading, ff: u32, bit: u32, old: [u8; 4]) -> (Reading, [u8; 4]) {
    d.field(ff, bit, old)
}

proof fn lemma_color(d: Reading, pos: int, ff: u32, bit: u32, mask: u32, old: [u8; 4])
    requires
        mask == 1u32 << bit,
        d.live(),
        d.pos <= pos,
        pos + 3 <= d.data.len(),
    ensures
        ({
            let (e, v) = color_at(moved_to(d, pos), ff, bit, old);
            e == moved_to(d, pos + taken(ff, mask, 3)) && is_color(v, old, ff, mask, d.data, pos)
        }),
{
    reveal(taken);
    reveal(is_color);
    reveal(color_at);
}

#[verifier::opaque]
spec fn pattern_at(d: Reading, ff: u32, bit: u32) -> Reading {
    if present(ff, bit) {
        d.skip(7)
    } else {
        d
    }
}

proof fn lemma_pattern(d: Reading, pos: int, ff: u32, bit: u32, mask: u32)
    requires
        mask == 1u32 << bit,
        d.live(),
        d.pos <= pos,
        pos + 7 <= d.data.len(),
    ensures
        pattern_at(moved_to(d, pos), ff, bit) == moved_to(
            d,
            pos + taken(ff, mask, 7),
        ),
{
    reveal(pattern_at);
    reveal(taken);
}

proof fn lemma_coords4(
    d: Reading,
    pos: int,
    ff: u32,
    bit: u32,
    masks: (u32, u32, u32, u32),
    delta: bool,
    old: [i32; 4],
)
    requires
        masks.0 == 1u32 << bit,
        masks.1 == 1u32 << ((bit + 1) as u32),
        masks.2 == 1u32 << ((bit + 2) as u32),
        masks.3 == 1u32 << ((bit + 3) as u32),
        d.live(),
        bit < 28,
        d.pos <= pos,
        pos + 4 * coordinate_size(delta) <= d.data.len(),
    ensures
        ({
            let (e, v) = moved_to(d, pos).coords4(ff, bit, delta, old);
            let c = coordinate_size(delta);
            let p1 = pos + taken(ff, masks.0, c);
            let p2 = p1 + taken(ff, masks.1, c);
            let p3 = p2 + taken(ff, masks.2, c);
            &&& e == moved_to(d, p3 + taken(ff, masks.3, c))
            &&& is_coordinate(v[0], old[0], ff, masks.0, delta, d.data, pos)
            &&& is_coordinate(v[1], old[1], ff, masks.1, delta, d.data, p1)
            &&& is_coordinate(v[2], old[2], ff, masks.2, delta, d.data, p2)
            &&& is_coordinate(v[3], old[3], ff, masks.3, delta, d.data, p3)
        }),
{
    let c = coordinate_size(delta);
    lemma_coordinate_size(delta);
    assert(moved_to(d, pos).coords4(ff, bit, delta, old) == ({
        let (d1, a0) = coord_at(moved_to(d, pos), ff, bit, delta, old[0]);
        let (d2, a1) = coord_at(d1, ff, (bit + 1) as u32, delta, old[1]);
        let (d3, a2) = coord_at(d2, ff, (bit + 2) as u32, delta, old[2]);
        let (d4, a3) = coord_at(d3, ff, (bit + 3) as u32, delta, old[3]);
        (d4, [a0, a1, a2, a3])
    })) by {
        reveal(Reading::coords4);
        reveal(coord_at);
    }
    let p1 = pos + taken(ff, masks.0, c);
    let p2 = p1 + taken(ff, masks.1, c);
    let p3 = p2 + taken(ff, masks.2, c);
    lemma_taken(ff, masks.0, c);
    lemma_taken(ff, masks.1, c);
    lemma_taken(ff, masks.2, c);
    lemma_coord(d, pos, ff, bit, masks.0, delta, old[0]);
    lemma_coord(d, p1, ff, (bit + 1) as u32, masks.1, delta, old[1]);
    lemma_coord(d, p2, ff, (bit + 2) as u32, masks.2, delta, old[2]);
    lemma_coord(d, p3, ff, (bit + 3) as u32, masks.3, delta, old[3]);
}

#[verifier::opaque]
spec fn counted_at(d: Reading, ff: u32, bit: u32, old: Seq<u8>) -> (Reading, Seq<u8>) {
    if present(ff, bit) {
        d.counted(old)
    } else {
        (d, old)
    }
}

proof fn lemma_counted(d: Reading, pos: int, ff: u32, bit: u32, mask: u32, old: Seq<u8>)
    requires
        mask == 1u32 << bit,
        d.live(),
        d.pos <= pos,
        pos + 1 <= d.data.len(),
    ensures
        ({
            let (e, v) = counted_at(moved_to(d, pos), ff, bit, old);
            e == moved_to(d, pos + taken(ff, mask, counted_size(d.data, pos))) && is_counted(
                v,
                old,
                ff,
                mask,
                d.data,
                pos,
            )
        }),
{
    reveal(counted_at);
    reveal(Reading::counted);
    reveal(taken);
    reveal(is_counted);
}

/// The fields of a DstBlt: one after the other in this order, each only if its
/// bit of the flags is set (the first field has the lowest bit); one that is left out
/// keeps its value.
pub proof fn law_dstblt_layout(o: DstBlt, d: Reading, ff: u32, delta: bool)
    requires
        d.live(),
        d.remaining() >= 9,
    ensures
        ({
            let (e, t) = o.decoded(d, ff, delta);
            let b = d.data;
            let c = coordinate_size(delta);
            let p0 = d.pos;
            let p1 = p0 + taken(ff, 0x1, c);
            let p2 = p1 + taken(ff, 0x2, c);
            let p3 = p2 + taken(ff, 0x4, c);
            let p4 = p3 + taken(ff, 0x8, c);
            let p5 = p4 + taken(ff, 0x10, 1);
            &&& e == moved_to(d, p5)
            &&& is_coordinate(t.x, o.x, ff, 0x1, delta, b, p0)
            &&& is_coordinate(t.y, o.y, ff, 0x2, delta, b, p1)
            &&& is_coordinate(t.w, o.w, ff, 0x4, delta, b, p2)
            &&& is_coordinate(t.h, o.h, ff, 0x8, delta, b, p3)
            &&& is_byte(t.rop, o.rop, ff, 0x10, b, p4)
        }),
{
    lemma_masks();
    lemma_dstblt(o, d, ff, delta);
    let c = coordinate_size(delta);
    lemma_coordinate_size(delta);
    let p0 = d.pos;
    assert(moved_to(d, p0) == d);
    let r0 = coord_at(d, ff, 0, delta, o.x);
    lemma_coord(d, p0, ff, 0, 0x1, delta, o.x);
    lemma_taken(ff, 0x1, c);
    let p1 = p0 + taken(ff, 0x1, c);
    assert(r0.0 == moved_to(d, p1));
    let r1 = coord_at(r0.0, ff, 1, delta, o.y);
    lemma_coord(d, p1, ff, 1, 0x2, delta, o.y);
    lemma_taken(ff, 0x2, c);
    let p2 = p1 + taken(ff, 0x2, c);
    assert(r1.0 == moved_to(d, p2));
    let r2 = coord_at(r1.0, ff, 2, delta, o.w);
    lemma_coord(d, p2, ff, 2, 0x4, delta, o.w);
    lemma_taken(ff, 0x4, c);
    let p3 = p2 + taken(ff, 0x4, c);
    assert(r2.0 == moved_to(d, p3));
    let r3 = coord_at(r2.0, ff, 3, delta, o.h);
    lemma_coord(d, p3, ff, 3, 0x8, delta, o.h);
    lemma_taken(ff, 0x8, c);
    let p4 = p3 + taken(ff, 0x8, c);
    assert(r3.0 == moved_to(d, p4));
    let r4 = u8_at(r3.0, ff, 4, o.rop);
    lemma_u8(d, p4, ff, 4, 0x10, o.rop);
    lemma_taken(ff, 0x10, 1);
    let p5 = p4 + taken(ff, 0x10, 1);
    assert(r4.0 == moved_to(d, p5));
}

/// The fields of a ScrBlt: one after the other in this order, each only if its
/// bit of the flags is set (the first field has the lowest bit); one that is left out
/// keeps its value.
pub proof fn law_scrblt_layout(o: ScrBlt, d: Reading, ff: u32, delta: bool)
    requires
        d.live(),
        d.remaining() >= 13,
    ensures
        ({
            let (e, t) = o.decoded(d, ff, delta);
            let b = d.data;
            let c = coordinate_size(delta);
            let p0 = d.pos;
            let p1 = p0 + taken(ff, 0x1, c);
            let p2 = p1 + taken(ff, 0x2, c);
            let p3 = p2 + taken(ff, 0x4, c);
            let p4 = p3 + taken(ff, 0x8, c);
            let p5 = p4 + taken(ff, 0x10, 1);
            let p6 = p5 + taken(ff, 0x20, c);
            let p7 = p6 + taken(ff, 0x40, c);
            &&& e == moved_to(d, p7)
            &&& is_coordinate(t.x, o.x, ff, 0x1, delta, b, p0)
            &&& is_coordinate(t.y, o.y, ff, 0x2, delta, b, p1)
            &&& is_coordinate(t.w, o.w, ff, 0x4, delta, b, p2)
            &&& is_coordinate(t.h, o.h, ff, 0x8, delta, b, p3)
            &&& is_byte(t.rop, o.rop, ff, 0x10, b, p4)
            &&& is_coordinate(t.x_src, o.x_src, ff, 0x20, delta, b, p5)
            &&& is_coordinate(t.y_src, o.y_src, ff, 0x40, delta, b, p6)
        }),
{
    lemma_masks();
    lemma_scrblt(o, d, ff, delta);
    let c = coordinate_size(delta);
    lemma_coordinate_size(delta);
    let p0 = d.pos;
    assert(moved_to(d, p0) == d);
    let r0 = coord_at(d, ff, 0, delta, o.x);
    lemma_coord(d, p0, ff, 0, 0x1, delta, o.x);
    lemma_taken(ff, 0x1, c);
    let p1 = p0 + taken(ff, 0x1, c);
    assert(r0.0 == moved_to(d, p1));
    let r1 = coord_at(r0.0, ff, 1, delta, o.y);
    lemma_coord(d, p1, ff, 1, 0x2, delta, o.y);
    lemma_taken(ff, 0x2, c);
    let p2 = p1 + taken(ff, 0x2, c);
    assert(r1.0 == moved_to(d, p2));
    let r2 = coord_at(r1.0, ff, 2, delta, o.w);
    lemma_coord(d, p2, ff, 2, 0x4, delta, o.w);
    lemma_taken(ff, 0x4, c);
    let p3 = p2 + taken(ff, 0x4, c);
    assert(r2.0 == moved_to(d, p3));
    let r3 = coord_at(r2.0, ff, 3, delta, o.h);
    lemma_coord(d, p3, ff, 3, 0x8, delta, o.h);
    lemma_taken(ff, 0x8, c);
    let p4 = p3 + taken(ff, 0x8, c);
    assert(r3.0 == moved_to(d, p4));
    let r4 = u8_at(r3.0, ff, 4, o.rop);
    lemma_u8(d, p4, ff, 4, 0x10, o.rop);
    lemma_taken(ff, 0x10, 1);
    let p5 = p4 + taken(ff, 0x10, 1);
    assert(r4.0 == moved_to(d, p5));
    let r5 = coord_at(r4.0, ff, 5, delta, o.x_src);
    lemma_coord(d, p5, ff, 5, 0x20, delta, o.x_src);
    lemma_taken(ff, 0x20, c);
    let p6 = p5 + taken(ff, 0x20, c);
    assert(r5.0 == moved_to(d, p6));
    let r6 = coord_at(r5.0, ff, 6, delta, o.y_src);
    lemma_coord(d, p6, ff, 6, 0x40, delta, o.y_src);
    lemma_taken(ff, 0x40, c);
    let p7 = p6 + taken(ff, 0x40, c);
    assert(r6.0 == moved_to(d, p7));
}

/// The fields of a MemBlt: one after the other in this order, each only if its
/// bit of the flags is set (the first field has the lowest bit); one that is left out
/// keeps its value.
pub proof fn law_memblt_layout(o: MemBlt, d: Reading, ff: u32, delta: bool)
    requires
        d.live(),
        d.remaining() >= 17,
    ensures
        ({
            let (e, t) = o.decoded(d, ff, delta);
            let b = d.data;
            let c = coordinate_size(delta);
            let p0 = d.pos;
            let p1 = p0 + taken(ff, 0x1, 2);
            let p2 = p1 + taken(ff, 0x2, c);
            let p3 = p2 + taken(ff, 0x4, c);
            let p4 = p3 + taken(ff, 0x8, c);
            let p5 = p4 + taken(ff, 0x10, c);
            let p6 = p5 + taken(ff, 0x20, 1);
            let p7 = p6 + taken(ff, 0x40, c);
            let p8 = p7 + taken(ff, 0x80, c);
            let p9 = p8 + taken(ff, 0x100, 2);
            &&& e == moved_to(d, p9)
            &&& is_number(t.cache_id, o.cache_id, ff, 0x1, b, p0)
            &&& is_coordinate(t.x, o.x, ff, 0x2, delta, b, p1)
            &&& is_coordinate(t.y, o.y, ff, 0x4, delta, b, p2)
            &&& is_coordinate(t.w, o.w, ff, 0x8, delta, b, p3)
            &&& is_coordinate(t.h, o.h, ff, 0x10, delta, b, p4)
            &&& is_byte(t.rop, o.rop, ff, 0x20, b, p5)
            &&& is_coordinate(t.x_src, o.x_src, ff, 0x40, delta, b, p6)
            &&& is_coordinate(t.y_src, o.y_src, ff, 0x80, delta, b, p7)
            &&& is_number(t.cache_index, o.cache_index, ff, 0x100, b, p8)
        }),
{
    lemma_masks();
    lemma_memblt(o, d, ff, delta);
    let c = coordinate_size(delta);
    lemma_coordinate_size(delta);
    let p0 = d.pos;
    assert(moved_to(d, p0) == d);
    let r0 = u16_at(d, ff, 0, o.cache_id);
    lemma_u16(d, p0, ff, 0, 0x1, o.cache_id);
    lemma_taken(ff, 0x1, 2);
    let p1 = p0 + taken(ff, 0x1, 2);
    assert(r0.0 == moved_to(d, p1));
    let r1 = coord_at(r0.0, ff, 1, delta, o.x);
    lemma_coord(d, p1, ff, 1, 0x2, delta, o.x);
    lemma_taken(ff, 0x2, c);
    let p2 = p1 + taken(ff, 0x2, c);
    assert(r1.0 == moved_to(d, p2));
    let r2 = coord_at(r1.0, ff, 2, delta, o.y);
    lemma_coord(d, p2, ff, 2, 0x4, delta, o.y);
    lemma_taken(ff, 0x4, c);
    let p3 = p2 + taken(ff, 0x4, c);
    assert(r2.0 == moved_to(d, p3));
    let r3 = coord_at(r2.0, ff, 3, delta, o.w);
    lemma_coord(d, p3, ff, 3, 0x8, delta, o.w);
    lemma_taken(ff, 0x8, c);
    let p4 = p3 + taken(ff, 0x8, c);
    assert(r3.0 == moved_to(d, p4));
    let r4 = coord_at(r3.0, ff, 4, delta, o.h);
    lemma_coord(d, p4, ff, 4, 0x10, delta, o.h);
    lemma_taken(ff, 0x10, c);
    let p5 = p4 + taken(ff, 0x10, c);
    assert(r4.0 == moved_to(d, p5));
    let r5 = u8_at(r4.0, ff, 5, o.rop);
    lemma_u8(d, p5, ff, 5, 0x20, o.rop);
    lemma_taken(ff, 0x20, 1);
    let p6 = p5 + taken(ff, 0x20, 1);
    assert(r5.0 == moved_to(d, p6));
    let r6 = coord_at(r5.0, ff, 6, delta, o.x_src);
    lemma_coord(d, p6, ff, 6, 0x40, delta, o.x_src);
    lemma_taken(ff, 0x40, c);
    let p7 = p6 + taken(ff, 0x40, c);
    assert(r6.0 == moved_to(d, p7));
    let r7 = coord_at(r6.0, ff, 7, delta, o.y_src);
    lemma_coord(d, p7, ff, 7, 0x80, delta, o.y_src);
    lemma_taken(ff, 0x80, c);
    let p8 = p7 + taken(ff, 0x80, c);
    assert(r7.0 == moved_to(d, p8));
    let r8 = u16_at(r7.0, ff, 8, o.cache_index);
    lemma_u16(d, p8, ff, 8, 0x100, o.cache_index);
    lemma_taken(ff, 0x100, 2);
    let p9 = p8 + taken(ff, 0x100, 2);
    assert(r8.0 == moved_to(d, p9));
}

/// The fields of a PatBlt, the brush pattern of seven bytes at the end: one after the other in this order, each only if its
/// bit of the flags is set (the first field has the lowest bit); one that is left out
/// keeps its value.
pub proof fn law_patblt_layout(o: PatBlt, d: Reading, ff: u32, delta: bool)
    requires
        d.live(),
        d.remaining() >= 26,
    ensures
        ({
            let (e, t) = o.decoded(d, ff, delta);
            let b = d.data;
            let c = coordinate_size(delta);
            let p0 = d.pos;
            let p1 = p0 + taken(ff, 0x1, c);
            let p2 = p1 + taken(ff, 0x2, c);
            let p3 = p2 + taken(ff, 0x4, c);
            let p4 = p3 + taken(ff, 0x8, c);
            let p5 = p4 + taken(ff, 0x10, 1);
            let p6 = p5 + taken(ff, 0x20, 3);
            let p7 = p6 + taken(ff, 0x40, 3);
            let p8 = p7 + taken(ff, 0x80, 1);
            let p9 = p8 + taken(ff, 0x100, 1);
            let p10 = p9 + taken(ff, 0x200, 1);
            let p11 = p10 + taken(ff, 0x400, 1);
            let p12 = p11 + taken(ff, 0x800, 7);
            &&& e == moved_to(d, p12)
            &&& is_coordinate(t.x, o.x, ff, 0x1, delta, b, p0)
            &&& is_coordinate(t.y, o.y, ff, 0x2, delta, b, p1)
            &&& is_coordinate(t.w, o.w, ff, 0x4, delta, b, p2)
            &&& is_coordinate(t.h, o.h, ff, 0x8, delta, b, p3)
            &&& is_byte(t.rop, o.rop, ff, 0x10, b, p4)
            &&& is_color(t.back_color, o.back_color, ff, 0x20, b, p5)
            &&& is_color(t.fore_color, o.fore_color, ff, 0x40, b, p6)
            &&& is_signed_byte(t.brush_org_x, o.brush_org_x, ff, 0x80, b, p7)
            &&& is_signed_byte(t.brush_org_y, o.brush_org_y, ff, 0x100, b, p8)
            &&& is_byte(t.brush_style, o.brush_style, ff, 0x200, b, p9)
            &&& is_byte(t.brush_hatch, o.brush_hatch, ff, 0x400, b, p10)
        }),
{
    lemma_masks();
    lemma_patblt(o, d, ff, delta);
    let c = coordinate_size(delta);
    lemma_coordinate_size(delta);
    let p0 = d.pos;
    assert(moved_to(d, p0) == d);
    let r0 = coord_at(d, ff, 0, delta, o.x);
    lemma_coord(d, p0, ff, 0, 0x1, delta, o.x);
    lemma_taken(ff, 0x1, c);
    let p1 = p0 + taken(ff, 0x1, c);
    assert(r0.0 == moved_to(d, p1));
    let r1 = coord_at(r0.0, ff, 1, delta, o.y);
    lemma_coord(d, p1, ff, 1, 0x2, delta, o.y);
    lemma_taken(ff, 0x2, c);
    let p2 = p1 + taken(ff, 0x2, c);
    assert(r1.0 == moved_to(d, p2));
    let r2 = coord_at(r1.0, ff, 2, delta, o.w);
    lemma_coord(d, p2, ff, 2, 0x4, delta, o.w);
    lemma_taken(ff, 0x4, c);
    let p3 = p2 + taken(ff, 0x4, c);
    assert(r2.0 == moved_to(d, p3));
    let r3 = coord_at(r2.0, ff, 3, delta, o.h);
    lemma_coord(d, p3, ff, 3, 0x8, delta, o.h);
    lemma_taken(ff, 0x8, c);
    let p4 = p3 + taken(ff, 0x8, c);
    assert(r3.0 == moved_to(d, p4));
    let r4 = u8_at(r3.0, ff, 4, o.rop);
    lemma_u8(d, p4, ff, 4, 0x10, o.rop);
    lemma_taken(ff, 0x10, 1);
    let p5 = p4 + taken(ff, 0x10, 1);
    assert(r4.0 == moved_to(d, p5));
    let r5 = color_at(r4.0, ff, 5, o.back_color);
    lemma_color(d, p5, ff, 5, 0x20, o.back_color);
    lemma_taken(ff, 0x20, 3);
    let p6 = p5 + taken(ff, 0x20, 3);
    assert(r5.0 == moved_to(d, p6));
    let r6 = color_at(r5.0, ff, 6, o.fore_color);
    lemma_color(d, p6, ff, 6, 0x40, o.fore_color);
    lemma_taken(ff, 0x40, 3);
    let p7 = p6 + taken(ff, 0x40, 3);
    assert(r6.0 == moved_to(d, p7));
    let r7 = i8_at(r6.0, ff, 7, o.brush_org_x);
    lemma_i8(d, p7, ff, 7, 0x80, o.brush_org_x);
    lemma_taken(ff, 0x80, 1);
    let p8 = p7 + taken(ff, 0x80, 1);
    assert(r7.0 == moved_to(d, p8));
    let r8 = i8_at(r7.0, ff, 8, o.brush_org_y);
    lemma_i8(d, p8, ff, 8, 0x100, o.brush_org_y);
    lemma_taken(ff, 0x100, 1);
    let p9 = p8 + taken(ff, 0x100, 1);
    assert(r8.0 == moved_to(d, p9));
    let r9 = u8_at(r8.0, ff, 9, o.brush_style);
    lemma_u8(d, p9, ff, 9, 0x200, o.brush_style);
    lemma_taken(ff, 0x200, 1);
    let p10 = p9 + taken(ff, 0x200, 1);
    assert(r9.0 == moved_to(d, p10));
    let r10 = u8_at(r9.0, ff, 10, o.brush_hatch);
    lemma_u8(d, p10, ff, 10, 0x400, o.brush_hatch);
    lemma_taken(ff, 0x400, 1);
    let p11 = p10 + taken(ff, 0x400, 1);
    assert(r10.0 == moved_to(d, p11));
    let r11 = pattern_at(r10.0, ff, 11);
    lemma_pattern(d, p11, ff, 11, 0x800);
    lemma_taken(ff, 0x800, 7);
    let p12 = p11 + taken(ff, 0x800, 7);
    assert(r11 == moved_to(d, p12));
}

/// The fields of a LineTo: one after the other in this order, each only if its
/// bit of the flags is set (the first field has the lowest bit); one that is left out
/// keeps its value.
pub proof fn law_lineto_layout(o: LineTo, d: Reading, ff: u32, delta: bool)
    requires
        d.live(),
        d.remaining() >= 19,
    ensures
        ({
            let (e, t) = o.decoded(d, ff, delta);
            let b = d.data;
            let c = coordinate_size(delta);
            let p0 = d.pos;
            let p1 = p0 + taken(ff, 0x1, 2);
            let p2 = p1 + taken(ff, 0x2, c);
            let p3 = p2 + taken(ff, 0x4, c);
            let p4 = p3 + taken(ff, 0x8, c);
            let p5 = p4 + taken(ff, 0x10, c);
            let p6 = p5 + taken(ff, 0x20, 3);
            let p7 = p6 + taken(ff, 0x40, 1);
            let p8 = p7 + taken(ff, 0x80, 1);
            let p9 = p8 + taken(ff, 0x100, 1);
            let p10 = p9 + taken(ff, 0x200, 3);
            &&& e == moved_to(d, p10)
            &&& is_number(t.back_mode, o.back_mode, ff, 0x1, b, p0)
            &&& is_coordinate(t.x_start, o.x_start, ff, 0x2, delta, b, p1)
            &&& is_coordinate(t.y_start, o.y_start, ff, 0x4, delta, b, p2)
            &&& is_coordinate(t.x_end, o.x_end, ff, 0x8, delta, b, p3)
            &&& is_coordinate(t.y_end, o.y_end, ff, 0x10, delta, b, p4)
            &&& is_color(t.back_color, o.back_color, ff, 0x20, b, p5)
            &&& is_byte(t.rop2, o.rop2, ff, 0x40, b, p6)
            &&& is_byte(t.pen_style, o.pen_style, ff, 0x80, b, p7)
            &&& is_byte(t.pen_width, o.pen_width, ff, 0x100, b, p8)
            &&& is_color(t.pen_color, o.pen_color, ff, 0x200, b, p9)
        }),
{
    lemma_masks();
    lemma_lineto(o, d, ff, delta);
    let c = coordinate_size(delta);
    lemma_coordinate_size(delta);
    let p0 = d.pos;
    assert(moved_to(d, p0) == d);
    let r0 = u16_at(d, ff, 0, o.back_mode);
    lemma_u16(d, p0, ff, 0, 0x1, o.back_mode);
    lemma_taken(ff, 0x1, 2);
    let p1 = p0 + taken(ff, 0x1, 2);
    assert(r0.0 == moved_to(d, p1));
    let r1 = coord_at(r0.0, ff, 1, delta, o.x_start);
    lemma_coord(d, p1, ff, 1, 0x2, delta, o.x_start);
    lemma_taken(ff, 0x2, c);
    let p2 = p1 + taken(ff, 0x2, c);
    assert(r1.0 == moved_to(d, p2));
    let r2 = coord_at(r1.0, ff, 2, delta, o.y_start);
    lemma_coord(d, p2, ff, 2, 0x4, delta, o.y_start);
    lemma_taken(ff, 0x4, c);
    let p3 = p2 + taken(ff, 0x4, c);
    assert(r2.0 == moved_to(d, p3));
    let r3 = coord_at(r2.0, ff, 3, delta, o.x_end);
    lemma_coord(d, p3, ff, 3, 0x8, delta, o.x_end);
    lemma_taken(ff, 0x8, c);
    let p4 = p3 + taken(ff, 0x8, c);
    assert(r3.0 == moved_to(d, p4));
    let r4 = coord_at(r3.0, ff, 4, delta, o.y_end);
    lemma_coord(d, p4, ff, 4, 0x10, delta, o.y_end);
    lemma_taken(ff, 0x10, c);
    let p5 = p4 + taken(ff, 0x10, c);
    assert(r4.0 == moved_to(d, p5));
    let r5 = color_at(r4.0, ff, 5, o.back_color);
    lemma_color(d, p5, ff, 5, 0x20, o.back_color);
    lemma_taken(ff, 0x20, 3);
    let p6 = p5 + taken(ff, 0x20, 3);
    assert(r5.0 == moved_to(d, p6));
    let r6 = u8_at(r5.0, ff, 6, o.rop2);
    lemma_u8(d, p6, ff, 6, 0x40, o.rop2);
    lemma_taken(ff, 0x40, 1);
    let p7 = p6 + taken(ff, 0x40, 1);
    assert(r6.0 == moved_to(d, p7));
    let r7 = u8_at(r6.0, ff, 7, o.pen_style);
    lemma_u8(d, p7, ff, 7, 0x80, o.pen_style);
    lemma_taken(ff, 0x80, 1);
    let p8 = p7 + taken(ff, 0x80, 1);
    assert(r7.0 == moved_to(d, p8));
    let r8 = u8_at(r7.0, ff, 8, o.pen_width);
    lemma_u8(d, p8, ff, 8, 0x100, o.pen_width);
    lemma_taken(ff, 0x100, 1);
    let p9 = p8 + taken(ff, 0x100, 1);
    assert(r8.0 == moved_to(d, p9));
    let r9 = color_at(r8.0, ff, 9, o.pen_color);
    lemma_color(d, p9, ff, 9, 0x200, o.pen_color);
    lemma_taken(ff, 0x200, 3);
    let p10 = p9 + taken(ff, 0x200, 3);
    assert(r9.0 == moved_to(d, p10));
}

/// The fields of an OpaqueRect: the box, then red, green and blue, each with a bit of
/// its own. The color is opaque.
pub proof fn law_opaque_rect_layout(o: OpaqueRect, d: Reading, ff: u32, delta: bool)
    requires
        d.live(),
        d.remaining() >= 11,
    ensures
        ({
            let (e, t) = o.decoded(d, ff, delta);
            let b = d.data;
            let c = coordinate_size(delta);
            let p0 = d.pos;
            let p1 = p0 + taken(ff, 0x1, c);
            let p2 = p1 + taken(ff, 0x2, c);
            let p3 = p2 + taken(ff, 0x4, c);
            let p4 = p3 + taken(ff, 0x8, c);
            let p5 = p4 + taken(ff, 0x10, 1);
            let p6 = p5 + taken(ff, 0x20, 1);
            let p7 = p6 + taken(ff, 0x40, 1);
            &&& e == moved_to(d, p7)
            &&& is_coordinate(t.x, o.x, ff, 0x1, delta, b, p0)
            &&& is_coordinate(t.y, o.y, ff, 0x2, delta, b, p1)
            &&& is_coordinate(t.w, o.w, ff, 0x4, delta, b, p2)
            &&& is_coordinate(t.h, o.h, ff, 0x8, delta, b, p3)
            &&& is_byte(t.color[0], o.color[0], ff, 0x10, b, p4)
            &&& is_byte(t.color[1], o.color[1], ff, 0x20, b, p5)
            &&& is_byte(t.color[2], o.color[2], ff, 0x40, b, p6)
            &&& t.color[3] == 0xff
        }),
{
    lemma_masks();
    let c = coordinate_size(delta);
    lemma_coordinate_size(delta);
    assert(o.decoded(d, ff, delta) == ({
        let (d1, x) = coord_at(d, ff, 0, delta, o.x);
        let (d2, y) = coord_at(d1, ff, 1, delta, o.y);
        let (d3, w) = coord_at(d2, ff, 2, delta, o.w);
        let (d4, h) = coord_at(d3, ff, 3, delta, o.h);
        let (d5, color) = d4.color_bytes(ff, o.color);
        (d5, OpaqueRect { x, y, w, h, color })
    })) by {
        reveal(OpaqueRect::decoded);
        reveal(coord_at);
    }
    let p0 = d.pos;
    assert(moved_to(d, p0) == d);
    lemma_coord(d, p0, ff, 0, 0x1, delta, o.x);
    let p1 = p0 + taken(ff, 0x1, c);
    lemma_taken(ff, 0x1, c);
    lemma_coord(d, p1, ff, 1, 0x2, delta, o.y);
    let p2 = p1 + taken(ff, 0x2, c);
    lemma_taken(ff, 0x2, c);
    lemma_coord(d, p2, ff, 2, 0x4, delta, o.w);
    let p3 = p2 + taken(ff, 0x4, c);
    lemma_taken(ff, 0x4, c);
    lemma_coord(d, p3, ff, 3, 0x8, delta, o.h);
    let p4 = p3 + taken(ff, 0x8, c);
    lemma_taken(ff, 0x8, c);
    lemma_color_bytes(d, p4, ff, o.color);
}

proof fn lemma_color_bytes(d: Reading, pos: int, ff: u32, old: [u8; 4])
    requires
        d.live(),
        d.pos <= pos,
        pos + 3 <= d.data.len(),
    ensures
        ({
            let (e, v) = moved_to(d, pos).color_bytes(ff, old);
            let p1 = pos + taken(ff, 0x10, 1);
            let p2 = p1 + taken(ff, 0x20, 1);
            &&& e == moved_to(d, p2 + taken(ff, 0x40, 1))
            &&& is_byte(v[0], old[0], ff, 0x10, d.data, pos)
            &&& is_byte(v[1], old[1], ff, 0x20, d.data, p1)
            &&& is_byte(v[2], old[2], ff, 0x40, d.data, p2)
            &&& v[3] == 0xff
        }),
{
    lemma_masks();
    reveal(taken);
    reveal(is_byte);
}

/// The fields of a GlyphIndex, the counted glyph bytes last.
pub proof fn law_glyph_index_layout(o: GlyphIndexView, d: Reading, ff: u32, delta: bool)
    requires
        d.live(),
        d.remaining() >= 42,
    ensures
        ({
            let (e, t) = o.decoded(d, ff, delta);
            let b = d.data;
            let c = coordinate_size(delta);
            let p0 = d.pos;
            let p1 = p0 + taken(ff, 0x1, 1);
            let p2 = p1 + taken(ff, 0x2, 1);
            let p3 = p2 + taken(ff, 0x4, 1);
            let p4 = p3 + taken(ff, 0x8, 1);
            let p5 = p4 + taken(ff, 0x10, 3);
            let p6 = p5 + taken(ff, 0x20, 3);
            let p7 = p6 + taken(ff, 0x40, c);
            let p8 = p7 + taken(ff, 0x80, c);
            let p9 = p8 + taken(ff, 0x100, c);
            let p10 = p9 + taken(ff, 0x200, c);
            let p11 = p10 + taken(ff, 0x400, c);
            let p12 = p11 + taken(ff, 0x800, c);
            let p13 = p12 + taken(ff, 0x1000, c);
            let p14 = p13 + taken(ff, 0x2000, c);
            let p15 = p14 + taken(ff, 0x4000, 1);
            let p16 = p15 + taken(ff, 0x8000, 1);
            let p17 = p16 + taken(ff, 0x10000, 1);
            let p18 = p17 + taken(ff, 0x20000, 1);
            let p19 = p18 + taken(ff, 0x40000, 7);
            let p20 = p19 + taken(ff, 0x80000, c);
            let p21 = p20 + taken(ff, 0x100000, c);
            let p22 = p21 + taken(ff, 0x200000, counted_size(b, p21));
            &&& e == moved_to(d, p22)
            &&& is_byte(t.cache_id, o.cache_id, ff, 0x1, b, p0)
            &&& is_byte(t.fl_accel, o.fl_accel, ff, 0x2, b, p1)
            &&& is_byte(t.ul_char_inc, o.ul_char_inc, ff, 0x4, b, p2)
            &&& is_byte(t.fop_redundant, o.fop_redundant, ff, 0x8, b, p3)
            &&& is_color(t.back_color, o.back_color, ff, 0x10, b, p4)
            &&& is_color(t.fore_color, o.fore_color, ff, 0x20, b, p5)
            &&& is_coordinate(t.bk[0], o.bk[0], ff, 0x40, delta, b, p6)
            &&& is_coordinate(t.bk[1], o.bk[1], ff, 0x80, delta, b, p7)
            &&& is_coordinate(t.bk[2], o.bk[2], ff, 0x100, delta, b, p8)
            &&& is_coordinate(t.bk[3], o.bk[3], ff, 0x200, delta, b, p9)
            &&& is_coordinate(t.op[0], o.op[0], ff, 0x400, delta, b, p10)
            &&& is_coordinate(t.op[1], o.op[1], ff, 0x800, delta, b, p11)
            &&& is_coordinate(t.op[2], o.op[2], ff, 0x1000, delta, b, p12)
            &&& is_coordinate(t.op[3], o.op[3], ff, 0x2000, delta, b, p13)
            &&& is_byte(t.brush_org_x, o.brush_org_x, ff, 0x4000, b, p14)
            &&& is_byte(t.brush_org_y, o.brush_org_y, ff, 0x8000, b, p15)
            &&& is_byte(t.brush_style, o.brush_style, ff, 0x10000, b, p16)
            &&& is_byte(t.brush_hatch, o.brush_hatch, ff, 0x20000, b, p17)
            &&& is_coordinate(t.x, o.x, ff, 0x80000, delta, b, p19)
            &&& is_coordinate(t.y, o.y, ff, 0x100000, delta, b, p20)
            &&& is_counted(t.data, o.data, ff, 0x200000, b, p21)
        }),
{
    lemma_masks();
    lemma_glyphindexview(o, d, ff, delta);
    let c = coordinate_size(delta);
    lemma_coordinate_size(delta);
    let p0 = d.pos;
    assert(moved_to(d, p0) == d);
    let r0 = u8_at(d, ff, 0, o.cache_id);
    lemma_u8(d, p0, ff, 0, 0x1, o.cache_id);
    lemma_taken(ff, 0x1, 1);
    let p1 = p0 + taken(ff, 0x1, 1);
    assert(r0.0 == moved_to(d, p1));
    let r1 = u8_at(r0.0, ff, 1, o.fl_accel);
    lemma_u8(d, p1, ff, 1, 0x2, o.fl_accel);
    lemma_taken(ff, 0x2, 1);
    let p2 = p1 + taken(ff, 0x2, 1);
    assert(r1.0 == moved_to(d, p2));
    let r2 = u8_at(r1.0, ff, 2, o.ul_char_inc);
    lemma_u8(d, p2, ff, 2, 0x4, o.ul_char_inc);
    lemma_taken(ff, 0x4, 1);
    let p3 = p2 + taken(ff, 0x4, 1);
    assert(r2.0 == moved_to(d, p3));
    let r3 = u8_at(r2.0, ff, 3, o.fop_redundant);
    lemma_u8(d, p3, ff, 3, 0x8, o.fop_redundant);
    lemma_taken(ff, 0x8, 1);
    let p4 = p3 + taken(ff, 0x8, 1);
    assert(r3.0 == moved_to(d, p4));
    let r4 = color_at(r3.0, ff, 4, o.back_color);
    lemma_color(d, p4, ff, 4, 0x10, o.back_color);
    lemma_taken(ff, 0x10, 3);
    let p5 = p4 + taken(ff, 0x10, 3);
    assert(r4.0 == moved_to(d, p5));
    let r5 = color_at(r4.0, ff, 5, o.fore_color);
    lemma_color(d, p5, ff, 5, 0x20, o.fore_color);
    lemma_taken(ff, 0x20, 3);
    let p6 = p5 + taken(ff, 0x20, 3);
    assert(r5.0 == moved_to(d, p6));
    let r6 = r5.0.coords4(ff, 6, delta, o.bk);
    lemma_coords4(d, p6, ff, 6, (0x40, 0x80, 0x100, 0x200), delta, o.bk);
    lemma_taken(ff, 0x40, c);
    let p7 = p6 + taken(ff, 0x40, c);
    lemma_taken(ff, 0x80, c);
    let p8 = p7 + taken(ff, 0x80, c);
    lemma_taken(ff, 0x100, c);
    let p9 = p8 + taken(ff, 0x100, c);
    lemma_taken(ff, 0x200, c);
    let p10 = p9 + taken(ff, 0x200, c);
    assert(r6.0 == moved_to(d, p10));
    let r7 = r6.0.coords4(ff, 10, delta, o.op);
    lemma_coords4(d, p10, ff, 10, (0x400, 0x800, 0x1000, 0x2000), delta, o.op);
    lemma_taken(ff, 0x400, c);
    let p11 = p10 + taken(ff, 0x400, c);
    lemma_taken(ff, 0x800, c);
    let p12 = p11 + taken(ff, 0x800, c);
    lemma_taken(ff, 0x1000, c);
    let p13 = p12 + taken(ff, 0x1000, c);
    lemma_taken(ff, 0x2000, c);
    let p14 = p13 + taken(ff, 0x2000, c);
    assert(r7.0 == moved_to(d, p14));
    let r8 = u8_at(r7.0, ff, 14, o.brush_org_x);
    lemma_u8(d, p14, ff, 14, 0x4000, o.brush_org_x);
    lemma_taken(ff, 0x4000, 1);
    let p15 = p14 + taken(ff, 0x4000, 1);
    assert(r8.0 == moved_to(d, p15));
    let r9 = u8_at(r8.0, ff, 15, o.brush_org_y);
    lemma_u8(d, p15, ff, 15, 0x8000, o.brush_org_y);
    lemma_taken(ff, 0x8000, 1);
    let p16 = p15 + taken(ff, 0x8000, 1);
    assert(r9.0 == moved_to(d, p16));
    let r10 = u8_at(r9.0, ff, 16, o.brush_style);
    lemma_u8(d, p16, ff, 16, 0x10000, o.brush_style);
    lemma_taken(ff, 0x10000, 1);
    let p17 = p16 + taken(ff, 0x10000, 1);
    assert(r10.0 == moved_to(d, p17));
    let r11 = u8_at(r10.0, ff, 17, o.brush_hatch);
    lemma_u8(d, p17, ff, 17, 0x20000, o.brush_hatch);
    lemma_taken(ff, 0x20000, 1);
    let p18 = p17 + taken(ff, 0x20000, 1);
    assert(r11.0 == moved_to(d, p18));
    let r12 = pattern_at(r11.0, ff, 18);
    lemma_pattern(d, p18, ff, 18, 0x40000);
    lemma_taken(ff, 0x40000, 7);
    let p19 = p18 + taken(ff, 0x40000, 7);
    assert(r12 == moved_to(d, p19));
    let r13 = coord_at(r12, ff, 19, delta, o.x);
    lemma_coord(d, p19, ff, 19, 0x80000, delta, o.x);
    lemma_taken(ff, 0x80000, c);
    let p20 = p19 + taken(ff, 0x80000, c);
    assert(r13.0 == moved_to(d, p20));
    let r14 = coord_at(r13.0, ff, 20, delta, o.y);
    lemma_coord(d, p20, ff, 20, 0x100000, delta, o.y);
    lemma_taken(ff, 0x100000, c);
    let p21 = p20 + taken(ff, 0x100000, c);
    assert(r14.0 == moved_to(d, p21));
    let r15 = counted_at(r14.0, ff, 21, o.data);
    lemma_counted(d, p21, ff, 21, 0x200000, o.data);
    let p22 = p21 + taken(ff, 0x200000, counted_size(d.data, p21));
    assert(r15.0 == moved_to(d, p22));
}

/// The fields of a FastIndex and of a FastGlyph. One bit stands for the advance and the
/// acceleration flags together.
pub proof fn law_fast_text_layout(o: FastTextView, d: Reading, ff: u32, delta: bool)
    requires
        d.live(),
        d.remaining() >= 30,
    ensures
        ({
            let (e, t) = o.decoded(d, ff, delta);
            let b = d.data;
            let c = coordinate_size(delta);
            let p0 = d.pos;
            let p1 = p0 + taken(ff, 0x1, 1);
            let p2 = p1 + taken(ff, 0x2, 1);
            let p3 = p2 + taken(ff, 0x2, 1);
            let p4 = p3 + taken(ff, 0x4, 3);
            let p5 = p4 + taken(ff, 0x8, 3);
            let p6 = p5 + taken(ff, 0x10, c);
            let p7 = p6 + taken(ff, 0x20, c);
            let p8 = p7 + taken(ff, 0x40, c);
            let p9 = p8 + taken(ff, 0x80, c);
            let p10 = p9 + taken(ff, 0x100, c);
            let p11 = p10 + taken(ff, 0x200, c);
            let p12 = p11 + taken(ff, 0x400, c);
            let p13 = p12 + taken(ff, 0x800, c);
            let p14 = p13 + taken(ff, 0x1000, c);
            let p15 = p14 + taken(ff, 0x2000, c);
            let p16 = p15 + taken(ff, 0x4000, counted_size(b, p15));
            &&& e == moved_to(d, p16)
            &&& is_byte(t.cache_id, o.cache_id, ff, 0x1, b, p0)
            &&& is_byte(t.ul_char_inc, o.ul_char_inc, ff, 0x2, b, p1)
            &&& is_byte(t.fl_accel, o.fl_accel, ff, 0x2, b, p2)
            &&& is_color(t.back_color, o.back_color, ff, 0x4, b, p3)
            &&& is_color(t.fore_color, o.fore_color, ff, 0x8, b, p4)
            &&& is_coordinate(t.bk[0], o.bk[0], ff, 0x10, delta, b, p5)
            &&& is_coordinate(t.bk[1], o.bk[1], ff, 0x20, delta, b, p6)
            &&& is_coordinate(t.bk[2], o.bk[2], ff, 0x40, delta, b, p7)
            &&& is_coordinate(t.bk[3], o.bk[3], ff, 0x80, delta, b, p8)
            &&& is_coordinate(t.op[0], o.op[0], ff, 0x100, delta, b, p9)
            &&& is_coordinate(t.op[1], o.op[1], ff, 0x200, delta, b, p10)
            &&& is_coordinate(t.op[2], o.op[2], ff, 0x400, delta, b, p11)
            &&& is_coordinate(t.op[3], o.op[3], ff, 0x800, delta, b, p12)
            &&& is_coordinate(t.x, o.x, ff, 0x1000, delta, b, p13)
            &&& is_coordinate(t.y, o.y, ff, 0x2000, delta, b, p14)
            &&& is_counted(t.data, o.data, ff, 0x4000, b, p15)
        }),
{
    lemma_masks();
    lemma_fasttextview(o, d, ff, delta);
    let c = coordinate_size(delta);
    lemma_coordinate_size(delta);
    let p0 = d.pos;
    assert(moved_to(d, p0) == d);
    let r0 = u8_at(d, ff, 0, o.cache_id);
    lemma_u8(d, p0, ff, 0, 0x1, o.cache_id);
    lemma_taken(ff, 0x1, 1);
    let p1 = p0 + taken(ff, 0x1, 1);
    assert(r0.0 == moved_to(d, p1));
    let r1 = u8_at(r0.0, ff, 1, o.ul_char_inc);
    lemma_u8(d, p1, ff, 1, 0x2, o.ul_char_inc);
    lemma_taken(ff, 0x2, 1);
    let p2 = p1 + taken(ff, 0x2, 1);
    assert(r1.0 == moved_to(d, p2));
    let r2 = u8_at(r1.0, ff, 1, o.fl_accel);
    lemma_u8(d, p2, ff, 1, 0x2, o.fl_accel);
    lemma_taken(ff, 0x2, 1);
    let p3 = p2 + taken(ff, 0x2, 1);
    assert(r2.0 == moved_to(d, p3));
    let r3 = color_at(r2.0, ff, 2, o.back_color);
    lemma_color(d, p3, ff, 2, 0x4, o.back_color);
    lemma_taken(ff, 0x4, 3);
    let p4 = p3 + taken(ff, 0x4, 3);
    assert(r3.0 == moved_to(d, p4));
    let r4 = color_at(r3.0, ff, 3, o.fore_color);
    lemma_color(d, p4, ff, 3, 0x8, o.fore_color);
    lemma_taken(ff, 0x8, 3);
    let p5 = p4 + taken(ff, 0x8, 3);
    assert(r4.0 == moved_to(d, p5));
    let r5 = r4.0.coords4(ff, 4, delta, o.bk);
    lemma_coords4(d, p5, ff, 4, (0x10, 0x20, 0x40, 0x80), delta, o.bk);
    lemma_taken(ff, 0x10, c);
    let p6 = p5 + taken(ff, 0x10, c);
    lemma_taken(ff, 0x20, c);
    let p7 = p6 + taken(ff, 0x20, c);
    lemma_taken(ff, 0x40, c);
    let p8 = p7 + taken(ff, 0x40, c);
    lemma_taken(ff, 0x80, c);
    let p9 = p8 + taken(ff, 0x80, c);
    assert(r5.0 == moved_to(d, p9));
    let r6 = r5.0.coords4(ff, 8, delta, o.op);
    lemma_coords4(d, p9, ff, 8, (0x100, 0x200, 0x400, 0x800), delta, o.op);
    lemma_taken(ff, 0x100, c);
    let p10 = p9 + taken(ff, 0x100, c);
    lemma_taken(ff, 0x200, c);
    let p11 = p10 + taken(ff, 0x200, c);
    lemma_taken(ff, 0x400, c);
    let p12 = p11 + taken(ff, 0x400, c);
    lemma_taken(ff, 0x800, c);
    let p13 = p12 + taken(ff, 0x800, c);
    assert(r6.0 == moved_to(d, p13));
    let r7 = coord_at(r6.0, ff, 12, delta, o.x);
    lemma_coord(d, p13, ff, 12, 0x1000, delta, o.x);
    lemma_taken(ff, 0x1000, c);
    let p14 = p13 + taken(ff, 0x1000, c);
    assert(r7.0 == moved_to(d, p14));
    let r8 = coord_at(r7.0, ff, 13, delta, o.y);
    lemma_coord(d, p14, ff, 13, 0x2000, delta, o.y);
    lemma_taken(ff, 0x2000, c);
    let p15 = p14 + taken(ff, 0x2000, c);
    assert(r8.0 == moved_to(d, p15));
    let r9 = counted_at(r8.0, ff, 14, o.data);
    lemma_counted(d, p15, ff, 14, 0x4000, o.data);
    let p16 = p15 + taken(ff, 0x4000, counted_size(d.data, p15));
    assert(r9.0 == moved_to(d, p16));
}

proof fn lemma_dstblt(o: DstBlt, d: Reading, ff: u32, delta: bool)
    ensures
        ({
            let r0 = coord_at(d, ff, 0, delta, o.x);
            let r1 = coord_at(r0.0, ff, 1, delta, o.y);
            let r2 = coord_at(r1.0, ff, 2, delta, o.w);
            let r3 = coord_at(r2.0, ff, 3, delta, o.h);
            let r4 = u8_at(r3.0, ff, 4, o.rop);
            o.decoded(d, ff, delta) == (r4.0, DstBlt { x: r0.1, y: r1.1, w: r2.1, h: r3.1, rop: r4.1 })
        }),
{
    reveal(DstBlt::decoded);
    reveal(coord_at);
    reveal(u8_at);
    reveal(u16_at);
    reveal(i8_at);
    reveal(color_at);
    reveal(pattern_at);
    reveal(counted_at);
}

proof fn lemma_scrblt(o: ScrBlt, d: Reading, ff: u32, delta: bool)
    ensures
        ({
            let r0 = coord_at(d, ff, 0, delta, o.x);
            let r1 = coord_at(r0.0, ff, 1, delta, o.y);
            let r2 = coord_at(r1.0, ff, 2, delta, o.w);
            let r3 = coord_at(r2.0, ff, 3, delta, o.h);
            let r4 = u8_at(r3.0, ff, 4, o.rop);
            let r5 = coord_at(r4.0, ff, 5, delta, o.x_src);
            let r6 = coord_at(r5.0, ff, 6, delta, o.y_src);
            o.decoded(d, ff, delta) == (r6.0, ScrBlt { x: r0.1, y: r1.1, w: r2.1, h: r3.1, rop: r4.1, x_src: r5.1, y_src: r6.1 })
        }),
{
    reveal(ScrBlt::decoded);
    reveal(coord_at);
    reveal(u8_at);
    reveal(u16_at);
    reveal(i8_at);
    reveal(color_at);
    reveal(pattern_at);
    reveal(counted_at);
}

proof fn lemma_memblt(o: MemBlt, d: Reading, ff: u32, delta: bool)
    ensures
        ({
            let r0 = u16_at(d, ff, 0, o.cache_id);
            let r1 = coord_at(r0.0, ff, 1, delta, o.x);
            let r2 = coord_at(r1.0, ff, 2, delta, o.y);
            let r3 = coord_at(r2.0, ff, 3, delta, o.w);
            let r4 = coord_at(r3.0, ff, 4, delta, o.h);
            let r5 = u8_at(r4.0, ff, 5, o.rop);
            let r6 = coord_at(r5.0, ff, 6, delta, o.x_src);
            let r7 = coord_at(r6.0, ff, 7, delta, o.y_src);
            let r8 = u16_at(r7.0, ff, 8, o.cache_index);
            o.decoded(d, ff, delta) == (r8.0, MemBlt { cache_id: r0.1, x: r1.1, y: r2.1, w: r3.1, h: r4.1, rop: r5.1, x_src: r6.1, y_src: r7.1, cache_index: r8.1 })
        }),
{
    reveal(MemBlt::decoded);
    reveal(coord_at);
    reveal(u8_at);
    reveal(u16_at);
    reveal(i8_at);
    reveal(color_at);
    reveal(pattern_at);
    reveal(counted_at);
}

proof fn lemma_patblt(o: PatBlt, d: Reading, ff: u32, delta: bool)
    ensures
        ({
            let r0 = coord_at(d, ff, 0, delta, o.x);
            let r1 = coord_at(r0.0, ff, 1, delta, o.y);
            let r2 = coord_at(r1.0, ff, 2, delta, o.w);
            let r3 = coord_at(r2.0, ff, 3, delta, o.h);
            let r4 = u8_at(r3.0, ff, 4, o.rop);
            let r5 = color_at(r4.0, ff, 5, o.back_color);
            let r6 = color_at(r5.0, ff, 6, o.fore_color);
            let r7 = i8_at(r6.0, ff, 7, o.brush_org_x);
            let r8 = i8_at(r7.0, ff, 8, o.brush_org_y);
            let r9 = u8_at(r8.0, ff, 9, o.brush_style);
            let r10 = u8_at(r9.0, ff, 10, o.brush_hatch);
            let r11 = pattern_at(r10.0, ff, 11);
            o.decoded(d, ff, delta) == (r11, PatBlt { x: r0.1, y: r1.1, w: r2.1, h: r3.1, rop: r4.1, back_color: r5.1, fore_color: r6.1, brush_org_x: r7.1, brush_org_y: r8.1, brush_style: r9.1, brush_hatch: r10.1 })
        }),
{
    reveal(PatBlt::decoded);
    reveal(coord_at);
    reveal(u8_at);
    reveal(u16_at);
    reveal(i8_at);
    reveal(color_at);
    reveal(pattern_at);
    reveal(counted_at);
}

proof fn lemma_lineto(o: LineTo, d: Reading, ff: u32, delta: bool)
    ensures
        ({
            let r0 = u16_at(d, ff, 0, o.back_mode);
            let r1 = coord_at(r0.0, ff, 1, delta, o.x_start);
            let r2 = coord_at(r1.0, ff, 2, delta, o.y_start);
            let r3 = coord_at(r2.0, ff, 3, delta, o.x_end);
            let r4 = coord_at(r3.0, ff, 4, delta, o.y_end);
            let r5 = color_at(r4.0, ff, 5, o.back_color);
            let r6 = u8_at(r5.0, ff, 6, o.rop2);
            let r7 = u8_at(r6.0, ff, 7, o.pen_style);
            let r8 = u8_at(r7.0, ff, 8, o.pen_width);
            let r9 = color_at(r8.0, ff, 9, o.pen_color);
            o.decoded(d, ff, delta) == (r9.0, LineTo { back_mode: r0.1, x_start: r1.1, y_start: r2.1, x_end: r3.1, y_end: r4.1, back_color: r5.1, rop2: r6.1, pen_style: r7.1, pen_width: r8.1, pen_color: r9.1 })
        }),
{
    reveal(LineTo::decoded);
    reveal(coord_at);
    reveal(u8_at);
    reveal(u16_at);
    reveal(i8_at);
    reveal(color_at);
    reveal(pattern_at);
    reveal(counted_at);
}

proof fn lemma_glyphindexview(o: GlyphIndexView, d: Reading, ff: u32, delta: bool)
    ensures
        ({
            let r0 = u8_at(d, ff, 0, o.cache_id);
            let r1 = u8_at(r0.0, ff, 1, o.fl_accel);
            let r2 = u8_at(r1.0, ff, 2, o.ul_char_inc);
            let r3 = u8_at(r2.0, ff, 3, o.fop_redundant);
            let r4 = color_at(r3.0, ff, 4, o.back_color);
            let r5 = color_at(r4.0, ff, 5, o.fore_color);
            let r6 = r5.0.coords4(ff, 6, delta, o.bk);
            let r7 = r6.0.coords4(ff, 10, delta, o.op);
            let r8 = u8_at(r7.0, ff, 14, o.brush_org_x);
            let r9 = u8_at(r8.0, ff, 15, o.brush_org_y);
            let r10 = u8_at(r9.0, ff, 16, o.brush_style);
            let r11 = u8_at(r10.0, ff, 17, o.brush_hatch);
            let r12 = pattern_at(r11.0, ff, 18);
            let r13 = coord_at(r12, ff, 19, delta, o.x);
            let r14 = coord_at(r13.0, ff, 20, delta, o.y);
            let r15 = counted_at(r14.0, ff, 21, o.data);
            o.decoded(d, ff, delta) == (r15.0, GlyphIndexView { cache_id: r0.1, fl_accel: r1.1, ul_char_inc: r2.1, fop_redundant: r3.1, back_color: r4.1, fore_color: r5.1, bk: r6.1, op: r7.1, brush_org_x: r8.1, brush_org_y: r9.1, brush_style: r10.1, brush_hatch: r11.1, x: r13.1, y: r14.1, data: r15.1 })
        }),
{
    reveal(GlyphIndexView::decoded);
    reveal(coord_at);
    reveal(u8_at);
    reveal(u16_at);
    reveal(i8_at);
    reveal(color_at);
    reveal(pattern_at);
    reveal(counted_at);
}

proof fn lemma_fasttextview(o: FastTextView, d: Reading, ff: u32, delta: bool)
    ensures
        ({
            let r0 = u8_at(d, ff, 0, o.cache_id);
            let r1 = u8_at(r0.0, ff, 1, o.ul_char_inc);
            let r2 = u8_at(r1.0, ff, 1, o.fl_accel);
            let r3 = color_at(r2.0, ff, 2, o.back_color);
            let r4 = color_at(r3.0, ff, 3, o.fore_color);
            let r5 = r4.0.coords4(ff, 4, delta, o.bk);
            let r6 = r5.0.coords4(ff, 8, delta, o.op);
            let r7 = coord_at(r6.0, ff, 12, delta, o.x);
            let r8 = coord_at(r7.0, ff, 13, delta, o.y);
            let r9 = counted_at(r8.0, ff, 14, o.data);
            o.decoded(d, ff, delta) == (r9.0, FastTextView { cache_id: r0.1, ul_char_inc: r1.1, fl_accel: r2.1, back_color: r3.1, fore_color: r4.1, bk: r5.1, op: r6.1, x: r7.1, y: r8.1, data: r9.1 })
        }),
{
    reveal(FastTextView::decoded);
    reveal(coord_at);
    reveal(u8_at);
    reveal(u16_at);
    reveal(i8_at);
    reveal(color_at);
    reveal(pattern_at);
    reveal(counted_at);
}

/// The bounds: a byte of flags, then left, top, right and bottom. The low half of the
/// flags has a bit for each edge that is given, the high half one for each that moves;
/// an edge with neither is kept.
pub proof fn law_bounds_layout(o: Bounds, d: Reading)
    requires
        d.live(),
        d.remaining() >= 9,
    ensures
        ({
            let (e, t) = o.updated(d);
            let b = d.data;
            let f = b[d.pos];
            let p0 = d.pos + 1;
            let p1 = p0 + edge_size(f & 0x01 != 0, f & 0x10 != 0);
            let p2 = p1 + edge_size(f & 0x02 != 0, f & 0x20 != 0);
            let p3 = p2 + edge_size(f & 0x04 != 0, f & 0x40 != 0);
            &&& e == moved_to(d, p3 + edge_size(f & 0x08 != 0, f & 0x80 != 0))
            &&& is_edge(t.left, o.left, f & 0x01 != 0, f & 0x10 != 0, b, p0)
            &&& is_edge(t.top, o.top, f & 0x02 != 0, f & 0x20 != 0, b, p1)
            &&& is_edge(t.right, o.right, f & 0x04 != 0, f & 0x40 != 0, b, p2)
            &&& is_edge(t.bottom, o.bottom, f & 0x08 != 0, f & 0x80 != 0, b, p3)
        }),
{
    let f = d.data[d.pos];
    let d0 = moved_to(d, d.pos + 1);
    lemma_edge(d0, f & 0x01 != 0, f & 0x10 != 0, o.left);
    let d1 = d0.edge(f & 0x01 != 0, f & 0x10 != 0, o.left).0;
    lemma_edge(d1, f & 0x02 != 0, f & 0x20 != 0, o.top);
    let d2 = d1.edge(f & 0x02 != 0, f & 0x20 != 0, o.top).0;
    lemma_edge(d2, f & 0x04 != 0, f & 0x40 != 0, o.right);
    let d3 = d2.edge(f & 0x04 != 0, f & 0x40 != 0, o.right).0;
    lemma_edge(d3, f & 0x08 != 0, f & 0x80 != 0, o.bottom);
}

/// How many bytes an edge takes.
pub open spec fn edge_size(given: bool, moves: bool) -> int {
    if given {
        2
    } else if moves {
        1
    } else {
        0
    }
}

/// An edge after the bounds have been read.
pub open spec fn is_edge(
    new: i32,
    old: i32,
    given: bool,
    moves: bool,
    b: Seq<u8>,
    i: int,
) -> bool {
    if given {
        new == signed16(b, i)
    } else if moves {
        i32::MIN <= old + signed8(b, i) <= i32::MAX ==> new == old + signed8(b, i)
    } else {
        new == old
    }
}

proof fn lemma_edge(d: Reading, given: bool, moves: bool, old: i32)
    requires
        d.live(),
        d.remaining() >= 2,
    ensures
        ({
            let (e, v) = d.edge(given, moves, old);
            e == moved_to(d, d.pos + edge_size(given, moves)) && is_edge(
                v,
                old,
                given,
                moves,
                d.data,
                d.pos,
            )
        }),
{
    lemma_signs(
        crate::wire::le16(d.data[d.pos], d.data[d.pos + 1]),
        d.data[d.pos],
    );
}

} // verus!
