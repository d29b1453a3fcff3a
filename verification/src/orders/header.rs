//! Primary drawing-order header machinery (MS-RDPEGDI 2.2.2.2.1.1.2): control
//! flags, the variable-length field-flags bitmask, the persistent bounds (clip)
//! rectangle, and coordinate (delta/absolute) decoding.

use crate::orders::canvas::Rect;
use crate::orders::color::colorref;
use crate::orders::cursor::{Cursor, Reading};
use crate::orders::error::OrderError;
use vstd::prelude::*;

verus! {

// Primary order control flags.
pub const TS_STANDARD: u8 = 0x01;

pub const TS_SECONDARY: u8 = 0x02;

pub const TS_BOUNDS: u8 = 0x04;

pub const TS_TYPE_CHANGE: u8 = 0x08;

pub const TS_DELTA_COORDINATES: u8 = 0x10;

pub const TS_ZERO_BOUNDS_DELTAS: u8 = 0x20;

pub const TS_ZERO_FIELD_BYTE_BIT0: u8 = 0x40;

pub const TS_ZERO_FIELD_BYTE_BIT1: u8 = 0x80;

// Order type encodings (the order type byte, present only on TS_TYPE_CHANGE).
pub const ORD_DSTBLT: u8 = 0x00;

pub const ORD_PATBLT: u8 = 0x01;

pub const ORD_SCRBLT: u8 = 0x02;

pub const ORD_DRAW_NINE_GRID: u8 = 0x07;

pub const ORD_MULTI_DRAW_NINE_GRID: u8 = 0x08;

pub const ORD_LINE_TO: u8 = 0x09;

pub const ORD_OPAQUE_RECT: u8 = 0x0A;

pub const ORD_SAVE_BITMAP: u8 = 0x0B;

pub const ORD_MEMBLT: u8 = 0x0D;

pub const ORD_MEM3BLT: u8 = 0x0E;

pub const ORD_MULTI_DSTBLT: u8 = 0x0F;

pub const ORD_MULTI_PATBLT: u8 = 0x10;

pub const ORD_MULTI_SCRBLT: u8 = 0x11;

pub const ORD_MULTI_OPAQUE_RECT: u8 = 0x12;

pub const ORD_FAST_INDEX: u8 = 0x13;

pub const ORD_POLYGON_SC: u8 = 0x14;

pub const ORD_POLYGON_CB: u8 = 0x15;

pub const ORD_POLYLINE: u8 = 0x16;

pub const ORD_FAST_GLYPH: u8 = 0x18;

pub const ORD_ELLIPSE_SC: u8 = 0x19;

pub const ORD_ELLIPSE_CB: u8 = 0x1A;

pub const ORD_GLYPH_INDEX: u8 = 0x1B;

/// Whether `flags` has every bit of the one-bit mask `mask`.
pub open spec fn flag_set(flags: u8, mask: u8) -> bool {
    flags & mask != 0
}

/// Whether the field with number `bit` is present.
pub open spec fn present(field_flags: u32, bit: u32) -> bool {
    field_flags & (1u32 << bit) != 0
}

/// The number of field-flag bytes of each order type: one, two or three for the
/// order types that exist.
pub open spec fn field_bytes_of(order_type: u8) -> Option<u8> {
    match order_type {
        0x00 | 0x02 | 0x07 | 0x0A | 0x0B | 0x12 => Some(1u8),
        0x01 | 0x08 | 0x09 | 0x0D | 0x0F | 0x10 | 0x11 | 0x14 | 0x16 | 0x18 | 0x19 => Some(2u8),
        0x0E | 0x13 | 0x15 | 0x1A | 0x1B => Some(3u8),
        _ => None,
    }
}

/// Number of field-flag bytes for each order type.
pub fn field_bytes(order_type: u8) -> (r: Option<u8>)
    ensures
        r == field_bytes_of(order_type),
{
    match order_type {
        ORD_DSTBLT => Some(1),
        ORD_PATBLT => Some(2),
        ORD_SCRBLT => Some(1),
        ORD_DRAW_NINE_GRID => Some(1),
        ORD_MULTI_DRAW_NINE_GRID => Some(2),
        ORD_LINE_TO => Some(2),
        ORD_OPAQUE_RECT => Some(1),
        ORD_SAVE_BITMAP => Some(1),
        ORD_MEMBLT => Some(2),
        ORD_MEM3BLT => Some(3),
        ORD_MULTI_DSTBLT => Some(2),
        ORD_MULTI_PATBLT => Some(2),
        ORD_MULTI_SCRBLT => Some(2),
        ORD_MULTI_OPAQUE_RECT => Some(1),
        ORD_FAST_INDEX => Some(3),
        ORD_POLYGON_SC => Some(2),
        ORD_POLYGON_CB => Some(3),
        ORD_POLYLINE => Some(2),
        ORD_FAST_GLYPH => Some(2),
        ORD_ELLIPSE_SC => Some(2),
        ORD_ELLIPSE_CB => Some(3),
        ORD_GLYPH_INDEX => Some(3),
        _ => None,
    }
}

/// How many field-flag bytes are on the wire: the two TS_ZERO_FIELD_BYTE
/// control bits drop one and two trailing (zero) bytes.
pub open spec fn wire_field_bytes(control: u8, field_bytes: u8) -> int {
    let dropped = (if flag_set(control, TS_ZERO_FIELD_BYTE_BIT0) {
        1int
    } else {
        0int
    }) + (if flag_set(control, TS_ZERO_FIELD_BYTE_BIT1) {
        2int
    } else {
        0int
    });
    if dropped < field_bytes {
        field_bytes - dropped
    } else {
        0
    }
}

impl Reading {
    /// Read `n` bytes, lowest first, into bit `8 * at` and up of `flags`.
    pub open spec fn flag_bytes(self, at: int, n: int, flags: u32) -> (Reading, u32)
        decreases n - at,
    {
        if at >= n {
            (self, flags)
        } else {
            let (d, b) = self.u8();
            d.flag_bytes(
                at + 1,
                n,
                if d.ok() {
                    flags | ((b as u32) << ((at * 8) as u32))
                } else {
                    flags
                },
            )
        }
    }

    pub open spec fn field_flags(self, control: u8, field_bytes: u8) -> (Reading, u32) {
        self.flag_bytes(0, wire_field_bytes(control, field_bytes), 0)
    }

    /// A field that is read only when its flag is present and is kept otherwise.
    pub open spec fn field<T: Field>(self, field_flags: u32, bit: u32, old: T) -> (Reading, T) {
        if present(field_flags, bit) {
            let (d, v) = T::read_from(self);
            (
                d,
                if d.ok() {
                    v
                } else {
                    old
                },
            )
        } else {
            (self, old)
        }
    }

    /// A coordinate: kept when absent, moved by a signed byte in delta mode,
    /// replaced by a signed 16-bit value otherwise.
    pub open spec fn coord(self, field_flags: u32, bit: u32, delta: bool, old: i32) -> (
        Reading,
        i32,
    ) {
        if !present(field_flags, bit) {
            (self, old)
        } else if delta {
            let (d, v) = self.i8();
            (
                d,
                if d.ok() {
                    old.wrapping_add(v as i32)
                } else {
                    old
                },
            )
        } else {
            let (d, v) = self.i16();
            (
                d,
                if d.ok() {
                    v as i32
                } else {
                    old
                },
            )
        }
    }

    /// One edge of the bounds: absolute, moved, or kept.
    pub open spec fn edge(self, absolute: bool, delta: bool, old: i32) -> (Reading, i32) {
        if absolute {
            let (d, v) = self.i16();
            (
                d,
                if d.ok() {
                    v as i32
                } else {
                    old
                },
            )
        } else if delta {
            let (d, v) = self.i8();
            (
                d,
                if d.ok() {
                    old.wrapping_add(v as i32)
                } else {
                    old
                },
            )
        } else {
            (self, old)
        }
    }
}

/// Decode the variable-length field-flags bitmask. `field_bytes` is the order
/// type's constant; the two TS_ZERO_FIELD_BYTE control bits drop trailing
/// (zero) bytes. The bitmask holds four bytes; more are not to be there.
pub fn read_field_flags(c: &mut Cursor, control: u8, field_bytes: u8) -> (r: Result<
    u32,
    OrderError,
>)
    requires
        old(c)@.live(),
        wire_field_bytes(control, field_bytes) <= 4 || old(c)@.remaining() <= 4,
    ensures
        final(c)@.live(),
        final(c)@ == (Reading { err: None, ..old(c)@.field_flags(control, field_bytes).0 }),
        r == old(c)@.field_flags(control, field_bytes).0.outcome(
            old(c)@.field_flags(control, field_bytes).1,
        ),
{
    let mut fb: u8 = field_bytes;
    if control & TS_ZERO_FIELD_BYTE_BIT0 != 0 {
        fb = fb.saturating_sub(1);
    }
    if control & TS_ZERO_FIELD_BYTE_BIT1 != 0 {
        if fb > 1 {
            fb = fb - 2;
        } else {
            fb = 0;
        }
    }
    let mut flags: u32 = 0;
    let mut i: u8 = 0;
    let ghost d0 = c@;
    while i < fb
        invariant
            i <= fb,
            fb <= 4 || i + c@.remaining() <= 4,
            fb == wire_field_bytes(control, field_bytes),
            d0 == old(c)@,
            c@.live(),
            d0.flag_bytes(0, fb as int, 0) == c@.flag_bytes(i as int, fb as int, flags),
        decreases fb - i,
    {
        let ghost d = c@;
        match c.u8() {
            Ok(b) => {
                flags = flags | ((b as u32) << ((i * 8) as u32));
                i = i + 1;
            },
            Err(e) => {
                proof {
                    lemma_flag_bytes_stuck(d.u8().0, i + 1, fb as int, flags);
                }
                return Err(e);
            },
        }
    }
    Ok(flags)
}

proof fn lemma_flag_bytes_stuck(d: Reading, at: int, n: int, flags: u32)
    requires
        !d.ok(),
    ensures
        d.flag_bytes(at, n, flags) == (d, flags),
    decreases n - at,
{
    if at < n {
        lemma_flag_bytes_stuck(d, at + 1, n, flags);
    }
}

/// A value that an order carries as a non-coordinate field.
pub trait Field: Sized {
    spec fn read_from(d: Reading) -> (Reading, Self);

    fn read(c: &mut Cursor) -> (r: Result<Self, OrderError>)
        requires
            old(c)@.live(),
        ensures
            final(c)@.live(),
            final(c)@ == (Reading { err: None, ..Self::read_from(old(c)@).0 }),
            match r {
                Ok(v) => Self::read_from(old(c)@) == (final(c)@, v),
                Err(e) => Self::read_from(old(c)@).0.err == Some(e),
            },
    ;
}

impl Field for u8 {
    open spec fn read_from(d: Reading) -> (Reading, u8) {
        d.u8()
    }

    fn read(c: &mut Cursor) -> Result<u8, OrderError> {
        c.u8()
    }
}

impl Field for u16 {
    open spec fn read_from(d: Reading) -> (Reading, u16) {
        d.u16()
    }

    fn read(c: &mut Cursor) -> Result<u16, OrderError> {
        c.u16()
    }
}

/// A brush origin: one signed byte.
impl Field for i32 {
    open spec fn read_from(d: Reading) -> (Reading, i32) {
        (d.i8().0, d.i8().1 as i32)
    }

    fn read(c: &mut Cursor) -> Result<i32, OrderError> {
        Ok(c.i8()? as i32)
    }
}

/// A color field (Red, Green, Blue byte order), opaque.
impl Field for [u8; 4] {
    open spec fn read_from(d: Reading) -> (Reading, [u8; 4]) {
        let (d1, r) = d.u8();
        let (d2, g) = d1.u8();
        let (d3, b) = d2.u8();
        (d3, [r, g, b, 0xff])
    }

    fn read(c: &mut Cursor) -> Result<[u8; 4], OrderError> {
        let r: u8 = c.u8()?;
        let g: u8 = c.u8()?;
        let b: u8 = c.u8()?;
        Ok(colorref(r, g, b))
    }
}

/// Read a non-coordinate field only when its flag bit is present; otherwise
/// keep `*slot` unchanged.
pub fn field<T: Field>(field_flags: u32, bit: u32, slot: &mut T, c: &mut Cursor) -> (r: Result<
    (),
    OrderError,
>)
    requires
        old(c)@.live(),
        bit < 32,
    ensures
        final(c)@.live(),
        final(c)@ == (Reading { err: None, ..old(c)@.field(field_flags, bit, *old(slot)).0 }),
        *final(slot) == old(c)@.field(field_flags, bit, *old(slot)).1,
        r == old(c)@.field(field_flags, bit, *old(slot)).0.outcome(()),
{
    if field_flags & (1u32 << bit) != 0 {
        *slot = T::read(c)?;
    }
    Ok(())
}

/// Read a coordinate field (delta or absolute) in place when present.
pub fn coord(
    field_flags: u32,
    bit: u32,
    c: &mut Cursor,
    delta: bool,
    slot: &mut i32,
) -> (r: Result<(), OrderError>)
    requires
        old(c)@.live(),
        bit < 32,
    ensures
        final(c)@.live(),
        final(c)@ == (Reading { err: None, ..old(c)@.coord(field_flags, bit, delta, *old(slot)).0 }),
        *final(slot) == old(c)@.coord(field_flags, bit, delta, *old(slot)).1,
        r == old(c)@.coord(field_flags, bit, delta, *old(slot)).0.outcome(()),
{
    if field_flags & (1u32 << bit) != 0 {
        if delta {
            let d: i8 = c.i8()?;
            *slot = (*slot).wrapping_add(d as i32);
        } else {
            *slot = c.i16()? as i32;
        }
    }
    Ok(())
}

// Bounds (clip rect) description flags.
pub const BOUND_LEFT: u8 = 0x01;

pub const BOUND_TOP: u8 = 0x02;

pub const BOUND_RIGHT: u8 = 0x04;

pub const BOUND_BOTTOM: u8 = 0x08;

pub const BOUND_DELTA_LEFT: u8 = 0x10;

pub const BOUND_DELTA_TOP: u8 = 0x20;

pub const BOUND_DELTA_RIGHT: u8 = 0x40;

pub const BOUND_DELTA_BOTTOM: u8 = 0x80;

/// The persistent clip rectangle. Bounds are sticky across orders: a TS_BOUNDS
/// order updates only the edges whose flag is present (absolute or delta);
/// TS_ZERO_BOUNDS_DELTAS reuses the previous bounds unchanged. Right/bottom are
/// inclusive in the wire format.
#[derive(Debug, Clone, Copy)]
pub struct Bounds {
    pub left: i32,
    pub top: i32,
    pub right: i32,
    pub bottom: i32,
}

impl Default for Bounds {
    fn default() -> (r: Self)
        ensures
            r == (Bounds { left: 0, top: 0, right: 0, bottom: 0 }),
    {
        Bounds { left: 0, top: 0, right: 0, bottom: 0 }
    }
}

impl Bounds {
    /// The bounds after a description has been read.
    pub open spec fn updated(self, d: Reading) -> (Reading, Bounds) {
        let (d, flags) = d.u8();
        if !d.ok() {
            (d, self)
        } else {
            let (d, left) = d.edge(flag_set(flags, BOUND_LEFT), flag_set(flags, BOUND_DELTA_LEFT), self.left);
            let (d, top) = d.edge(flag_set(flags, BOUND_TOP), flag_set(flags, BOUND_DELTA_TOP), self.top);
            let (d, right) = d.edge(
                flag_set(flags, BOUND_RIGHT),
                flag_set(flags, BOUND_DELTA_RIGHT),
                self.right,
            );
            let (d, bottom) = d.edge(
                flag_set(flags, BOUND_BOTTOM),
                flag_set(flags, BOUND_DELTA_BOTTOM),
                self.bottom,
            );
            (d, Bounds { left, top, right, bottom })
        }
    }

    /// Read a bounds description (when control has TS_BOUNDS and not
    /// TS_ZERO_BOUNDS_DELTAS), updating self in place.
    pub fn read(&mut self, c: &mut Cursor) -> (r: Result<(), OrderError>)
        requires
            old(c)@.live(),
        ensures
            final(c)@.live(),
            final(c)@ == (Reading { err: None, ..old(self).updated(old(c)@).0 }),
            *final(self) == old(self).updated(old(c)@).1,
            r == old(self).updated(old(c)@).0.outcome(()),
    {
        let flags: u8 = c.u8()?;
        if flags & BOUND_LEFT != 0 {
            self.left = c.i16()? as i32;
        } else if flags & BOUND_DELTA_LEFT != 0 {
            self.left = self.left.wrapping_add(c.i8()? as i32);
        }
        if flags & BOUND_TOP != 0 {
            self.top = c.i16()? as i32;
        } else if flags & BOUND_DELTA_TOP != 0 {
            self.top = self.top.wrapping_add(c.i8()? as i32);
        }
        if flags & BOUND_RIGHT != 0 {
            self.right = c.i16()? as i32;
        } else if flags & BOUND_DELTA_RIGHT != 0 {
            self.right = self.right.wrapping_add(c.i8()? as i32);
        }
        if flags & BOUND_BOTTOM != 0 {
            self.bottom = c.i16()? as i32;
        } else if flags & BOUND_DELTA_BOTTOM != 0 {
            self.bottom = self.bottom.wrapping_add(c.i8()? as i32);
        }
        Ok(())
    }

    /// As a clip rect (inclusive right/bottom -> exclusive width/height).
    pub fn to_rect(self) -> (r: Rect)
        ensures
            r == Rect::inclusive(self.left, self.top, self.right, self.bottom),
    {
        Rect::from_inclusive(self.left, self.top, self.right, self.bottom)
    }
}

} // verus!
