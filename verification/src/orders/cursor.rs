//! Minimal little-endian read cursor with the signed/coordinate reads the
//! RDP order encoding needs.

use crate::orders::error::OrderError;
use crate::wire::{le16, le32, u16_le, u32_le};
use vstd::prelude::*;

verus! {

/// A decoding in progress: the bytes, the read position, and the first error.
/// Once an error has been met every further read leaves the position alone.
#[verifier::ext_equal]
pub struct Reading {
    pub data: Seq<u8>,
    pub pos: int,
    pub err: Option<OrderError>,
}

impl Reading {
    /// A fresh decoding of `data`.
    pub open spec fn start(data: Seq<u8>) -> Reading {
        Reading { data, pos: 0, err: None }
    }

    /// A decoding that has not met an error, at a position within the data.
    pub open spec fn live(self) -> bool {
        0 <= self.pos <= self.data.len() <= usize::MAX && self.err is None
    }

    pub open spec fn remaining(self) -> int {
        self.data.len() - self.pos
    }

    pub open spec fn fail(self, e: OrderError) -> Reading {
        Reading { err: Some(e), ..self }
    }

    pub open spec fn ok(self) -> bool {
        self.err is None
    }

    /// What a decoding function returns when it ends here with the value `v`.
    pub open spec fn outcome<T>(self, v: T) -> Result<T, OrderError> {
        match self.err {
            None => Ok(v),
            Some(e) => Err(e),
        }
    }

    /// Move `n` bytes ahead; an error if fewer are left.
    pub open spec fn skip(self, n: int) -> Reading {
        if self.err is Some {
            self
        } else if self.remaining() < n {
            self.fail(OrderError::UnexpectedEof { needed: n as usize, have: self.remaining() as usize })
        } else {
            Reading { pos: self.pos + n, ..self }
        }
    }

    pub open spec fn u8(self) -> (Reading, u8) {
        (self.skip(1), self.data[self.pos])
    }

    pub open spec fn i8(self) -> (Reading, i8) {
        (self.skip(1), self.data[self.pos] as i8)
    }

    pub open spec fn u16(self) -> (Reading, u16) {
        (self.skip(2), le16(self.data[self.pos], self.data[self.pos + 1]))
    }

    pub open spec fn i16(self) -> (Reading, i16) {
        (self.skip(2), le16(self.data[self.pos], self.data[self.pos + 1]) as i16)
    }

    pub open spec fn u32(self) -> (Reading, u32) {
        (
            self.skip(4),
            le32(
                self.data[self.pos],
                self.data[self.pos + 1],
                self.data[self.pos + 2],
                self.data[self.pos + 3],
            ),
        )
    }

    pub open spec fn bytes(self, n: int) -> (Reading, Seq<u8>) {
        (self.skip(n), self.data.subrange(self.pos, self.pos + n))
    }
}

pub struct Cursor<'a> {
    data: &'a [u8],
    pos: usize,
}

impl<'a> View for Cursor<'a> {
    type V = Reading;

    closed spec fn view(&self) -> Reading {
        Reading { data: self.data@, pos: self.pos as int, err: None }
    }
}

impl<'a> Cursor<'a> {
    pub fn new(data: &'a [u8]) -> (r: Self)
        ensures
            r@ == Reading::start(data@),
            r@.live(),
    {
        assert(data.len() == data@.len());
        Self { data, pos: 0 }
    }

    pub fn remaining(&self) -> (r: usize)
        requires
            self@.live(),
        ensures
            r == self@.remaining(),
    {
        self.data.len() - self.pos
    }

    pub fn is_empty(&self) -> (r: bool)
        requires
            self@.live(),
        ensures
            r == (self@.remaining() == 0),
    {
        self.pos >= self.data.len()
    }

    pub fn position(&self) -> (r: usize)
        ensures
            r == self@.pos,
    {
        self.pos
    }

    fn need(&self, n: usize) -> (r: Result<(), OrderError>)
        requires
            self@.live(),
        ensures
            r == self@.skip(n as int).outcome(()),
    {
        if self.remaining() < n {
            Err(OrderError::UnexpectedEof { needed: n, have: self.remaining() })
        } else {
            Ok(())
        }
    }

    pub fn u8(&mut self) -> (r: Result<u8, OrderError>)
        requires
            old(self)@.live(),
        ensures
            final(self)@.live(),
            final(self)@ == (Reading { err: None, ..old(self)@.u8().0 }),
            r == old(self)@.u8().0.outcome(old(self)@.u8().1),
    {
        self.need(1)?;
        let v: u8 = self.data[self.pos];
        self.pos = self.pos + 1;
        Ok(v)
    }

    pub fn i8(&mut self) -> (r: Result<i8, OrderError>)
        requires
            old(self)@.live(),
        ensures
            final(self)@.live(),
            final(self)@ == (Reading { err: None, ..old(self)@.i8().0 }),
            r == old(self)@.i8().0.outcome(old(self)@.i8().1),
    {
        Ok(self.u8()? as i8)
    }

    pub fn u16(&mut self) -> (r: Result<u16, OrderError>)
        requires
            old(self)@.live(),
        ensures
            final(self)@.live(),
            final(self)@ == (Reading { err: None, ..old(self)@.u16().0 }),
            r == old(self)@.u16().0.outcome(old(self)@.u16().1),
    {
        self.need(2)?;
        let v: u16 = u16_le(self.data[self.pos], self.data[self.pos + 1]);
        self.pos = self.pos + 2;
        Ok(v)
    }

    pub fn i16(&mut self) -> (r: Result<i16, OrderError>)
        requires
            old(self)@.live(),
        ensures
            final(self)@.live(),
            final(self)@ == (Reading { err: None, ..old(self)@.i16().0 }),
            r == old(self)@.i16().0.outcome(old(self)@.i16().1),
    {
        Ok(self.u16()? as i16)
    }

    pub fn u32(&mut self) -> (r: Result<u32, OrderError>)
        requires
            old(self)@.live(),
        ensures
            final(self)@.live(),
            final(self)@ == (Reading { err: None, ..old(self)@.u32().0 }),
            r == old(self)@.u32().0.outcome(old(self)@.u32().1),
    {
        self.need(4)?;
        let v: u32 = u32_le(
            self.data[self.pos],
            self.data[self.pos + 1],
            self.data[self.pos + 2],
            self.data[self.pos + 3],
        );
        self.pos = self.pos + 4;
        Ok(v)
    }

    /// Read `n` raw bytes.
    pub fn bytes(&mut self, n: usize) -> (r: Result<&'a [u8], OrderError>)
        requires
            old(self)@.live(),
        ensures
            final(self)@.live(),
            final(self)@ == (Reading { err: None, ..old(self)@.bytes(n as int).0 }),
            match r {
                Ok(s) => old(self)@.bytes(n as int).0.ok() && s@ == old(self)@.bytes(n as int).1,
                Err(e) => old(self)@.bytes(n as int).0.err == Some(e),
            },
    {
        self.need(n)?;
        let s: &'a [u8] = vstd::slice::slice_subrange(self.data, self.pos, self.pos + n);
        self.pos = self.pos + n;
        Ok(s)
    }

    /// Skip `n` bytes.
    pub fn skip(&mut self, n: usize) -> (r: Result<(), OrderError>)
        requires
            old(self)@.live(),
        ensures
            final(self)@.live(),
            final(self)@ == (Reading { err: None, ..old(self)@.skip(n as int) }),
            r == old(self)@.skip(n as int).outcome(()),
    {
        self.need(n)?;
        self.pos = self.pos + n;
        Ok(())
    }
}

} // verus!
