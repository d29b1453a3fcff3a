//! Ternary raster operation (ROP3) index. The raw code is carried so orders can
//! pass it through; the canvas special-cases the handful that matter.

use vstd::prelude::*;

verus! {

#[derive(Debug, Clone, Copy, PartialEq, Eq, Structural)]
pub struct Rop3(pub u8);

impl Rop3 {
    pub const BLACKNESS: u8 = 0x00;

    pub const DSTINVERT: u8 = 0x55;

    pub const SRCCOPY: u8 = 0xCC;

    pub const WHITENESS: u8 = 0xFF;

    pub fn is_srccopy(self) -> (r: bool)
        ensures
            r == (self.0 == Rop3::SRCCOPY),
    {
        self.0 == Self::SRCCOPY
    }
}

} // verus!
