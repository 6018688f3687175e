use vstd::prelude::*;
use crate::machine::MachineWord;

verus! {

/// Bytes as machine words: arithmetic wraps around modulo 256, division
/// and remainder by zero give zero, and comparators give 1 for true and 0
/// for false.
impl MachineWord for u8 {
    fn less_than(self, rhs: Self) -> (r: Self)
        ensures
            r == (if self < rhs { 1u8 } else { 0u8 }),
    {
        if self < rhs { 1 } else { 0 }
    }

    fn equal(self, rhs: Self) -> (r: Self)
        ensures
            r == (if self == rhs { 1u8 } else { 0u8 }),
    {
        if self == rhs { 1 } else { 0 }
    }

    fn add(self, rhs: Self) -> (r: Self)
        ensures
            r == (self + rhs) % 256,
    {
        self.wrapping_add(rhs)
    }

    fn sub(self, rhs: Self) -> (r: Self)
        ensures
            r == (self - rhs + 256) % 256,
    {
        self.wrapping_sub(rhs)
    }

    fn mul(self, rhs: Self) -> (r: Self)
        ensures
            r == (self * rhs) % 256,
    {
        self.wrapping_mul(rhs)
    }

    fn div(self, rhs: Self) -> (r: Self)
        ensures
            r == (if rhs == 0 { 0 } else { self / rhs }),
    {
        if rhs == 0 { 0 } else { self / rhs }
    }

    fn rem(self, rhs: Self) -> (r: Self)
        ensures
            r == (if rhs == 0 { 0 } else { self % rhs }),
    {
        if rhs == 0 { 0 } else { self % rhs }
    }

    fn neg(self) -> (r: Self)
        ensures
            r == (256 - self) % 256,
    {
        if self == 0 { 0 } else { 255 - self + 1 }
    }

    fn and(self, rhs: Self) -> (r: Self)
        ensures
            r == self & rhs,
    {
        self & rhs
    }

    fn or(self, rhs: Self) -> (r: Self)
        ensures
            r == self | rhs,
    {
        self | rhs
    }

    fn xor(self, rhs: Self) -> (r: Self)
        ensures
            r == self ^ rhs,
    {
        self ^ rhs
    }

    fn not(self) -> (r: Self)
        ensures
            r == !self,
    {
        !self
    }
}

} // verus!
