//! Rounding of stream positions up to the 32-byte boundary on which the raw
//! data of the images starts.

use crate::stream::zeros;
use crate::types::TplError;
use vstd::prelude::*;

verus! {

/// `n` rounded up to the next multiple of 32.
pub open spec fn spec_align(n: int) -> int {
    ((n + 31) / 32) * 32
}

/// Rounds a 32-bit position up to the next multiple of 32. The result has
/// to fit in 32 bits.
pub fn align_u32(num: u32) -> (r: u32)
    requires
        num <= u32::MAX - 0x1F,
    ensures
        r == spec_align(num as int),
        r % 32 == 0,
        num <= r < num + 32,
{
    let sum: u32 = num + 0x1F;
    assert(sum & !0x1Fu32 == (sum / 32) * 32) by (bit_vector);
    sum & !0x1F
}

/// Rounds a 64-bit position up to the next multiple of 32. The result has
/// to fit in 64 bits.
pub fn align_u64(num: u64) -> (r: u64)
    requires
        num <= u64::MAX - 0x1F,
    ensures
        r == spec_align(num as int),
        r % 32 == 0,
        num <= r < num + 32,
{
    let sum: u64 = num + 0x1F;
    assert(sum & !0x1Fu64 == (sum / 32) * 32) by (bit_vector);
    sum & !0x1F
}

/// A sink of bytes whose end can be moved up to the next 32-byte boundary.
pub trait Algin {
    /// The bytes written so far.
    spec fn written(&self) -> Seq<u8>;

    /// Pads with zero bytes up to the next multiple of 32 and returns the
    /// position reached. Where the sink cannot grow that far it is an
    /// `IOError` and nothing is written.
    fn align_to(&mut self) -> (r: Result<u64, TplError>)
        ensures
            match r {
                Ok(pos) => pos == spec_align(old(self).written().len() as int) && final(self).written() == old(self).written() + zeros(pos - old(self).written().len()),
                Err(e) => e == TplError::IOError && final(self).written() == old(self).written(),
            },
    ;
}

impl Algin for Vec<u8> {
    open spec fn written(&self) -> Seq<u8> {
        self@
    }

    /// A vector cannot grow past `usize::MAX` bytes.
    fn align_to(&mut self) -> (r: Result<u64, TplError>)
        ensures
            r is Ok <==> spec_align(old(self)@.len() as int) <= usize::MAX,
    {
        let pos = self.len();
        if pos > usize::MAX - 0x1F {
            return Err(TplError::IOError);
        }
        let aligned = align_u64(pos as u64);
        let mut at = pos;
        while (at as u64) < aligned
            invariant
                pos <= at <= aligned <= usize::MAX,
                self@.len() == at,
                self@ == old(self)@ + zeros(at - pos),
            decreases aligned - at,
        {
            self.push(0);
            at += 1;
            assert(self@ =~= old(self)@ + zeros(at - pos));
        }
        assert(self@ =~= old(self)@ + zeros(at - pos));
        Ok(aligned)
    }
}

} // verus!
