//! The interrupt flag. Reading RFLAGS and the `sti` and `cli` instructions are done
//! outside this library.
use vstd::prelude::*;

verus! {

/// The interrupt flag in the value of RFLAGS: bit 9.
pub fn if_flag(rflags: u64) -> (r: u8)
    ensures
        r == (rflags / 512) % 2,
{
    assert((rflags & 0x0200) >> 9 == (rflags / 512) % 2) by (bit_vector);
    ((rflags & 0x0200) >> 9) as u8
}

} // verus!
