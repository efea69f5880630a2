//! XOR as an in-place byte string operation.

use crate::block::xor_seq;
use vstd::prelude::*;

verus! {

/// XORs the second argument into the first in place; the slices need not be
/// aligned in memory.
pub fn in_place(a: &mut [u8], b: &[u8])
    requires
        old(a)@.len() == b@.len(),
    ensures
        final(a)@ == xor_seq(old(a)@, b@),
{
    crate::util::xor_in_place(a, b);
}

} // verus!
