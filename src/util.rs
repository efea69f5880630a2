//! Byte-level helpers shared by the modes: XOR, IV masking, counter
//! increment, doubling and secure clearing.

use crate::block::{be_bytes, be_value, block_modulus, dbl_spec, xor_seq, R};
use vstd::arithmetic::div_mod::{lemma_mod_self_0, lemma_small_mod};
use vstd::prelude::*;

verus! {

/// The sixteen bytes of `iv` with the top bit of bytes 8 and 12 cleared.
pub open spec fn zero_iv_bits_spec(iv: Seq<u8>) -> Seq<u8> {
    iv.update(8, iv[8] & 0x7f).update(12, iv[12] & 0x7f)
}

/// A counter block advanced by `n`, as a big-endian integer modulo 2^128.
pub open spec fn ctr_add(iv: Seq<u8>, n: nat) -> Seq<u8> {
    be_bytes((be_value(iv) + n) % block_modulus(), 16)
}

/// Relies on byteorder's `BigEndian::read_u128`: the sixteen bytes read as a
/// big-endian integer.
#[verifier::external_body]
pub(crate) fn read_u128_be(b: &[u8; 16]) -> (r: u128)
    ensures
        r as nat == be_value(b@),
{
    <byteorder::BigEndian as byteorder::ByteOrder>::read_u128(b)
}

/// Relies on byteorder's `BigEndian::write_u128`: the integer written as sixteen
/// big-endian bytes.
#[verifier::external_body]
pub(crate) fn write_u128_be(n: u128) -> (r: [u8; 16])
    ensures
        r@ == be_bytes(n as nat, 16),
{
    let mut out = [0u8; 16];
    <byteorder::BigEndian as byteorder::ByteOrder>::write_u128(&mut out, n);
    out
}

/// Relies on subtle's `ConstantTimeEq` for slices: equal exactly when the slices
/// are, in time that does not depend on where they differ.
#[verifier::external_body]
pub(crate) fn ct_equal(a: &[u8], b: &[u8]) -> (r: bool)
    ensures
        r == (a@ == b@),
{
    bool::from(subtle::ConstantTimeEq::ct_eq(a, b))
}

/// Relies on clear_on_drop's `Clear::clear`: every byte overwritten with zero,
/// by writes that the optimizer does not remove.
#[verifier::external_body]
pub(crate) fn clear_bytes(value: &mut [u8])
    ensures
        final(value)@ == Seq::new(old(value)@.len(), |i: int| 0u8),
    opens_invariants none
    no_unwind
{
    clear_on_drop::clear::Clear::clear(value)
}

/// Zeroes out the given slice.
pub fn clear(value: &mut [u8])
    ensures
        final(value)@ == Seq::new(old(value)@.len(), |i: int| 0u8),
{
    clear_bytes(value);
}

/// Increments a CTR-mode counter, a big-endian 128-bit integer that wraps around.
pub fn ctr_increment(value: &mut [u8; 16])
    ensures
        final(value)@ == ctr_add(old(value)@, 1),
{
    let input = read_u128_be(value);
    let output = if input == u128::MAX {
        0
    } else {
        input + 1
    };
    proof {
        let m = block_modulus() as int;
        if input == u128::MAX {
            lemma_mod_self_0(m);
        } else {
            lemma_small_mod((input + 1) as nat, m as nat);
        }
    }
    *value = write_u128_be(output);
}

/// Doubles a 16-byte value over GF(2^128) in place, without branching on its top bit.
pub fn dbl(value: &mut [u8; 16])
    ensures
        final(value)@ == dbl_spec(old(value)@),
{
    let input = read_u128_be(value);
    let top = input >> 127u128;
    assert(input >> 127u128 <= 1) by (bit_vector);
    let output = (input << 1u128) ^ (top * R);
    *value = write_u128_be(output);
}

/// XORs the second argument into the first in place.
pub fn xor_in_place(a: &mut [u8], b: &[u8])
    requires
        old(a)@.len() == b@.len(),
    ensures
        final(a)@ == xor_seq(old(a)@, b@),
{
    let n = a.len();
    let mut i: usize = 0;
    while i < n
        invariant
            n == a@.len(),
            n == b@.len(),
            n == old(a)@.len(),
            0 <= i <= n,
            forall|j: int| 0 <= j < i ==> a@[j] == old(a)@[j] ^ b@[j],
            forall|j: int| i <= j < n ==> a@[j] == old(a)@[j],
        decreases n - i,
    {
        a[i] = a[i] ^ b[i];
        i += 1;
    }
    assert(a@ =~= xor_seq(old(a)@, b@));
}

/// Zeroes out the top bit of each of the last two 32-bit words of the IV.
pub fn zero_iv_bits(iv: &mut [u8; 16])
    ensures
        final(iv)@ == zero_iv_bits_spec(old(iv)@),
{
    iv[8] = iv[8] & 0x7f;
    iv[12] = iv[12] & 0x7f;
    assert(iv@ =~= zero_iv_bits_spec(old(iv)@));
}

} // verus!
