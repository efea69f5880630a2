//! Facts about bytes and block arithmetic that the modes' proofs share.

use crate::block::{be_bytes, be_value, xor_seq};
use vstd::arithmetic::power::pow;
use vstd::arithmetic::div_mod::lemma_fundamental_div_mod_converse;
use vstd::prelude::*;

verus! {

/// XOR on bytes is associative and commutative, has zero as identity, and
/// cancels itself.
pub proof fn lemma_xor_byte(a: u8, b: u8, c: u8)
    ensures
        (a ^ b) ^ c == a ^ (b ^ c),
        a ^ b == b ^ a,
        a ^ 0 == a,
        0 ^ a == a,
        (a ^ b) ^ b == a,
{
    assert((a ^ b) ^ c == a ^ (b ^ c)) by (bit_vector);
    assert(a ^ b == b ^ a) by (bit_vector);
    assert(a ^ 0 == a) by (bit_vector);
    assert(0 ^ a == a) by (bit_vector);
    assert((a ^ b) ^ b == a) by (bit_vector);
}

/// XORing the same bytes in twice undoes the first XOR.
pub proof fn lemma_xor_seq_twice(a: Seq<u8>, b: Seq<u8>)
    ensures
        xor_seq(xor_seq(a, b), b) == a,
{
    assert forall|i: int| 0 <= i < a.len() implies #[trigger] xor_seq(xor_seq(a, b), b)[i]
        == a[i] by {
        lemma_xor_byte(a[i], b[i], 0);
    }
    assert(xor_seq(xor_seq(a, b), b) =~= a);
}

/// When `n` bytes of a message stand before a pending block of `pos` bytes
/// (1 to 16), the number of whole blocks before the last one is `n / 16`.
pub proof fn lemma_last_block_start(len: nat, pos: nat)
    requires
        len > 0,
        1 <= pos <= 16,
        pos <= len,
        (len - pos) % 16 == 0,
    ensures
        ((len - 1) as nat / 16) * 16 == len - pos,
{
    let k = (len - pos) / 16;
    assert(len - pos == k * 16) by {
        vstd::arithmetic::div_mod::lemma_fundamental_div_mod((len - pos) as int, 16);
    }
    lemma_fundamental_div_mod_converse((len - 1) as int, 16, k as int, (pos - 1) as int);
}

/// The big-endian encoding of a number in `len` bytes has `len` bytes.
pub proof fn lemma_be_bytes_len(n: nat, len: nat)
    ensures
        be_bytes(n, len).len() == len,
    decreases len,
{
    if len > 0 {
        lemma_be_bytes_len(n / 256, (len - 1) as nat);
    }
}

/// Reading back the `len` big-endian bytes of a number below 256^len gives
/// the number.
pub proof fn lemma_be_round_trip(n: nat, len: nat)
    requires
        n < pow(256, len),
    ensures
        be_value(be_bytes(n, len)) == n,
    decreases len,
{
    reveal(pow);
    if len > 0 {
        let p = pow(256, (len - 1) as nat);
        let q = n / 256;
        vstd::arithmetic::div_mod::lemma_fundamental_div_mod(n as int, 256);
        assert(q < p) by (nonlinear_arith)
            requires
                n == 256 * q + n % 256,
                n % 256 >= 0,
                n < 256 * p,
        ;
        lemma_be_round_trip(q, (len - 1) as nat);
        let s = be_bytes(n, len);
        assert(s.drop_last() =~= be_bytes(q, (len - 1) as nat));
    }
}

} // verus!
