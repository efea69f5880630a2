//! Counter mode: a keystream of encrypted counter blocks, XORed into a buffer.

use crate::aes::{Aes128, Aes256, BlockCipher};
use crate::block::{block_modulus, be_value, xor_seq, Block};
use crate::util::{ctr_add, read_u128_be, write_u128_be};
use vstd::arithmetic::div_mod::{
    lemma_add_mod_noop, lemma_fundamental_div_mod, lemma_fundamental_div_mod_converse,
    lemma_mod_self_0, lemma_small_mod,
};
use vstd::prelude::*;

verus! {

/// The first `len` bytes of the CTR keystream: byte `j` is byte `j % 16` of the
/// encryption of the counter `iv + j / 16`.
pub open spec fn ctr_keystream<C: BlockCipher>(key: Seq<u8>, iv: Seq<u8>, len: nat) -> Seq<u8> {
    Seq::new(len, |j: int| C::encrypt_spec(key, ctr_add(iv, (j / 16) as nat))[j % 16])
}

/// The next value of a 128-bit counter, wrapping around.
fn counter_next(c: u128) -> (r: u128)
    ensures
        r as nat == (c as nat + 1) % block_modulus(),
{
    proof {
        if c == u128::MAX {
            lemma_mod_self_0(block_modulus() as int);
        } else {
            lemma_small_mod((c + 1) as nat, block_modulus());
        }
    }
    if c == u128::MAX {
        0
    } else {
        c + 1
    }
}

/// Counter-mode encryption over a block cipher.
pub struct Ctr<C: BlockCipher> {
    cipher: C,
}

/// AES-CTR with a 128-bit key.
pub type Aes128Ctr = Ctr<Aes128>;

/// AES-CTR with a 256-bit key.
pub type Aes256Ctr = Ctr<Aes256>;

impl Ctr<Aes128> {
    /// Creates a new AES-128-CTR instance from the given key.
    pub fn new(key: &[u8; 16]) -> (r: Self)
        ensures
            r.key() == key@,
    {
        Ctr { cipher: Aes128::new(key) }
    }
}

impl Ctr<Aes256> {
    /// Creates a new AES-256-CTR instance from the given key.
    pub fn new(key: &[u8; 32]) -> (r: Self)
        ensures
            r.key() == key@,
    {
        Ctr { cipher: Aes256::new(key) }
    }
}

impl<C: BlockCipher> Ctr<C> {
    /// The key of the underlying cipher.
    pub closed spec fn key(&self) -> Seq<u8> {
        self.cipher.key_bytes()
    }

    /// Creates a CTR instance over the given cipher.
    pub fn from_cipher(cipher: C) -> (r: Self)
        ensures
            r.key() == cipher.key_bytes(),
    {
        Ctr { cipher }
    }

    /// XORs the CTR keystream that starts at counter `iv` into the given buffer.
    pub fn xor_in_place(&self, iv: &[u8; 16], buf: &mut [u8])
        ensures
            final(buf)@ == xor_seq(
                old(buf)@,
                ctr_keystream::<C>(self.key(), iv@, old(buf)@.len() as nat),
            ),
    {
        let ghost key = self.key();
        let n = buf.len();
        let ghost ks = ctr_keystream::<C>(key, iv@, n as nat);
        let mut counter: u128 = read_u128_be(iv);
        proof {
            lemma_small_mod(be_value(iv@), block_modulus());
        }
        let mut pos: usize = 0;
        while pos < n
            invariant
                n == buf@.len(),
                n == old(buf)@.len(),
                key == self.key(),
                ks == ctr_keystream::<C>(key, iv@, n as nat),
                pos <= n,
                pos < n ==> pos % 16 == 0,
                pos % 16 == 0 ==> counter as int == (be_value(iv@) + pos / 16) % (block_modulus() as int),
                forall|j: int| 0 <= j < pos ==> buf@[j] == old(buf)@[j] ^ ks[j],
                forall|j: int| pos <= j < n ==> buf@[j] == old(buf)@[j],
            decreases n - pos,
        {
            let ghost k = pos / 16;
            proof {
                lemma_fundamental_div_mod(pos as int, 16);
            }
            let mut block = Block::from_array(write_u128_be(counter));
            self.cipher.encrypt(&mut block);
            assert(block@ == C::encrypt_spec(key, ctr_add(iv@, k as nat)));
            let mut t: usize = 0;
            while t < 16 && pos + t < n
                invariant
                    n == buf@.len(),
                    n == old(buf)@.len(),
                    pos < n,
                    pos == 16 * k,
                    t <= 16,
                    pos + t <= n,
                    block@ == C::encrypt_spec(key, ctr_add(iv@, k as nat)),
                    ks == ctr_keystream::<C>(key, iv@, n as nat),
                    forall|j: int| 0 <= j < pos + t ==> buf@[j] == old(buf)@[j] ^ ks[j],
                    forall|j: int| pos + t <= j < n ==> buf@[j] == old(buf)@[j],
                decreases 16 - t,
            {
                let j = pos + t;
                proof {
                    lemma_fundamental_div_mod_converse(j as int, 16, k as int, t as int);
                }
                buf[j] = buf[j] ^ block.0[t];
                t += 1;
            }
            proof {
                if t < 16 {
                    lemma_fundamental_div_mod_converse((pos + t) as int, 16, k as int, t as int);
                } else {
                    lemma_fundamental_div_mod_converse((pos + t) as int, 16, k + 1, 0);
                    lemma_small_mod(1, block_modulus());
                    lemma_add_mod_noop((be_value(iv@) + k) as int, 1, block_modulus() as int);
                }
            }
            counter = counter_next(counter);
            pos = pos + t;
        }
        assert(buf@ =~= xor_seq(old(buf)@, ks));
    }
}

} // verus!
