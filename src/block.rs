//! Cipher blocks: 128-bit values with XOR, doubling over GF(2^128) and
//! constant-time comparison.

use crate::util::{ct_equal, clear_bytes, dbl, xor_in_place};
use vstd::prelude::*;

verus! {

/// Size of a cipher block in bytes: every construction here works on 128-bit blocks.
pub const SIZE: usize = 16;

/// Low-order terms of the minimal irreducible polynomial of GF(2^128).
pub const R: u128 = 0x87;

/// 2^128, the modulus of a block read as an integer.
pub open spec fn block_modulus() -> nat {
    u128::MAX as nat + 1
}

/// XOR of `b` into the leading bytes of `a`; bytes of `a` past the end of `b` stay.
pub open spec fn xor_seq(a: Seq<u8>, b: Seq<u8>) -> Seq<u8> {
    Seq::new(a.len(), |i: int| if i < b.len() { a[i] ^ b[i] } else { a[i] })
}

/// The all-zero block.
pub open spec fn zero_block() -> Seq<u8> {
    Seq::new(16, |i: int| 0u8)
}

/// The value of a byte string read as a big-endian integer.
pub open spec fn be_value(s: Seq<u8>) -> nat
    decreases s.len(),
{
    if s.len() == 0 {
        0
    } else {
        be_value(s.drop_last()) * 256 + s.last() as nat
    }
}

/// The `len` low-order bytes of `n`, most significant first.
pub open spec fn be_bytes(n: nat, len: nat) -> Seq<u8>
    decreases len,
{
    if len == 0 {
        Seq::empty()
    } else {
        be_bytes(n / 256, (len - 1) as nat).push((n % 256) as u8)
    }
}

/// Doubling over GF(2^128): shift left by one, and reduce by `R` when the top bit was set.
pub open spec fn dbl_value(x: u128) -> u128 {
    (x << 1u128) ^ (((x >> 127u128) * R) as u128)
}

/// Doubling of a block read as a big-endian 128-bit integer.
pub open spec fn dbl_spec(b: Seq<u8>) -> Seq<u8> {
    be_bytes(dbl_value(be_value(b) as u128) as nat, 16)
}

/// A block acceptable to pass to a block cipher.
pub struct Block(pub [u8; 16]);

impl View for Block {
    type V = Seq<u8>;

    open spec fn view(&self) -> Seq<u8> {
        self.0@
    }
}

impl Block {
    /// Creates a new `Block`, initialized to all zeroes.
    pub fn new() -> (r: Block)
        ensures
            r@ == zero_block(),
    {
        let r = Block([0u8; 16]);
        assert(r@ =~= zero_block());
        r
    }

    /// Copies the contents of the other block into this one.
    pub fn copy_from_block(&mut self, other: &Block)
        ensures
            final(self)@ == other@,
    {
        self.0 = other.0;
    }

    /// Doubles the value over GF(2^128).
    pub fn dbl(&mut self)
        ensures
            final(self)@ == dbl_spec(old(self)@),
    {
        dbl(&mut self.0);
    }

    /// XORs the other block-sized value into this one.
    pub fn xor_in_place(&mut self, other: &[u8])
        requires
            other@.len() == SIZE,
        ensures
            final(self)@ == xor_seq(old(self)@, other@),
    {
        xor_in_place(&mut self.0, other);
    }

    /// Wraps the given bytes as a block.
    pub fn from_array(buf: [u8; 16]) -> (r: Block)
        ensures
            r@ == buf@,
    {
        Block(buf)
    }

    /// A block holding the given bytes, followed by zeros.
    pub fn from_slice(buf: &[u8]) -> (r: Block)
        requires
            buf@.len() <= SIZE,
        ensures
            r@ == buf@ + Seq::new((16 - buf@.len()) as nat, |i: int| 0u8),
    {
        let mut block = Block::new();
        let len = buf.len();
        let mut i: usize = 0;
        while i < len
            invariant
                len == buf@.len(),
                len <= SIZE,
                0 <= i <= len,
                forall|j: int| 0 <= j < i ==> block@[j] == buf@[j],
                forall|j: int| i <= j < 16 ==> block@[j] == 0u8,
            decreases len - i,
        {
            let ghost before = block@;
            block.0[i] = buf[i];
            assert(block@ == before.update(i as int, buf@[i as int]));
            i += 1;
        }
        assert(block@ =~= buf@ + Seq::new((16 - buf@.len()) as nat, |i: int| 0u8));
        block
    }

    /// The block's bytes.
    pub fn as_slice(&self) -> (r: &[u8])
        ensures
            r@ == self@,
    {
        self.0.as_slice()
    }

    /// Compares two blocks in constant time.
    pub fn ct_eq(&self, other: &Block) -> (r: bool)
        ensures
            r == (self@ == other@),
    {
        ct_equal(self.0.as_slice(), other.0.as_slice())
    }
}

impl Drop for Block {
    fn drop(&mut self)
        opens_invariants none
        no_unwind
    {
        clear_bytes(&mut self.0);
    }
}

/// Eight contiguous cipher blocks.
pub struct Block8(pub [u8; 128]);

impl View for Block8 {
    type V = Seq<u8>;

    open spec fn view(&self) -> Seq<u8> {
        self.0@
    }
}

impl Block8 {
    /// Creates a new `Block8`, initialized to all zeroes.
    pub fn new() -> (r: Block8)
        ensures
            r@ == Seq::new(128, |i: int| 0u8),
    {
        let r = Block8([0u8; 128]);
        assert(r@ =~= Seq::new(128, |i: int| 0u8));
        r
    }

    /// Compares two groups of blocks in constant time.
    pub fn ct_eq(&self, other: &Block8) -> (r: bool)
        ensures
            r == (self@ == other@),
    {
        ct_equal(self.0.as_slice(), other.0.as_slice())
    }
}

impl Drop for Block8 {
    fn drop(&mut self)
        opens_invariants none
        no_unwind
    {
        clear_bytes(&mut self.0);
    }
}

} // verus!
