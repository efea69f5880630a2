//! The Advanced Encryption Standard block cipher, keyed with 128 or 256 bits.

use crate::block::Block;
use crate::util::clear_bytes;
use vstd::prelude::*;

verus! {

/// The AES-128 encryption of a block under a 16-byte key.
pub uninterp spec fn aes128_encrypt(key: Seq<u8>, block: Seq<u8>) -> Seq<u8>;

/// The AES-256 encryption of a block under a 32-byte key.
pub uninterp spec fn aes256_encrypt(key: Seq<u8>, block: Seq<u8>) -> Seq<u8>;

/// Relies on the aes crate's `Aes128` (`KeyInit::new`, then
/// `BlockCipherEncrypt::encrypt_block`): one block encrypted under the key,
/// a function of the key and the block alone.
#[verifier::external_body]
fn aes128_encrypt_block(key: &[u8; 16], block: &mut [u8; 16])
    ensures
        final(block)@ == aes128_encrypt(key@, old(block)@),
{
    let cipher = <aes::Aes128 as aes::cipher::KeyInit>::new(&aes::cipher::Array::from(*key));
    let mut b = aes::cipher::Array::from(*block);
    aes::cipher::BlockCipherEncrypt::encrypt_block(&cipher, &mut b);
    *block = b.into();
}

/// Relies on the aes crate's `Aes256` (`KeyInit::new`, then
/// `BlockCipherEncrypt::encrypt_block`): one block encrypted under the key,
/// a function of the key and the block alone.
#[verifier::external_body]
fn aes256_encrypt_block(key: &[u8; 32], block: &mut [u8; 16])
    ensures
        final(block)@ == aes256_encrypt(key@, old(block)@),
{
    let cipher = <aes::Aes256 as aes::cipher::KeyInit>::new(&aes::cipher::Array::from(*key));
    let mut b = aes::cipher::Array::from(*block);
    aes::cipher::BlockCipherEncrypt::encrypt_block(&cipher, &mut b);
    *block = b.into();
}

/// Copies a slice of exactly `N` bytes into an array.
pub fn array_from_slice<const N: usize>(s: &[u8]) -> (r: [u8; N])
    requires
        s@.len() == N,
    ensures
        r@ == s@,
{
    let mut r = [0u8; N];
    let mut i: usize = 0;
    while i < N
        invariant
            s@.len() == N,
            r@.len() == N,
            0 <= i <= N,
            forall|j: int| 0 <= j < i ==> r@[j] == s@[j],
        decreases N - i,
    {
        r[i] = s[i];
        i += 1;
    }
    assert(r@ =~= s@);
    r
}

/// Common interface to a block cipher's raw block function: only encryption,
/// which is all that the SIV modes need.
pub trait BlockCipher: Sized {
    /// The key this cipher was made with.
    spec fn key_bytes(&self) -> Seq<u8>;

    /// The length of a key, in bytes.
    spec fn key_len() -> nat;

    /// The encryption of one block under a key.
    spec fn encrypt_spec(key: Seq<u8>, block: Seq<u8>) -> Seq<u8>;

    /// Size of the key used by this cipher, in bytes.
    fn key_size() -> (r: usize)
        ensures
            r == Self::key_len(),
    ;

    /// Creates a cipher instance from a key of `key_size()` bytes.
    fn from_key(key: &[u8]) -> (r: Self)
        requires
            key@.len() == Self::key_len(),
        ensures
            r.key_bytes() == key@,
    ;

    /// A block encrypts to a block.
    proof fn lemma_block_len(key: Seq<u8>, block: Seq<u8>)
        ensures
            Self::encrypt_spec(key, block).len() == 16,
    ;

    /// Encrypts a block in place.
    fn encrypt(&self, block: &mut Block)
        ensures
            final(block)@ == Self::encrypt_spec(self.key_bytes(), old(block)@),
    ;
}

/// AES with a 128-bit key.
pub struct Aes128 {
    key: [u8; 16],
}

impl Aes128 {
    /// Creates a new AES-128 cipher instance from the given key.
    pub fn new(key: &[u8; 16]) -> (r: Self)
        ensures
            r.key_bytes() == key@,
    {
        Aes128 { key: *key }
    }
}

impl BlockCipher for Aes128 {
    closed spec fn key_bytes(&self) -> Seq<u8> {
        self.key@
    }

    open spec fn key_len() -> nat {
        16
    }

    open spec fn encrypt_spec(key: Seq<u8>, block: Seq<u8>) -> Seq<u8> {
        Seq::new(16, |i: int| aes128_encrypt(key, block)[i])
    }

    proof fn lemma_block_len(key: Seq<u8>, block: Seq<u8>) {
    }

    fn key_size() -> (r: usize) {
        16
    }

    fn from_key(key: &[u8]) -> (r: Self) {
        Aes128 { key: array_from_slice(key) }
    }

    fn encrypt(&self, block: &mut Block) {
        aes128_encrypt_block(&self.key, &mut block.0);
        assert(block@ =~= Self::encrypt_spec(self.key@, old(block)@));
    }
}

impl Drop for Aes128 {
    fn drop(&mut self)
        opens_invariants none
        no_unwind
    {
        clear_bytes(&mut self.key);
    }
}

/// AES with a 256-bit key.
pub struct Aes256 {
    key: [u8; 32],
}

impl Aes256 {
    /// Creates a new AES-256 cipher instance from the given key.
    pub fn new(key: &[u8; 32]) -> (r: Self)
        ensures
            r.key_bytes() == key@,
    {
        Aes256 { key: *key }
    }
}

impl BlockCipher for Aes256 {
    closed spec fn key_bytes(&self) -> Seq<u8> {
        self.key@
    }

    open spec fn key_len() -> nat {
        32
    }

    open spec fn encrypt_spec(key: Seq<u8>, block: Seq<u8>) -> Seq<u8> {
        Seq::new(16, |i: int| aes256_encrypt(key, block)[i])
    }

    proof fn lemma_block_len(key: Seq<u8>, block: Seq<u8>) {
    }

    fn key_size() -> (r: usize) {
        32
    }

    fn from_key(key: &[u8]) -> (r: Self) {
        Aes256 { key: array_from_slice(key) }
    }

    fn encrypt(&self, block: &mut Block) {
        aes256_encrypt_block(&self.key, &mut block.0);
        assert(block@ =~= Self::encrypt_spec(self.key@, old(block)@));
    }
}

impl Drop for Aes256 {
    fn drop(&mut self)
        opens_invariants none
        no_unwind
    {
        clear_bytes(&mut self.key);
    }
}

} // verus!
