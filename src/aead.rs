//! Authenticated encryption with associated data (AEAD) over the SIV modes:
//! one associated data string and one nonce per message.

use crate::aes::{Aes128, Aes256, BlockCipher};
use crate::cmac::Cmac;
use crate::error::Error;
use crate::mac::{max_mac_input, Mac};
use crate::pmac::Pmac;
use crate::s2v::{s2v_input_ok, views};
use crate::siv::{lemma_open_seal, siv_open_spec, siv_seal_spec, Siv, IV_SIZE};
use vstd::prelude::*;

verus! {

/// An AEAD algorithm whose messages carry a 16-byte tag in front.
pub trait Algorithm: Sized {
    /// The instance is ready for a seal or an open.
    spec fn wf(&self) -> bool;

    /// The key this instance was made with.
    spec fn key(&self) -> Seq<u8>;

    /// The length of a key, in bytes.
    spec fn key_len() -> nat;

    /// The sealed form, tag first, of a plaintext.
    spec fn seal_spec(key: Seq<u8>, nonce: Seq<u8>, ad: Seq<u8>, pt: Seq<u8>) -> Seq<u8>;

    /// The plaintext of a sealed message, when it authenticates.
    spec fn open_spec(key: Seq<u8>, nonce: Seq<u8>, ad: Seq<u8>, ct: Seq<u8>) -> Option<Seq<u8>>;

    /// Opening what was sealed under the same key, nonce and associated data
    /// gives back the plaintext.
    proof fn lemma_open_seal(key: Seq<u8>, nonce: Seq<u8>, ad: Seq<u8>, pt: Seq<u8>)
        ensures
            Self::open_spec(key, nonce, ad, Self::seal_spec(key, nonce, ad, pt)) == Some(pt),
    ;

    /// Creates a new AEAD instance.
    fn new(key: &[u8]) -> (r: Self)
        requires
            key@.len() == Self::key_len(),
        ensures
            r.wf(),
            r.key() == key@,
    ;

    /// Encrypts the plaintext that follows the buffer's first 16 bytes in
    /// place, and writes the tag into those 16 bytes.
    fn seal_in_place(&mut self, nonce: &[u8], associated_data: &[u8], buffer: &mut [u8])
        requires
            old(self).wf(),
            old(buffer)@.len() >= IV_SIZE,
            aead_input_ok(
                nonce@,
                associated_data@,
                old(buffer)@.subrange(16, old(buffer)@.len() as int),
            ),
        ensures
            final(self).wf(),
            final(self).key() == old(self).key(),
            final(buffer)@ == Self::seal_spec(
                old(self).key(),
                nonce@,
                associated_data@,
                old(buffer)@.subrange(16, old(buffer)@.len() as int),
            ),
    ;

    /// Decrypts and authenticates the buffer in place, returning the plaintext;
    /// on failure the buffer is left as it was.
    fn open_in_place<'a>(
        &mut self,
        nonce: &[u8],
        associated_data: &[u8],
        buffer: &'a mut [u8],
    ) -> (r: Result<&'a [u8], Error>)
        requires
            old(self).wf(),
            old(buffer)@.len() >= IV_SIZE ==> aead_input_ok(
                nonce@,
                associated_data@,
                old(buffer)@.subrange(16, old(buffer)@.len() as int),
            ),
        ensures
            final(self).wf(),
            final(self).key() == old(self).key(),
            r is Ok <==> Self::open_spec(old(self).key(), nonce@, associated_data@, old(buffer)@) is Some,
            r is Ok ==> r->Ok_0@ == Self::open_spec(
                old(self).key(),
                nonce@,
                associated_data@,
                old(buffer)@,
            )->Some_0,
            r is Ok ==> final(buffer)@ == old(buffer)@.subrange(0, 16) + r->Ok_0@,
            r is Err ==> final(buffer)@ == old(buffer)@,
    ;
}

/// The lengths that an AEAD message takes: the nonce, the associated data
/// and the message each within what one MAC computation takes.
pub open spec fn aead_input_ok(nonce: Seq<u8>, ad: Seq<u8>, msg: Seq<u8>) -> bool {
    &&& nonce.len() <= max_mac_input()
    &&& ad.len() <= max_mac_input()
    &&& msg.len() <= max_mac_input()
}

/// The associated data vector that an AEAD message gives to SIV: the
/// associated data, then the nonce.
pub open spec fn aead_headers(nonce: Seq<u8>, ad: Seq<u8>) -> Seq<Seq<u8>> {
    seq![ad, nonce]
}

/// Lengths that an AEAD message takes are lengths that S2V takes.
proof fn lemma_aead_input_ok(nonce: Seq<u8>, ad: Seq<u8>, msg: Seq<u8>)
    requires
        aead_input_ok(nonce, ad, msg),
    ensures
        s2v_input_ok(aead_headers(nonce, ad), msg),
{
    let h = aead_headers(nonce, ad);
    assert(h[0] == ad);
    assert(h[1] == nonce);
}

/// AEAD interface over an AES-(PMAC-)SIV instance.
pub struct SivAlgorithm<C: BlockCipher, M: Mac> {
    siv: Siv<C, M>,
}

/// AES-CMAC-SIV in AEAD mode with a 256-bit key (128-bit security).
pub type Aes128Siv = SivAlgorithm<Aes128, Cmac<Aes128>>;

/// AES-CMAC-SIV in AEAD mode with a 512-bit key (256-bit security).
pub type Aes256Siv = SivAlgorithm<Aes256, Cmac<Aes256>>;

/// AES-PMAC-SIV in AEAD mode with a 256-bit key (128-bit security).
pub type Aes128PmacSiv = SivAlgorithm<Aes128, Pmac<Aes128>>;

/// AES-PMAC-SIV in AEAD mode with a 512-bit key (256-bit security).
pub type Aes256PmacSiv = SivAlgorithm<Aes256, Pmac<Aes256>>;

impl<C: BlockCipher, M: Mac> Algorithm for SivAlgorithm<C, M> {
    closed spec fn wf(&self) -> bool {
        self.siv.wf()
    }

    closed spec fn key(&self) -> Seq<u8> {
        self.siv.key()
    }

    open spec fn key_len() -> nat {
        Siv::<C, M>::key_len()
    }

    open spec fn seal_spec(key: Seq<u8>, nonce: Seq<u8>, ad: Seq<u8>, pt: Seq<u8>) -> Seq<u8> {
        siv_seal_spec::<C, M>(
            key.subrange(0, M::key_len() as int),
            key.subrange(M::key_len() as int, key.len() as int),
            aead_headers(nonce, ad),
            pt,
        )
    }

    open spec fn open_spec(key: Seq<u8>, nonce: Seq<u8>, ad: Seq<u8>, ct: Seq<u8>) -> Option<
        Seq<u8>,
    > {
        siv_open_spec::<C, M>(
            key.subrange(0, M::key_len() as int),
            key.subrange(M::key_len() as int, key.len() as int),
            aead_headers(nonce, ad),
            ct,
        )
    }

    proof fn lemma_open_seal(key: Seq<u8>, nonce: Seq<u8>, ad: Seq<u8>, pt: Seq<u8>) {
        lemma_open_seal::<C, M>(
            key.subrange(0, M::key_len() as int),
            key.subrange(M::key_len() as int, key.len() as int),
            aead_headers(nonce, ad),
            pt,
        );
    }

    fn new(key: &[u8]) -> (r: Self) {
        SivAlgorithm { siv: Siv::new(key) }
    }

    fn seal_in_place(&mut self, nonce: &[u8], associated_data: &[u8], buffer: &mut [u8]) {
        let pair: [&[u8]; 2] = [associated_data, nonce];
        let headers = pair.as_slice();
        assert(views(headers@) =~= aead_headers(nonce@, associated_data@));
        proof {
            if buffer@.len() >= IV_SIZE {
                lemma_aead_input_ok(
                    nonce@,
                    associated_data@,
                    buffer@.subrange(16, buffer@.len() as int),
                );
            }
            self.siv.lemma_mac_key_len();
            assert(self.siv.mac_key() =~= self.key().subrange(0, M::key_len() as int));
            assert(self.siv.ctr_key() =~= self.key().subrange(
                M::key_len() as int,
                self.key().len() as int,
            ));
        }
        self.siv.seal_in_place(headers, buffer);
    }

    fn open_in_place<'a>(
        &mut self,
        nonce: &[u8],
        associated_data: &[u8],
        buffer: &'a mut [u8],
    ) -> (r: Result<&'a [u8], Error>) {
        let pair: [&[u8]; 2] = [associated_data, nonce];
        let headers = pair.as_slice();
        assert(views(headers@) =~= aead_headers(nonce@, associated_data@));
        proof {
            if buffer@.len() >= IV_SIZE {
                lemma_aead_input_ok(
                    nonce@,
                    associated_data@,
                    buffer@.subrange(16, buffer@.len() as int),
                );
            }
            self.siv.lemma_mac_key_len();
            assert(self.siv.mac_key() =~= self.key().subrange(0, M::key_len() as int));
            assert(self.siv.ctr_key() =~= self.key().subrange(
                M::key_len() as int,
                self.key().len() as int,
            ));
        }
        self.siv.open_in_place(headers, buffer)
    }
}

impl<C: BlockCipher, M: Mac> SivAlgorithm<C, M> {
    /// Encrypts the plaintext into a new vector: the tag, then the ciphertext.
    pub fn seal(&mut self, nonce: &[u8], associated_data: &[u8], plaintext: &[u8]) -> (r: Vec<u8>)
        requires
            old(self).wf(),
            aead_input_ok(nonce@, associated_data@, plaintext@),
        ensures
            final(self).wf(),
            final(self).key() == old(self).key(),
            r@ == Self::seal_spec(old(self).key(), nonce@, associated_data@, plaintext@),
    {
        let mut buffer: Vec<u8> = vec![0u8; IV_SIZE];
        buffer.extend_from_slice(plaintext);
        assert(buffer@.subrange(16, buffer@.len() as int) =~= plaintext@);
        self.seal_in_place(nonce, associated_data, buffer.as_mut_slice());
        buffer
    }

    /// Decrypts the tag-prefixed ciphertext into a new vector holding the
    /// plaintext.
    pub fn open(&mut self, nonce: &[u8], associated_data: &[u8], ciphertext: &[u8]) -> (r: Result<
        Vec<u8>,
        Error,
    >)
        requires
            old(self).wf(),
            ciphertext@.len() >= IV_SIZE ==> aead_input_ok(
                nonce@,
                associated_data@,
                ciphertext@.subrange(16, ciphertext@.len() as int),
            ),
        ensures
            final(self).wf(),
            final(self).key() == old(self).key(),
            r is Ok <==> Self::open_spec(old(self).key(), nonce@, associated_data@, ciphertext@) is Some,
            r is Ok ==> r->Ok_0@ == Self::open_spec(
                old(self).key(),
                nonce@,
                associated_data@,
                ciphertext@,
            )->Some_0,
    {
        let mut buffer: Vec<u8> = Vec::new();
        buffer.extend_from_slice(ciphertext);
        assert(buffer@ =~= ciphertext@);
        let opened = self.open_in_place(nonce, associated_data, buffer.as_mut_slice()).is_ok();
        if !opened {
            return Err(Error);
        }
        let plaintext = buffer.split_off(IV_SIZE);
        Ok(plaintext)
    }
}

} // verus!
