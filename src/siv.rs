//! The SIV misuse-resistant mode of operation: S2V over a MAC gives the
//! synthetic IV, which both authenticates and, masked, starts CTR encryption.

use crate::aes::{Aes128, Aes256, BlockCipher};
use crate::block::{xor_seq, SIZE};
use crate::cmac::Cmac;
use crate::ctr::{ctr_keystream, Ctr};
use crate::error::Error;
use crate::lemmas::lemma_xor_seq_twice;
use crate::mac::Mac;
use crate::pmac::Pmac;
use crate::s2v::{s2v, s2v_final_input, s2v_headers, s2v_input_ok, s2v_spec, views};
use crate::util::{ct_equal, zero_iv_bits, zero_iv_bits_spec};
use vstd::prelude::*;

verus! {

/// Size of the synthetic IV, which is also the tag, in bytes.
pub const IV_SIZE: usize = 16;

/// SIV encryption of `pt`: the S2V tag, then the plaintext XORed with the CTR
/// keystream that starts at the tag with bits 63 and 31 cleared.
pub open spec fn siv_seal_spec<C: BlockCipher, M: Mac>(
    mac_key: Seq<u8>,
    ctr_key: Seq<u8>,
    ad: Seq<Seq<u8>>,
    pt: Seq<u8>,
) -> Seq<u8> {
    let iv = s2v_spec::<M>(mac_key, ad, pt);
    iv + xor_seq(pt, ctr_keystream::<C>(ctr_key, zero_iv_bits_spec(iv), pt.len()))
}

/// SIV decryption of `ct`: the plaintext when the tag that leads `ct` is the
/// S2V tag of the decrypted rest, and nothing otherwise.
pub open spec fn siv_open_spec<C: BlockCipher, M: Mac>(
    mac_key: Seq<u8>,
    ctr_key: Seq<u8>,
    ad: Seq<Seq<u8>>,
    ct: Seq<u8>,
) -> Option<Seq<u8>> {
    if ct.len() < 16 {
        None
    } else {
        let tag = ct.subrange(0, 16);
        let body = ct.subrange(16, ct.len() as int);
        let pt = xor_seq(body, ctr_keystream::<C>(ctr_key, zero_iv_bits_spec(tag), body.len()));
        if s2v_spec::<M>(mac_key, ad, pt) == tag {
            Some(pt)
        } else {
            None
        }
    }
}

/// Layout of a sealed message: it is 16 bytes longer than the plaintext, and
/// its first 16 bytes are the S2V tag of the associated data and plaintext.
pub proof fn lemma_seal_layout<C: BlockCipher, M: Mac>(
    mac_key: Seq<u8>,
    ctr_key: Seq<u8>,
    ad: Seq<Seq<u8>>,
    pt: Seq<u8>,
)
    ensures
        siv_seal_spec::<C, M>(mac_key, ctr_key, ad, pt).len() == pt.len() + 16,
        siv_seal_spec::<C, M>(mac_key, ctr_key, ad, pt).subrange(0, 16) == s2v_spec::<M>(
            mac_key,
            ad,
            pt,
        ),
{
    let iv = s2v_spec::<M>(mac_key, ad, pt);
    M::lemma_tag_len(mac_key, s2v_final_input(s2v_headers::<M>(mac_key, ad), pt));
    let sealed = siv_seal_spec::<C, M>(mac_key, ctr_key, ad, pt);
    assert(sealed.subrange(0, 16) =~= iv);
}

/// Round trip: opening what was sealed, under the same keys and associated
/// data, succeeds and gives back the plaintext.
pub proof fn lemma_open_seal<C: BlockCipher, M: Mac>(
    mac_key: Seq<u8>,
    ctr_key: Seq<u8>,
    ad: Seq<Seq<u8>>,
    pt: Seq<u8>,
)
    ensures
        siv_open_spec::<C, M>(
            mac_key,
            ctr_key,
            ad,
            siv_seal_spec::<C, M>(mac_key, ctr_key, ad, pt),
        ) == Some(pt),
{
    lemma_seal_layout::<C, M>(mac_key, ctr_key, ad, pt);
    let iv = s2v_spec::<M>(mac_key, ad, pt);
    let ks = ctr_keystream::<C>(ctr_key, zero_iv_bits_spec(iv), pt.len());
    let sealed = siv_seal_spec::<C, M>(mac_key, ctr_key, ad, pt);
    let body = sealed.subrange(16, sealed.len() as int);
    assert(body =~= xor_seq(pt, ks));
    lemma_xor_seq_twice(pt, ks);
}

/// Sealing is deterministic: two instances with the same keys seal the same
/// associated data and plaintext to the same bytes.
pub proof fn lemma_seal_deterministic<C: BlockCipher, M: Mac>(
    a: &Siv<C, M>,
    b: &Siv<C, M>,
    ad: Seq<Seq<u8>>,
    pt: Seq<u8>,
)
    requires
        a.wf(),
        b.wf(),
        a.key() == b.key(),
    ensures
        siv_seal_spec::<C, M>(a.mac_key(), a.ctr_key(), ad, pt) == siv_seal_spec::<C, M>(
            b.mac_key(),
            b.ctr_key(),
            ad,
            pt,
        ),
{
    let n = a.mac_key().len() as int;
    assert(a.mac_key() =~= a.key().subrange(0, n));
    assert(b.mac_key() =~= b.key().subrange(0, n));
    assert(a.ctr_key() =~= a.key().subrange(n, a.key().len() as int));
    assert(b.ctr_key() =~= b.key().subrange(n, b.key().len() as int));
}

/// The SIV misuse-resistant block cipher mode of operation.
pub struct Siv<C: BlockCipher, M: Mac> {
    mac: M,
    ctr: Ctr<C>,
}

/// AES-CMAC-SIV with a 128-bit key.
pub type Aes128Siv = Siv<Aes128, Cmac<Aes128>>;

/// AES-CMAC-SIV with a 256-bit key.
pub type Aes256Siv = Siv<Aes256, Cmac<Aes256>>;

/// AES-PMAC-SIV with a 128-bit key.
pub type Aes128PmacSiv = Siv<Aes128, Pmac<Aes128>>;

/// AES-PMAC-SIV with a 256-bit key.
pub type Aes256PmacSiv = Siv<Aes256, Pmac<Aes256>>;

impl<C: BlockCipher, M: Mac> Siv<C, M> {
    /// The key of the MAC, the first half of the SIV key.
    pub closed spec fn mac_key(&self) -> Seq<u8> {
        self.mac.mac_key()
    }

    /// The key of the CTR cipher, the second half of the SIV key.
    pub closed spec fn ctr_key(&self) -> Seq<u8> {
        self.ctr.key()
    }

    /// The instance is ready for a seal or an open.
    pub closed spec fn wf(&self) -> bool {
        &&& self.mac.wf()
        &&& self.mac.mac_key().len() == M::key_len()
    }

    /// The MAC key of a well-formed instance has the MAC's key length.
    pub proof fn lemma_mac_key_len(&self)
        requires
            self.wf(),
        ensures
            self.mac_key().len() == M::key_len(),
    {
    }

    /// The length of a key, in bytes: one key for the MAC and one for CTR.
    pub open spec fn key_len() -> nat {
        M::key_len() + C::key_len()
    }

    /// The key as given to `new`.
    pub open spec fn key(&self) -> Seq<u8> {
        self.mac_key() + self.ctr_key()
    }

    /// Size of a key, in bytes.
    pub fn key_size() -> (r: usize)
        requires
            M::key_len() + C::key_len() <= usize::MAX,
        ensures
            r == Self::key_len(),
    {
        M::key_size() + C::key_size()
    }

    /// Creates a new SIV instance; the key is the MAC key followed by the CTR key.
    pub fn new(key: &[u8]) -> (r: Self)
        requires
            key@.len() == Self::key_len(),
        ensures
            r.wf(),
            r.mac_key() == key@.subrange(0, M::key_len() as int),
            r.ctr_key() == key@.subrange(M::key_len() as int, key@.len() as int),
            r.key() == key@,
    {
        let mac_size = M::key_size();
        let mac = M::from_key(&key[0..mac_size]);
        let ctr = Ctr::from_cipher(C::from_key(&key[mac_size..key.len()]));
        let r = Siv { mac, ctr };
        assert(r.key() =~= key@);
        r
    }

    /// Encrypts the plaintext in the buffer in place: the buffer's first 16
    /// bytes receive the SIV tag, and the rest, the plaintext, is replaced by
    /// its ciphertext.
    pub fn seal_in_place(&mut self, associated_data: &[&[u8]], buffer: &mut [u8])
        requires
            old(self).wf(),
            old(buffer)@.len() >= IV_SIZE,
            s2v_input_ok(
                views(associated_data@),
                old(buffer)@.subrange(16, old(buffer)@.len() as int),
            ),
        ensures
            final(self).wf(),
            final(self).mac_key() == old(self).mac_key(),
            final(self).ctr_key() == old(self).ctr_key(),
            final(buffer)@ == siv_seal_spec::<C, M>(
                old(self).mac_key(),
                old(self).ctr_key(),
                views(associated_data@),
                old(buffer)@.subrange(16, old(buffer)@.len() as int),
            ),
    {
        let (tag, msg) = buffer.split_at_mut(IV_SIZE);
        let iv = s2v(&mut self.mac, associated_data, msg);
        let mut i: usize = 0;
        while i < IV_SIZE
            invariant
                tag@.len() == IV_SIZE,
                iv@.len() == IV_SIZE,
                0 <= i <= IV_SIZE,
                forall|j: int| 0 <= j < i ==> tag@[j] == iv@[j],
            decreases IV_SIZE - i,
        {
            tag[i] = iv.0[i];
            i += 1;
        }
        assert(tag@ =~= iv@);
        let mut ctr_iv = iv.0;
        zero_iv_bits(&mut ctr_iv);
        self.ctr.xor_in_place(&ctr_iv, msg);
    }

    /// Decrypts the ciphertext in the buffer in place and checks it against
    /// the SIV tag that leads it, comparing in constant time. On success the
    /// buffer holds the tag and the plaintext, and the plaintext is returned.
    /// On failure the buffer is left as it was, and the error says nothing
    /// more.
    pub fn open_in_place<'a>(
        &mut self,
        associated_data: &[&[u8]],
        buffer: &'a mut [u8],
    ) -> (r: Result<&'a [u8], Error>)
        requires
            old(self).wf(),
            old(buffer)@.len() >= IV_SIZE ==> s2v_input_ok(
                views(associated_data@),
                old(buffer)@.subrange(16, old(buffer)@.len() as int),
            ),
        ensures
            final(self).wf(),
            final(self).mac_key() == old(self).mac_key(),
            final(self).ctr_key() == old(self).ctr_key(),
            r is Ok <==> siv_open_spec::<C, M>(
                old(self).mac_key(),
                old(self).ctr_key(),
                views(associated_data@),
                old(buffer)@,
            ) is Some,
            r is Ok ==> r->Ok_0@ == siv_open_spec::<C, M>(
                old(self).mac_key(),
                old(self).ctr_key(),
                views(associated_data@),
                old(buffer)@,
            )->Some_0,
            r is Ok ==> final(buffer)@ == old(buffer)@.subrange(0, 16) + r->Ok_0@,
            r is Err ==> final(buffer)@ == old(buffer)@,
    {
        if buffer.len() < IV_SIZE {
            return Err(Error);
        }
        let ghost ad = views(associated_data@);
        let (tag, msg) = buffer.split_at_mut(IV_SIZE);
        let ghost body = msg@;
        let mut ctr_iv: [u8; 16] = crate::aes::array_from_slice(tag);
        zero_iv_bits(&mut ctr_iv);
        self.ctr.xor_in_place(&ctr_iv, msg);
        let actual_tag = s2v(&mut self.mac, associated_data, msg);
        if !ct_equal(actual_tag.as_slice(), tag) {
            // Re-encrypt the decrypted plaintext so that it is not revealed.
            self.ctr.xor_in_place(&ctr_iv, msg);
            proof {
                lemma_xor_seq_twice(
                    body,
                    ctr_keystream::<C>(self.ctr.key(), ctr_iv@, body.len()),
                );
            }
            return Err(Error);
        }
        let plaintext: &'a [u8] = msg;
        Ok(plaintext)
    }

    /// Encrypts the plaintext into a new vector: the SIV tag, then the ciphertext.
    pub fn seal(&mut self, associated_data: &[&[u8]], plaintext: &[u8]) -> (r: Vec<u8>)
        requires
            old(self).wf(),
            s2v_input_ok(views(associated_data@), plaintext@),
        ensures
            final(self).wf(),
            final(self).mac_key() == old(self).mac_key(),
            final(self).ctr_key() == old(self).ctr_key(),
            r@ == siv_seal_spec::<C, M>(
                old(self).mac_key(),
                old(self).ctr_key(),
                views(associated_data@),
                plaintext@,
            ),
    {
        let mut buffer: Vec<u8> = vec![0u8; IV_SIZE];
        buffer.extend_from_slice(plaintext);
        assert(buffer@.subrange(16, buffer@.len() as int) =~= plaintext@);
        self.seal_in_place(associated_data, buffer.as_mut_slice());
        buffer
    }

    /// Decrypts the tag-prefixed ciphertext into a new vector holding the
    /// plaintext.
    pub fn open(&mut self, associated_data: &[&[u8]], ciphertext: &[u8]) -> (r: Result<
        Vec<u8>,
        Error,
    >)
        requires
            old(self).wf(),
            ciphertext@.len() >= IV_SIZE ==> s2v_input_ok(
                views(associated_data@),
                ciphertext@.subrange(16, ciphertext@.len() as int),
            ),
        ensures
            final(self).wf(),
            final(self).mac_key() == old(self).mac_key(),
            final(self).ctr_key() == old(self).ctr_key(),
            r is Ok <==> siv_open_spec::<C, M>(
                old(self).mac_key(),
                old(self).ctr_key(),
                views(associated_data@),
                ciphertext@,
            ) is Some,
            r is Ok ==> r->Ok_0@ == siv_open_spec::<C, M>(
                old(self).mac_key(),
                old(self).ctr_key(),
                views(associated_data@),
                ciphertext@,
            )->Some_0,
    {
        let mut buffer: Vec<u8> = Vec::new();
        buffer.extend_from_slice(ciphertext);
        assert(buffer@ =~= ciphertext@);
        let opened = self.open_in_place(associated_data, buffer.as_mut_slice()).is_ok();
        if !opened {
            return Err(Error);
        }
        let plaintext = buffer.split_off(IV_SIZE);
        Ok(plaintext)
    }
}

} // verus!
