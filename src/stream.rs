//! The STREAM online authenticated encryption construction: an ordered
//! channel of messages, each sealed under a nonce made of a fixed prefix, a
//! 32-bit message counter and a last-message flag.

use crate::aead::{Aes128PmacSiv, Aes128Siv, Aes256PmacSiv, Aes256Siv, Algorithm};
use crate::mac::max_mac_input;
use crate::block::be_bytes;
use crate::error::Error;
use crate::lemmas::{lemma_be_bytes_len, lemma_be_round_trip};
use crate::siv::IV_SIZE;
use vstd::arithmetic::power::pow;
use vstd::prelude::*;

verus! {

/// Size of the nonce prefix that STREAM takes, in bytes.
pub const NONCE_SIZE: usize = 8;

/// Size of a STREAM nonce: the prefix, a 32-bit counter and a flag byte.
pub const STREAM_NONCE_SIZE: usize = 13;

/// Byte flag of the last message in the stream (otherwise 0).
const LAST_BLOCK_FLAG: u8 = 1;

/// The nonce of the message at position `counter`: the prefix, the counter as
/// four big-endian bytes, and the flag byte, 1 for the last message.
pub open spec fn stream_nonce(prefix: Seq<u8>, counter: nat, last: bool) -> Seq<u8> {
    prefix + be_bytes(counter, 4) + seq![if last { 1u8 } else { 0u8 }]
}

/// Different positions get different nonces: two messages of a stream share a
/// nonce only when they have the same counter and are both last or both not.
pub proof fn lemma_stream_nonces_distinct(
    prefix: Seq<u8>,
    i: nat,
    j: nat,
    last_i: bool,
    last_j: bool,
)
    requires
        prefix.len() == NONCE_SIZE,
        i <= u32::MAX,
        j <= u32::MAX,
        stream_nonce(prefix, i, last_i) == stream_nonce(prefix, j, last_j),
    ensures
        i == j,
        last_i == last_j,
{
    lemma_be_bytes_len(i, 4);
    lemma_be_bytes_len(j, 4);
    let a = stream_nonce(prefix, i, last_i);
    let b = stream_nonce(prefix, j, last_j);
    assert(a.subrange(8, 12) =~= be_bytes(i, 4));
    assert(b.subrange(8, 12) =~= be_bytes(j, 4));
    assert(pow(256, 4) == 0x1_0000_0000) by {
        reveal(pow);
        reveal_with_fuel(pow, 5);
    }
    lemma_be_round_trip(i, 4);
    lemma_be_round_trip(j, 4);
    assert(a[12] == b[12]);
}

/// Each message of a stream, opened at the position and with the flag it was
/// sealed at, gives back its plaintext.
pub proof fn lemma_stream_open_seal<A: Algorithm>(
    key: Seq<u8>,
    prefix: Seq<u8>,
    counter: nat,
    last: bool,
    ad: Seq<u8>,
    pt: Seq<u8>,
)
    ensures
        A::open_spec(
            key,
            stream_nonce(prefix, counter, last),
            ad,
            A::seal_spec(key, stream_nonce(prefix, counter, last), ad, pt),
        ) == Some(pt),
{
    A::lemma_open_seal(key, stream_nonce(prefix, counter, last), ad, pt);
}

/// Relies on byteorder's `BigEndian::write_u32`: the integer written as four
/// big-endian bytes.
#[verifier::external_body]
fn write_u32_be(n: u32) -> (r: [u8; 4])
    ensures
        r@ == be_bytes(n as nat, 4),
{
    let mut out = [0u8; 4];
    <byteorder::BigEndian as byteorder::ByteOrder>::write_u32(&mut out, n);
    out
}

/// Computes STREAM nonces from the position in the stream: a 64-bit prefix
/// and a 32-bit counter.
pub struct NonceEncoder32 {
    value: [u8; 13],
    counter: u32,
    prefix: Ghost<Seq<u8>>,
}

impl NonceEncoder32 {
    /// The nonce prefix.
    pub closed spec fn prefix(&self) -> Seq<u8> {
        self.prefix@
    }

    /// The number of messages before the current one.
    pub closed spec fn counter(&self) -> nat {
        self.counter as nat
    }

    /// The encoded nonce matches the prefix and counter.
    pub closed spec fn wf(&self) -> bool {
        &&& self.prefix@.len() == NONCE_SIZE
        &&& self.value@ == stream_nonce(self.prefix@, self.counter as nat, false)
    }

    /// Creates a new nonce encoder, at counter 0, from an 8-byte prefix.
    pub fn new(prefix: &[u8]) -> (r: Self)
        requires
            prefix@.len() == NONCE_SIZE,
        ensures
            r.wf(),
            r.prefix() == prefix@,
            r.counter() == 0,
    {
        let mut value = [0u8; 13];
        let mut i: usize = 0;
        while i < NONCE_SIZE
            invariant
                prefix@.len() == NONCE_SIZE,
                0 <= i <= NONCE_SIZE,
                forall|j: int| 0 <= j < i ==> value@[j] == prefix@[j],
                forall|j: int| i <= j < 13 ==> value@[j] == 0,
            decreases NONCE_SIZE - i,
        {
            value[i] = prefix[i];
            i += 1;
        }
        proof {
            reveal_with_fuel(be_bytes, 5);
            assert(value@ =~= stream_nonce(prefix@, 0, false));
        }
        NonceEncoder32 { value, counter: 0, prefix: Ghost(prefix@) }
    }

    /// Increments the nonce counter in place.
    pub fn increment(&mut self)
        requires
            old(self).wf(),
            old(self).counter() < u32::MAX,
        ensures
            final(self).wf(),
            final(self).prefix() == old(self).prefix(),
            final(self).counter() == old(self).counter() + 1,
    {
        self.counter = self.counter + 1;
        let count = write_u32_be(self.counter);
        let ghost before = self.value@;
        proof {
            lemma_be_bytes_len(old(self).counter as nat, 4);
            lemma_be_bytes_len(self.counter as nat, 4);
        }
        let mut i: usize = 0;
        while i < 4
            invariant
                self.value@.len() == STREAM_NONCE_SIZE,
                self.prefix@ == old(self).prefix@,
                self.prefix@.len() == NONCE_SIZE,
                self.counter == old(self).counter + 1,
                before == stream_nonce(self.prefix@, old(self).counter as nat, false),
                count@ == be_bytes(self.counter as nat, 4),
                count@.len() == 4,
                0 <= i <= 4,
                forall|j: int| 0 <= j < NONCE_SIZE ==> self.value@[j] == before[j],
                forall|j: int| 0 <= j < i ==> self.value@[NONCE_SIZE + j] == count@[j],
                forall|j: int|
                    NONCE_SIZE + i <= j < STREAM_NONCE_SIZE ==> self.value@[j] == before[j],
            decreases 4 - i,
        {
            self.value[NONCE_SIZE + i] = count[i];
            i += 1;
        }
        proof {
            let target = stream_nonce(self.prefix@, self.counter as nat, false);
            assert forall|j: int| 0 <= j < STREAM_NONCE_SIZE implies self.value@[j]
                == target[j] by {
                if j < NONCE_SIZE {
                    assert(before[j] == self.prefix@[j]);
                } else if j == STREAM_NONCE_SIZE - 1 {
                    assert(before[j] == 0u8);
                }
            }
            assert(self.value@ =~= target);
        }
    }

    /// The current nonce.
    pub fn as_slice(&self) -> (r: &[u8])
        requires
            self.wf(),
        ensures
            r@ == stream_nonce(self.prefix(), self.counter(), false),
    {
        self.value.as_slice()
    }

    /// The nonce of the last message, consuming the encoder.
    pub fn finish(self) -> (r: [u8; 13])
        requires
            self.wf(),
        ensures
            r@ == stream_nonce(self.prefix(), self.counter(), true),
    {
        let mut value = self.value;
        value[STREAM_NONCE_SIZE - 1] = LAST_BLOCK_FLAG;
        assert(value@ =~= stream_nonce(self.prefix(), self.counter(), true));
        value
    }
}

/// A STREAM encryptor with a 32-bit counter, over any AEAD algorithm.
pub struct Encryptor<A: Algorithm> {
    alg: A,
    nonce: NonceEncoder32,
}

/// A STREAM decryptor with a 32-bit counter, over any AEAD algorithm.
pub struct Decryptor<A: Algorithm> {
    alg: A,
    nonce: NonceEncoder32,
}

/// AES-CMAC-SIV STREAM encryptor with a 256-bit key (128-bit security).
pub type Aes128SivEncryptor = Encryptor<Aes128Siv>;

/// AES-CMAC-SIV STREAM encryptor with a 512-bit key (256-bit security).
pub type Aes256SivEncryptor = Encryptor<Aes256Siv>;

/// AES-PMAC-SIV STREAM encryptor with a 256-bit key (128-bit security).
pub type Aes128PmacSivEncryptor = Encryptor<Aes128PmacSiv>;

/// AES-PMAC-SIV STREAM encryptor with a 512-bit key (256-bit security).
pub type Aes256PmacSivEncryptor = Encryptor<Aes256PmacSiv>;

/// AES-CMAC-SIV STREAM decryptor with a 256-bit key (128-bit security).
pub type Aes128SivDecryptor = Decryptor<Aes128Siv>;

/// AES-CMAC-SIV STREAM decryptor with a 512-bit key (256-bit security).
pub type Aes256SivDecryptor = Decryptor<Aes256Siv>;

/// AES-PMAC-SIV STREAM decryptor with a 256-bit key (128-bit security).
pub type Aes128PmacSivDecryptor = Decryptor<Aes128PmacSiv>;

/// AES-PMAC-SIV STREAM decryptor with a 512-bit key (256-bit security).
pub type Aes256PmacSivDecryptor = Decryptor<Aes256PmacSiv>;

impl<A: Algorithm> Encryptor<A> {
    /// The AEAD key.
    pub closed spec fn key(&self) -> Seq<u8> {
        self.alg.key()
    }

    /// The nonce prefix.
    pub closed spec fn prefix(&self) -> Seq<u8> {
        self.nonce.prefix()
    }

    /// The number of messages sealed so far.
    pub closed spec fn counter(&self) -> nat {
        self.nonce.counter()
    }

    /// The encryptor is ready for the next message.
    pub closed spec fn wf(&self) -> bool {
        self.alg.wf() && self.nonce.wf()
    }

    /// Creates a new STREAM encryptor from a key and an 8-byte nonce prefix.
    pub fn new(key: &[u8], nonce: &[u8]) -> (r: Self)
        requires
            key@.len() == A::key_len(),
            nonce@.len() == NONCE_SIZE,
        ensures
            r.wf(),
            r.key() == key@,
            r.prefix() == nonce@,
            r.counter() == 0,
    {
        Encryptor { alg: A::new(key), nonce: NonceEncoder32::new(nonce) }
    }

    /// Encrypts the next message of the stream in place, under the nonce of
    /// its position with the flag clear.
    pub fn seal_next_in_place(&mut self, ad: &[u8], buffer: &mut [u8])
        requires
            old(self).wf(),
            old(self).counter() < u32::MAX,
            old(buffer)@.len() >= IV_SIZE,
            ad@.len() <= max_mac_input(),
            old(buffer)@.len() <= max_mac_input() + IV_SIZE,
        ensures
            final(self).wf(),
            final(self).key() == old(self).key(),
            final(self).prefix() == old(self).prefix(),
            final(self).counter() == old(self).counter() + 1,
            final(buffer)@ == A::seal_spec(
                old(self).key(),
                stream_nonce(old(self).prefix(), old(self).counter(), false),
                ad@,
                old(buffer)@.subrange(16, old(buffer)@.len() as int),
            ),
    {
        proof {
            lemma_be_bytes_len(self.nonce.counter(), 4);
        }
        self.alg.seal_in_place(self.nonce.as_slice(), ad, buffer);
        self.nonce.increment();
    }

    /// Encrypts the last message of the stream in place, under the nonce of
    /// its position with the flag set, consuming the encryptor.
    pub fn seal_last_in_place(self, ad: &[u8], buffer: &mut [u8])
        requires
            self.wf(),
            old(buffer)@.len() >= IV_SIZE,
            ad@.len() <= max_mac_input(),
            old(buffer)@.len() <= max_mac_input() + IV_SIZE,
        ensures
            final(buffer)@ == A::seal_spec(
                self.key(),
                stream_nonce(self.prefix(), self.counter(), true),
                ad@,
                old(buffer)@.subrange(16, old(buffer)@.len() as int),
            ),
    {
        let mut alg = self.alg;
        proof {
            lemma_be_bytes_len(self.nonce.counter(), 4);
        }
        let nonce = self.nonce.finish();
        alg.seal_in_place(nonce.as_slice(), ad, buffer);
    }
}

impl<A: Algorithm> Decryptor<A> {
    /// The AEAD key.
    pub closed spec fn key(&self) -> Seq<u8> {
        self.alg.key()
    }

    /// The nonce prefix.
    pub closed spec fn prefix(&self) -> Seq<u8> {
        self.nonce.prefix()
    }

    /// The number of messages opened so far.
    pub closed spec fn counter(&self) -> nat {
        self.nonce.counter()
    }

    /// The decryptor is ready for the next message.
    pub closed spec fn wf(&self) -> bool {
        self.alg.wf() && self.nonce.wf()
    }

    /// Creates a new STREAM decryptor from a key and an 8-byte nonce prefix.
    pub fn new(key: &[u8], nonce: &[u8]) -> (r: Self)
        requires
            key@.len() == A::key_len(),
            nonce@.len() == NONCE_SIZE,
        ensures
            r.wf(),
            r.key() == key@,
            r.prefix() == nonce@,
            r.counter() == 0,
    {
        Decryptor { alg: A::new(key), nonce: NonceEncoder32::new(nonce) }
    }

    /// Decrypts the next message of the stream in place, under the nonce of
    /// its position with the flag clear; the position advances only when the
    /// message authenticates.
    pub fn open_next_in_place<'a>(&mut self, ad: &[u8], buffer: &'a mut [u8]) -> (r: Result<
        &'a [u8],
        Error,
    >)
        requires
            old(self).wf(),
            old(self).counter() < u32::MAX,
            ad@.len() <= max_mac_input(),
            old(buffer)@.len() <= max_mac_input() + IV_SIZE,
        ensures
            final(self).wf(),
            final(self).key() == old(self).key(),
            final(self).prefix() == old(self).prefix(),
            r is Ok <==> A::open_spec(
                old(self).key(),
                stream_nonce(old(self).prefix(), old(self).counter(), false),
                ad@,
                old(buffer)@,
            ) is Some,
            r is Ok ==> r->Ok_0@ == A::open_spec(
                old(self).key(),
                stream_nonce(old(self).prefix(), old(self).counter(), false),
                ad@,
                old(buffer)@,
            )->Some_0,
            r is Ok ==> final(self).counter() == old(self).counter() + 1,
            r is Err ==> final(self).counter() == old(self).counter(),
            r is Err ==> final(buffer)@ == old(buffer)@,
    {
        proof {
            lemma_be_bytes_len(self.nonce.counter(), 4);
        }
        let result = self.alg.open_in_place(self.nonce.as_slice(), ad, buffer);
        match result {
            Ok(plaintext) => {
                self.nonce.increment();
                Ok(plaintext)
            },
            Err(e) => Err(e),
        }
    }

    /// Decrypts the last message of the stream in place, under the nonce of
    /// its position with the flag set, consuming the decryptor.
    pub fn open_last_in_place<'a>(self, ad: &[u8], buffer: &'a mut [u8]) -> (r: Result<
        &'a [u8],
        Error,
    >)
        requires
            self.wf(),
            ad@.len() <= max_mac_input(),
            old(buffer)@.len() <= max_mac_input() + IV_SIZE,
        ensures
            r is Ok <==> A::open_spec(
                self.key(),
                stream_nonce(self.prefix(), self.counter(), true),
                ad@,
                old(buffer)@,
            ) is Some,
            r is Ok ==> r->Ok_0@ == A::open_spec(
                self.key(),
                stream_nonce(self.prefix(), self.counter(), true),
                ad@,
                old(buffer)@,
            )->Some_0,
            r is Err ==> final(buffer)@ == old(buffer)@,
    {
        let mut alg = self.alg;
        proof {
            lemma_be_bytes_len(self.nonce.counter(), 4);
        }
        let nonce = self.nonce.finish();
        alg.open_in_place(nonce.as_slice(), ad, buffer)
    }
}

} // verus!
