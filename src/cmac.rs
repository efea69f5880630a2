//! Cipher-based message authentication code (CMAC, NIST SP 800-38B).

use crate::aes::{Aes128, Aes256, BlockCipher};
use crate::block::{dbl_spec, xor_seq, zero_block, Block, SIZE};
use crate::lemmas::{lemma_last_block_start, lemma_xor_byte};
use crate::mac::{max_mac_input, Mac};
use crate::util::clear;
use vstd::prelude::*;

verus! {

/// A final partial block padded with 0x80 and then zeros to sixteen bytes.
pub open spec fn pad_spec(s: Seq<u8>) -> Seq<u8> {
    Seq::new(16, |i: int| if i < s.len() { s[i] } else if i == s.len() { 0x80u8 } else { 0u8 })
}

/// Number of bytes of an `n`-byte message before its last (possibly partial or
/// empty) block.
pub open spec fn chained_len(n: nat) -> nat {
    if n == 0 {
        0
    } else {
        ((n - 1) as nat / 16) * 16
    }
}

/// CBC-MAC chaining value after the whole blocks of `m`, starting from zero.
pub open spec fn cbc_chain<C: BlockCipher>(key: Seq<u8>, m: Seq<u8>) -> Seq<u8>
    decreases m.len(),
{
    if m.len() < 16 {
        zero_block()
    } else {
        C::encrypt_spec(
            key,
            xor_seq(
                cbc_chain::<C>(key, m.subrange(0, m.len() - 16)),
                m.subrange(m.len() - 16, m.len() as int),
            ),
        )
    }
}

/// First CMAC subkey: the doubled encryption of the zero block.
pub open spec fn cmac_subkey1<C: BlockCipher>(key: Seq<u8>) -> Seq<u8> {
    dbl_spec(C::encrypt_spec(key, zero_block()))
}

/// Second CMAC subkey: the first one doubled.
pub open spec fn cmac_subkey2<C: BlockCipher>(key: Seq<u8>) -> Seq<u8> {
    dbl_spec(cmac_subkey1::<C>(key))
}

/// The last cipher input of CMAC: a complete last block is XORed with the
/// first subkey, a partial one is padded and XORed with the second, and the
/// result is XORed with the chaining value of the blocks before it.
pub open spec fn cmac_last_input<C: BlockCipher>(key: Seq<u8>, m: Seq<u8>) -> Seq<u8> {
    let n = chained_len(m.len());
    let last = m.subrange(n as int, m.len() as int);
    let last_block = if last.len() == 16 {
        xor_seq(last, cmac_subkey1::<C>(key))
    } else {
        xor_seq(pad_spec(last), cmac_subkey2::<C>(key))
    };
    xor_seq(cbc_chain::<C>(key, m.subrange(0, n as int)), last_block)
}

/// The CMAC tag of a message: the encryption of its last cipher input.
pub open spec fn cmac_spec<C: BlockCipher>(key: Seq<u8>, m: Seq<u8>) -> Seq<u8> {
    C::encrypt_spec(key, cmac_last_input::<C>(key, m))
}

/// Cipher-based message authentication code.
pub struct Cmac<C: BlockCipher> {
    cipher: C,
    subkey1: Block,
    subkey2: Block,
    buffer: Block,
    buffer_pos: usize,
    finished: bool,
    msg: Ghost<Seq<u8>>,
}

/// AES-CMAC with a 128-bit key.
pub type Aes128Cmac = Cmac<Aes128>;

/// AES-CMAC with a 256-bit key.
pub type Aes256Cmac = Cmac<Aes256>;

impl Cmac<Aes128> {
    /// Creates a new AES-CMAC instance with a 128-bit key.
    pub fn new(key: &[u8; 16]) -> (r: Self)
        ensures
            r.wf(),
            r.ready(),
            r.mac_key() == key@,
            r.absorbed() == Seq::<u8>::empty(),
    {
        Self::init(Aes128::new(key))
    }
}

impl Cmac<Aes256> {
    /// Creates a new AES-CMAC instance with a 256-bit key.
    pub fn new(key: &[u8; 32]) -> (r: Self)
        ensures
            r.wf(),
            r.ready(),
            r.mac_key() == key@,
            r.absorbed() == Seq::<u8>::empty(),
    {
        Self::init(Aes256::new(key))
    }
}

impl<C: BlockCipher> Cmac<C> {
    /// The buffer holds the chaining value over every whole block but the
    /// last, XORed with the bytes of the pending last block.
    spec fn chain_inv(&self) -> bool {
        let m = self.msg@;
        let pos = self.buffer_pos as nat;
        let n = (m.len() - pos) as nat;
        &&& pos <= m.len()
        &&& n % 16 == 0
        &&& m.len() > 0 ==> pos >= 1
        &&& m.len() == 0 ==> pos == 0
        &&& self.buffer@ == xor_seq(
            cbc_chain::<C>(self.cipher.key_bytes(), m.subrange(0, n as int)),
            m.subrange(n as int, m.len() as int),
        )
    }

    /// Creates a new CMAC instance with the given cipher.
    pub fn init(cipher: C) -> (r: Self)
        ensures
            r.wf(),
            r.ready(),
            r.mac_key() == cipher.key_bytes(),
            r.absorbed() == Seq::<u8>::empty(),
    {
        let mut subkey1 = Block::new();
        cipher.encrypt(&mut subkey1);
        subkey1.dbl();
        let mut subkey2 = Block::new();
        subkey2.copy_from_block(&subkey1);
        subkey2.dbl();
        let r = Cmac {
            cipher,
            subkey1,
            subkey2,
            buffer: Block::new(),
            buffer_pos: 0,
            finished: false,
            msg: Ghost(Seq::empty()),
        };
        proof {
            let m = r.msg@;
            assert(m.subrange(0, 0) =~= Seq::<u8>::empty());
            assert(xor_seq(zero_block(), m.subrange(0, 0)) =~= zero_block());
        }
        r
    }
}

impl<C: BlockCipher> Mac for Cmac<C> {
    closed spec fn mac_key(&self) -> Seq<u8> {
        self.cipher.key_bytes()
    }

    closed spec fn absorbed(&self) -> Seq<u8> {
        self.msg@
    }

    closed spec fn wf(&self) -> bool {
        &&& self.subkey1@ == cmac_subkey1::<C>(self.cipher.key_bytes())
        &&& self.subkey2@ == cmac_subkey2::<C>(self.cipher.key_bytes())
        &&& self.buffer_pos <= SIZE
    }

    closed spec fn ready(&self) -> bool {
        &&& self.wf()
        &&& !self.finished
        &&& self.chain_inv()
    }

    open spec fn key_len() -> nat {
        C::key_len()
    }

    open spec fn mac_spec(key: Seq<u8>, msg: Seq<u8>) -> Seq<u8> {
        cmac_spec::<C>(key, msg)
    }

    proof fn lemma_tag_len(key: Seq<u8>, msg: Seq<u8>) {
        C::lemma_block_len(key, cmac_last_input::<C>(key, msg));
    }

    fn key_size() -> (r: usize) {
        C::key_size()
    }

    fn from_key(key: &[u8]) -> (r: Self) {
        Self::init(C::from_key(key))
    }

    /// Resets a CMAC instance back to its initial buffer, keeping the subkeys.
    fn reset(&mut self) {
        clear(&mut self.buffer.0);
        self.buffer_pos = 0;
        self.finished = false;
        self.msg = Ghost(Seq::empty());
        proof {
            let m = self.msg@;
            assert(self.buffer@ =~= zero_block());
            assert(m.subrange(0, 0) =~= Seq::<u8>::empty());
            assert(xor_seq(zero_block(), m.subrange(0, 0)) =~= zero_block());
        }
    }

    /// Updates the CMAC buffer with the given message, encrypting each block
    /// once more input follows it.
    fn update(&mut self, msg: &[u8]) {
        let ghost start = self.msg@;
        let mut i: usize = 0;
        while i < msg.len()
            invariant
                self.wf(),
                !self.finished,
                self.chain_inv(),
                self.cipher.key_bytes() == old(self).cipher.key_bytes(),
                self.msg@ == start + msg@.subrange(0, i as int),
                0 <= i <= msg@.len(),
            decreases msg@.len() - i,
        {
            let ghost key = self.cipher.key_bytes();
            let ghost m = self.msg@;
            if self.buffer_pos == SIZE {
                let ghost n = (m.len() - 16) as nat;
                self.cipher.encrypt(&mut self.buffer);
                self.buffer_pos = 0;
                proof {
                    let whole = m.subrange(0, m.len() as int);
                    assert(whole =~= m);
                    assert(m.subrange(0, n as int) =~= whole.subrange(0, whole.len() - 16));
                    assert(m.subrange(n as int, m.len() as int) =~= whole.subrange(
                        whole.len() - 16,
                        whole.len() as int,
                    ));
                    assert(self.buffer@ == cbc_chain::<C>(key, m));
                }
            }
            let b = msg[i];
            let pos = self.buffer_pos;
            self.buffer.0[pos] = self.buffer.0[pos] ^ b;
            self.buffer_pos = pos + 1;
            self.msg = Ghost(m.push(b));
            proof {
                let m2 = self.msg@;
                let n2 = (m2.len() - self.buffer_pos) as nat;
                assert(m2.subrange(0, n2 as int) =~= m.subrange(0, n2 as int));
                assert(m2.subrange(n2 as int, m2.len() as int) =~= m.subrange(
                    n2 as int,
                    m.len() as int,
                ).push(b));
                assert(self.buffer@ =~= xor_seq(
                    cbc_chain::<C>(key, m2.subrange(0, n2 as int)),
                    m2.subrange(n2 as int, m2.len() as int),
                ));
                assert(msg@.subrange(0, i + 1) =~= msg@.subrange(0, i as int).push(b));
            }
            i += 1;
        }
        assert(msg@.subrange(0, msg@.len() as int) =~= msg@);
    }

    /// Finishes computing CMAC, returning the computed tag.
    fn finish(&mut self) -> (r: Block) {
        let ghost key = self.cipher.key_bytes();
        let ghost m = self.msg@;
        let ghost pos = self.buffer_pos as nat;
        let ghost n = (m.len() - pos) as nat;
        let ghost chain = cbc_chain::<C>(key, m.subrange(0, n as int));
        let ghost last = m.subrange(n as int, m.len() as int);
        proof {
            if m.len() > 0 {
                lemma_last_block_start(m.len(), pos);
            }
            assert(chained_len(m.len()) == n);
        }
        if self.buffer_pos == SIZE {
            self.buffer.xor_in_place(self.subkey1.as_slice());
            proof {
                let k1 = cmac_subkey1::<C>(key);
                assert forall|i: int| 0 <= i < 16 implies #[trigger] self.buffer@[i] == xor_seq(
                    chain,
                    xor_seq(last, k1),
                )[i] by {
                    lemma_xor_byte(chain[i], last[i], k1[i]);
                }
                assert(self.buffer@ =~= xor_seq(chain, xor_seq(last, k1)));
            }
        } else {
            self.buffer.xor_in_place(self.subkey2.as_slice());
            let pos_e = self.buffer_pos;
            self.buffer.0[pos_e] = self.buffer.0[pos_e] ^ 0x80;
            proof {
                let k2 = cmac_subkey2::<C>(key);
                let padded = pad_spec(last);
                assert forall|i: int| 0 <= i < 16 implies #[trigger] self.buffer@[i] == xor_seq(
                    chain,
                    xor_seq(padded, k2),
                )[i] by {
                    if i < pos {
                        lemma_xor_byte(chain[i], last[i], k2[i]);
                    } else if i == pos {
                        lemma_xor_byte(chain[i], k2[i], 0x80);
                        lemma_xor_byte(k2[i], 0x80, 0);
                    } else {
                        lemma_xor_byte(k2[i], 0, 0);
                    }
                }
                assert(self.buffer@ =~= xor_seq(chain, xor_seq(padded, k2)));
            }
        }
        self.cipher.encrypt(&mut self.buffer);
        self.finished = true;
        let mut tag = Block::new();
        tag.copy_from_block(&self.buffer);
        tag
    }
}

} // verus!
