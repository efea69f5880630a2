//! Parallelizable message authentication code (PMAC, Rogaway).

use crate::aes::{Aes128, Aes256, BlockCipher};
use crate::block::{be_bytes, be_value, dbl_spec, xor_seq, zero_block, Block, R, SIZE};
use crate::cmac::{chained_len, pad_spec};
use crate::lemmas::{lemma_last_block_start, lemma_xor_byte};
use crate::mac::{max_mac_input, Mac};
use crate::util::{clear, read_u128_be, write_u128_be};
use vstd::arithmetic::div_mod::lemma_fundamental_div_mod_converse;
use vstd::arithmetic::power2::{lemma2_to64, lemma_pow2_unfold, pow2};
use vstd::prelude::*;

verus! {

/// Number of L blocks to precompute (µ in the PMAC paper).
pub const PRECOMPUTED_BLOCKS: usize = 31;

/// The constant XORed into `L >> 1` when the low bit of `L` is set:
/// the reduction polynomial of GF(2^128) divided by x.
pub const R_INV: u128 = 0x8000_0000_0000_0000_0000_0000_0000_0043;

/// `L(i)`: the encryption of the zero block, doubled `i` times.
pub open spec fn l_spec<C: BlockCipher>(key: Seq<u8>, i: nat) -> Seq<u8>
    decreases i,
{
    if i == 0 {
        C::encrypt_spec(key, zero_block())
    } else {
        dbl_spec(l_spec::<C>(key, (i - 1) as nat))
    }
}

/// Division by x over GF(2^128): shift right by one, and reduce when the low
/// bit was set.
pub open spec fn halve_value(x: u128) -> u128 {
    (x >> 1u128) ^ (((x & 1u128) * R_INV) as u128)
}

/// `L(-1)`: `L(0)` divided by x.
pub open spec fn l_inv_spec<C: BlockCipher>(key: Seq<u8>) -> Seq<u8> {
    be_bytes(halve_value(be_value(l_spec::<C>(key, 0)) as u128) as nat, 16)
}

/// Number of trailing zero bits of a positive integer.
pub open spec fn ntz(i: nat) -> nat
    decreases i,
{
    if i == 0 || i % 2 == 1 {
        0
    } else {
        1 + ntz(i / 2)
    }
}

/// The offset of block `i` (counting from 1): the XOR of `L(ntz(j))` for `j`
/// from 1 to `i`.
pub open spec fn pmac_offset<C: BlockCipher>(key: Seq<u8>, i: nat) -> Seq<u8>
    decreases i,
{
    if i == 0 {
        zero_block()
    } else {
        xor_seq(pmac_offset::<C>(key, (i - 1) as nat), l_spec::<C>(key, ntz(i)))
    }
}

/// XOR of the encryptions of each whole block of `m` XORed with its offset.
pub open spec fn pmac_sum<C: BlockCipher>(key: Seq<u8>, m: Seq<u8>) -> Seq<u8>
    decreases m.len(),
{
    if m.len() < 16 {
        zero_block()
    } else {
        xor_seq(
            pmac_sum::<C>(key, m.subrange(0, m.len() - 16)),
            C::encrypt_spec(
                key,
                xor_seq(
                    pmac_offset::<C>(key, (m.len() / 16) as nat),
                    m.subrange(m.len() - 16, m.len() as int),
                ),
            ),
        )
    }
}

/// The last cipher input of PMAC: the sum over all blocks but the last, with
/// the last block XORed in, together with `L(-1)` when it is complete, or
/// padded when it is not.
pub open spec fn pmac_checksum<C: BlockCipher>(key: Seq<u8>, m: Seq<u8>) -> Seq<u8> {
    let n = chained_len(m.len());
    let last = m.subrange(n as int, m.len() as int);
    let sum = pmac_sum::<C>(key, m.subrange(0, n as int));
    if last.len() == 16 {
        xor_seq(xor_seq(sum, last), l_inv_spec::<C>(key))
    } else {
        xor_seq(sum, pad_spec(last))
    }
}

/// The PMAC tag of a message: the encryption of its checksum.
pub open spec fn pmac_spec<C: BlockCipher>(key: Seq<u8>, m: Seq<u8>) -> Seq<u8> {
    C::encrypt_spec(key, pmac_checksum::<C>(key, m))
}

/// Below 2^k, a positive integer has fewer than k trailing zeros.
proof fn lemma_ntz_bound(i: nat, k: nat)
    requires
        0 < i < pow2(k),
    ensures
        ntz(i) < k,
    decreases i,
{
    if k == 0 {
        assert(pow2(0) == 1) by {
            lemma2_to64();
        }
    } else {
        lemma_pow2_unfold(k);
        if i % 2 == 0 {
            lemma_ntz_bound(i / 2, (k - 1) as nat);
        }
    }
}

/// Computes the number of trailing zero bits of a positive integer.
fn trailing_zeros(x: usize) -> (r: usize)
    requires
        x > 0,
    ensures
        r == ntz(x as nat),
{
    proof {
        lemma2_to64();
        lemma_ntz_bound(x as nat, 64);
    }
    let mut v = x;
    let mut r: usize = 0;
    while v % 2 == 0
        invariant
            v > 0,
            r + ntz(v as nat) == ntz(x as nat),
            ntz(x as nat) < 64,
        decreases v,
    {
        v = v / 2;
        r = r + 1;
    }
    r
}

/// Parallelizable message authentication code.
pub struct Pmac<C: BlockCipher> {
    cipher: C,
    /// `L(0)` to `L(µ - 1)`.
    l: Vec<Block>,
    /// `L(-1)`, XORed into the tag when the message fills its last block.
    l_inv: Block,
    /// The sum over the blocks processed so far.
    tag: Block,
    /// The offset of the last block processed.
    offset: Block,
    /// Bytes of the pending block.
    buffer: Block,
    buffer_pos: usize,
    /// Number of blocks processed so far.
    counter: usize,
    finished: bool,
    msg: Ghost<Seq<u8>>,
}

/// AES-PMAC with a 128-bit key.
pub type Aes128Pmac = Pmac<Aes128>;

/// AES-PMAC with a 256-bit key.
pub type Aes256Pmac = Pmac<Aes256>;

impl Pmac<Aes128> {
    /// Creates a new AES-PMAC instance with a 128-bit key.
    pub fn new(key: &[u8; 16]) -> (r: Self)
        ensures
            r.wf(),
            r.ready(),
            r.mac_key() == key@,
            r.absorbed() == Seq::<u8>::empty(),
    {
        Self::init(Aes128::new(key))
    }
}

impl Pmac<Aes256> {
    /// Creates a new AES-PMAC instance with a 256-bit key.
    pub fn new(key: &[u8; 32]) -> (r: Self)
        ensures
            r.wf(),
            r.ready(),
            r.mac_key() == key@,
            r.absorbed() == Seq::<u8>::empty(),
    {
        Self::init(Aes256::new(key))
    }
}

impl<C: BlockCipher> Pmac<C> {
    /// The pending block holds the bytes after the processed ones, and the
    /// counter, offset and sum describe the processed blocks.
    spec fn sum_inv(&self) -> bool {
        let key = self.cipher.key_bytes();
        let m = self.msg@;
        let pos = self.buffer_pos as nat;
        let n = (m.len() - pos) as nat;
        &&& m.len() <= max_mac_input()
        &&& pos <= m.len()
        &&& n == 16 * self.counter
        &&& m.len() > 0 ==> pos >= 1
        &&& m.len() == 0 ==> pos == 0
        &&& self.offset@ == pmac_offset::<C>(key, self.counter as nat)
        &&& self.tag@ == pmac_sum::<C>(key, m.subrange(0, n as int))
        &&& forall|k: int| 0 <= k < pos ==> #[trigger] self.buffer@[k] == m[n + k]
    }

    /// Creates a new PMAC instance with the given cipher, precomputing the
    /// table of L values.
    pub fn init(cipher: C) -> (r: Self)
        ensures
            r.wf(),
            r.ready(),
            r.mac_key() == cipher.key_bytes(),
            r.absorbed() == Seq::<u8>::empty(),
    {
        let ghost key = cipher.key_bytes();
        let mut tmp = Block::new();
        cipher.encrypt(&mut tmp);
        let mut l: Vec<Block> = Vec::new();
        let mut i: usize = 0;
        while i < PRECOMPUTED_BLOCKS
            invariant
                key == cipher.key_bytes(),
                0 <= i <= PRECOMPUTED_BLOCKS,
                l@.len() == i,
                tmp@ == l_spec::<C>(key, i as nat),
                forall|j: int| 0 <= j < i ==> #[trigger] l@[j]@ == l_spec::<C>(key, j as nat),
            decreases PRECOMPUTED_BLOCKS - i,
        {
            let mut entry = Block::new();
            entry.copy_from_block(&tmp);
            l.push(entry);
            tmp.dbl();
            i += 1;
        }
        let first: &Block = &l[0];
        assert(first@ == l_spec::<C>(key, 0));
        let l_0 = read_u128_be(&first.0);
        let low = l_0 & 1u128;
        assert(l_0 & 1u128 <= 1) by (bit_vector);
        let inv = (l_0 >> 1u128) ^ (low * R_INV);
        let l_inv = Block::from_array(write_u128_be(inv));
        let r = Pmac {
            cipher,
            l,
            l_inv,
            tag: Block::new(),
            offset: Block::new(),
            buffer: Block::new(),
            buffer_pos: 0,
            counter: 0,
            finished: false,
            msg: Ghost(Seq::empty()),
        };
        proof {
            let m = r.msg@;
            assert(m.subrange(0, 0) =~= Seq::<u8>::empty());
        }
        r
    }

    /// Adds the pending full block to the sum, under the next offset.
    fn process_block(&mut self)
        requires
            old(self).wf(),
            !old(self).finished,
            old(self).sum_inv(),
            old(self).buffer_pos == SIZE,
            old(self).msg@.len() + 1 <= max_mac_input(),
        ensures
            final(self).wf(),
            !final(self).finished,
            final(self).cipher.key_bytes() == old(self).cipher.key_bytes(),
            final(self).msg@ == old(self).msg@,
            final(self).buffer_pos == 0,
            final(self).counter == old(self).counter + 1,
            final(self).offset@ == pmac_offset::<C>(
                final(self).cipher.key_bytes(),
                final(self).counter as nat,
            ),
            final(self).tag@ == pmac_sum::<C>(
                final(self).cipher.key_bytes(),
                final(self).msg@,
            ),
    {
        let ghost key = self.cipher.key_bytes();
        let ghost m = self.msg@;
        let ghost n = (m.len() - 16) as nat;
        let next = self.counter + 1;
        proof {
            assert(16 * next <= max_mac_input());
            lemma2_to64();
            lemma_ntz_bound(next as nat, 31);
        }
        let idx = trailing_zeros(next);
        self.offset.xor_in_place(self.l[idx].as_slice());
        self.counter = next;
        let mut block = Block::new();
        block.copy_from_block(&self.offset);
        block.xor_in_place(self.buffer.as_slice());
        self.cipher.encrypt(&mut block);
        self.tag.xor_in_place(block.as_slice());
        self.buffer_pos = 0;
        proof {
            lemma_fundamental_div_mod_converse(m.len() as int, 16, next as int, 0);
            assert(m.subrange(0, m.len() as int) =~= m);
            assert(self.buffer@ =~= m.subrange(m.len() - 16, m.len() as int));
            assert(m.subrange(0, n as int) =~= m.subrange(0, m.len() - 16));
        }
    }
}

impl<C: BlockCipher> Mac for Pmac<C> {
    closed spec fn mac_key(&self) -> Seq<u8> {
        self.cipher.key_bytes()
    }

    closed spec fn absorbed(&self) -> Seq<u8> {
        self.msg@
    }

    closed spec fn wf(&self) -> bool {
        let key = self.cipher.key_bytes();
        &&& self.l@.len() == PRECOMPUTED_BLOCKS
        &&& forall|j: int|
            0 <= j < PRECOMPUTED_BLOCKS ==> #[trigger] self.l@[j]@ == l_spec::<C>(key, j as nat)
        &&& self.l_inv@ == l_inv_spec::<C>(key)
        &&& self.buffer_pos <= SIZE
    }

    closed spec fn ready(&self) -> bool {
        &&& self.wf()
        &&& !self.finished
        &&& self.sum_inv()
    }

    open spec fn key_len() -> nat {
        C::key_len()
    }

    open spec fn mac_spec(key: Seq<u8>, msg: Seq<u8>) -> Seq<u8> {
        pmac_spec::<C>(key, msg)
    }

    proof fn lemma_tag_len(key: Seq<u8>, msg: Seq<u8>) {
        C::lemma_block_len(key, pmac_checksum::<C>(key, msg));
    }

    fn key_size() -> (r: usize) {
        C::key_size()
    }

    fn from_key(key: &[u8]) -> (r: Self) {
        Self::init(C::from_key(key))
    }

    /// Resets a PMAC instance back to its initial state, keeping the L table.
    fn reset(&mut self) {
        clear(&mut self.tag.0);
        clear(&mut self.offset.0);
        clear(&mut self.buffer.0);
        self.buffer_pos = 0;
        self.counter = 0;
        self.finished = false;
        self.msg = Ghost(Seq::empty());
        proof {
            let m = self.msg@;
            assert(self.tag@ =~= zero_block());
            assert(self.offset@ =~= zero_block());
            assert(m.subrange(0, 0) =~= Seq::<u8>::empty());
        }
    }

    /// Updates the PMAC state with the given message, processing each block
    /// once more input follows it.
    fn update(&mut self, msg: &[u8]) {
        let ghost start = self.msg@;
        let mut i: usize = 0;
        while i < msg.len()
            invariant
                self.wf(),
                !self.finished,
                self.sum_inv(),
                self.cipher.key_bytes() == old(self).cipher.key_bytes(),
                self.msg@ == start + msg@.subrange(0, i as int),
                start.len() + msg@.len() <= max_mac_input(),
                0 <= i <= msg@.len(),
            decreases msg@.len() - i,
        {
            let ghost key = self.cipher.key_bytes();
            let ghost m = self.msg@;
            if self.buffer_pos == SIZE {
                self.process_block();
                proof {
                    assert(m.subrange(0, m.len() as int) =~= m);
                }
            }
            let b = msg[i];
            let pos = self.buffer_pos;
            let ghost buf0 = self.buffer@;
            let ghost n0 = (m.len() - pos) as nat;
            assert(forall|k: int| 0 <= k < pos ==> #[trigger] buf0[k] == m[n0 + k]);
            self.buffer.0[pos] = b;
            self.buffer_pos = pos + 1;
            self.msg = Ghost(m.push(b));
            proof {
                let m2 = self.msg@;
                let n2 = (m2.len() - self.buffer_pos) as nat;
                assert(m2.subrange(0, n2 as int) =~= m.subrange(0, n2 as int));
                assert forall|k: int| 0 <= k < self.buffer_pos implies #[trigger] self.buffer@[k]
                    == m2[n2 + k] by {
                    if k < pos {
                        assert(self.buffer@[k] == buf0[k]);
                    }
                }
                assert(msg@.subrange(0, i + 1) =~= msg@.subrange(0, i as int).push(b));
            }
            i += 1;
        }
        assert(msg@.subrange(0, msg@.len() as int) =~= msg@);
    }

    /// Finalizes the PMAC computation, returning the computed tag.
    fn finish(&mut self) -> (r: Block) {
        let ghost key = self.cipher.key_bytes();
        let ghost m = self.msg@;
        let ghost pos = self.buffer_pos as nat;
        let ghost n = (m.len() - pos) as nat;
        let ghost sum = self.tag@;
        let ghost last = m.subrange(n as int, m.len() as int);
        proof {
            if m.len() > 0 {
                lemma_fundamental_div_mod_converse(n as int, 16, self.counter as int, 0);
                lemma_last_block_start(m.len(), pos);
            }
            assert(chained_len(m.len()) == n);
        }
        assert(self.buffer@.subrange(0, pos as int) =~= last);
        if self.buffer_pos == SIZE {
            assert(self.buffer@ =~= last);
            self.tag.xor_in_place(self.buffer.as_slice());
            self.tag.xor_in_place(self.l_inv.as_slice());
        } else {
            let pos_e = self.buffer_pos;
            let mut j: usize = 0;
            while j < pos_e
                invariant
                    self.wf(),
                    self.cipher.key_bytes() == key,
                    pos_e == pos,
                    pos < 16,
                    self.tag@.len() == 16,
                    self.buffer@.subrange(0, pos as int) == last,
                    0 <= j <= pos_e,
                    forall|k: int| 0 <= k < j ==> self.tag@[k] == sum[k] ^ last[k],
                    forall|k: int| j <= k < 16 ==> self.tag@[k] == sum[k],
                decreases pos_e - j,
            {
                assert(self.buffer@[j as int] == last[j as int]);
                self.tag.0[j] = self.tag.0[j] ^ self.buffer.0[j];
                j += 1;
            }
            self.tag.0[pos_e] = self.tag.0[pos_e] ^ 0x80;
            proof {
                assert forall|k: int| 0 <= k < 16 implies #[trigger] self.tag@[k] == xor_seq(
                    sum,
                    pad_spec(last),
                )[k] by {
                    lemma_xor_byte(sum[k], 0, 0);
                }
                assert(self.tag@ =~= xor_seq(sum, pad_spec(last)));
            }
        }
        self.cipher.encrypt(&mut self.tag);
        self.finished = true;
        let mut tag = Block::new();
        tag.copy_from_block(&self.tag);
        tag
    }
}

} // verus!
