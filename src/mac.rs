//! Message authentication codes over a 128-bit block cipher.

use crate::block::Block;
use vstd::prelude::*;

verus! {

/// Largest total input, in bytes, that one MAC computation takes: PMAC's
/// table of offsets covers messages of up to 2^31 - 1 blocks.
pub const MAX_MAC_INPUT: u64 = 0x7_ffff_fff0;

/// `MAX_MAC_INPUT`, as a number.
pub open spec fn max_mac_input() -> nat {
    MAX_MAC_INPUT as nat
}

/// Trait for message authentication codes (MACs) with a 16-byte tag.
pub trait Mac: Sized {
    /// The key this instance was made with.
    spec fn mac_key(&self) -> Seq<u8>;

    /// The message absorbed since the last reset.
    spec fn absorbed(&self) -> Seq<u8>;

    /// The state is well formed; a reset makes it ready.
    spec fn wf(&self) -> bool;

    /// The state is well formed and takes more input.
    spec fn ready(&self) -> bool;

    /// The length of a key, in bytes.
    spec fn key_len() -> nat;

    /// The tag of a message under a key.
    spec fn mac_spec(key: Seq<u8>, msg: Seq<u8>) -> Seq<u8>;

    /// A tag is one block.
    proof fn lemma_tag_len(key: Seq<u8>, msg: Seq<u8>)
        ensures
            Self::mac_spec(key, msg).len() == 16,
    ;

    /// Size of a key, in bytes.
    fn key_size() -> (r: usize)
        ensures
            r == Self::key_len(),
    ;

    /// Creates a MAC instance from a key of `key_size()` bytes.
    fn from_key(key: &[u8]) -> (r: Self)
        requires
            key@.len() == Self::key_len(),
        ensures
            r.wf(),
            r.ready(),
            r.mac_key() == key@,
            r.absorbed() == Seq::<u8>::empty(),
    ;

    /// Resets a MAC instance back to its initial state.
    fn reset(&mut self)
        requires
            old(self).wf(),
        ensures
            final(self).wf(),
            final(self).ready(),
            final(self).mac_key() == old(self).mac_key(),
            final(self).absorbed() == Seq::<u8>::empty(),
    ;

    /// Updates the MAC's internal state with the given message.
    fn update(&mut self, msg: &[u8])
        requires
            old(self).ready(),
            old(self).absorbed().len() + msg@.len() <= max_mac_input(),
        ensures
            final(self).wf(),
            final(self).ready(),
            final(self).mac_key() == old(self).mac_key(),
            final(self).absorbed() == old(self).absorbed() + msg@,
    ;

    /// Finishes computing the MAC, returning the tag of everything absorbed.
    fn finish(&mut self) -> (r: Block)
        requires
            old(self).ready(),
        ensures
            final(self).wf(),
            final(self).mac_key() == old(self).mac_key(),
            r@ == Self::mac_spec(old(self).mac_key(), old(self).absorbed()),
    ;
}

} // verus!
