//! S2V (RFC 5297, section 2.4): a vector of strings to one 128-bit value, by
//! doubling and XORing the outputs of a MAC used as a pseudorandom function.

use crate::block::{dbl_spec, xor_seq, zero_block, Block, SIZE};
use crate::cmac::pad_spec;
use crate::lemmas::lemma_xor_byte;
use crate::mac::{max_mac_input, Mac};
use vstd::prelude::*;

verus! {

/// Maximum number of associated data items.
pub const MAX_ASSOCIATED_DATA: usize = 126;

/// The contents of each of a sequence of byte slices.
pub open spec fn views(items: Seq<&[u8]>) -> Seq<Seq<u8>> {
    items.map_values(|h: &[u8]| h@)
}

/// The S2V accumulator after the headers: the tag of the zero block, then for
/// each header the accumulator doubled and XORed with the header's tag.
pub open spec fn s2v_headers<M: Mac>(key: Seq<u8>, headers: Seq<Seq<u8>>) -> Seq<u8>
    decreases headers.len(),
{
    if headers.len() == 0 {
        M::mac_spec(key, zero_block())
    } else {
        xor_seq(
            dbl_spec(s2v_headers::<M>(key, headers.drop_last())),
            M::mac_spec(key, headers.last()),
        )
    }
}

/// The last MAC input of S2V: a message of 16 bytes or more with its last 16
/// bytes XORed with the accumulator; a shorter one padded and XORed into the
/// doubled accumulator.
pub open spec fn s2v_final_input(d: Seq<u8>, msg: Seq<u8>) -> Seq<u8> {
    if msg.len() >= 16 {
        msg.subrange(0, msg.len() - 16) + xor_seq(d, msg.subrange(msg.len() - 16, msg.len() as int))
    } else {
        xor_seq(dbl_spec(d), pad_spec(msg))
    }
}

/// The S2V output for the given headers and message.
pub open spec fn s2v_spec<M: Mac>(key: Seq<u8>, headers: Seq<Seq<u8>>, msg: Seq<u8>) -> Seq<u8> {
    M::mac_spec(key, s2v_final_input(s2v_headers::<M>(key, headers), msg))
}

/// The inputs that S2V accepts: at most `MAX_ASSOCIATED_DATA` headers, and every
/// string within what one MAC computation takes.
pub open spec fn s2v_input_ok(headers: Seq<Seq<u8>>, msg: Seq<u8>) -> bool {
    &&& headers.len() <= MAX_ASSOCIATED_DATA
    &&& forall|i: int| 0 <= i < headers.len() ==> #[trigger] headers[i].len() <= max_mac_input()
    &&& msg.len() <= max_mac_input()
}

/// Performs the S2V double-and-XOR chain over the given MAC.
pub fn s2v<M: Mac>(mac: &mut M, headers: &[&[u8]], message: &[u8]) -> (r: Block)
    requires
        old(mac).wf(),
        s2v_input_ok(views(headers@), message@),
    ensures
        final(mac).wf(),
        final(mac).mac_key() == old(mac).mac_key(),
        r@ == s2v_spec::<M>(old(mac).mac_key(), views(headers@), message@),
{
    let ghost key = mac.mac_key();
    let ghost hs = views(headers@);
    let zero = Block::new();
    mac.reset();
    mac.update(zero.as_slice());
    assert(mac.absorbed() =~= zero_block());
    let mut state = mac.finish();
    let mut i: usize = 0;
    while i < headers.len()
        invariant
            mac.wf(),
            mac.mac_key() == key,
            hs == views(headers@),
            s2v_input_ok(hs, message@),
            0 <= i <= headers@.len(),
            state@ == s2v_headers::<M>(key, hs.subrange(0, i as int)),
        decreases headers@.len() - i,
    {
        let header: &[u8] = headers[i];
        assert(header@ == hs[i as int]);
        state.dbl();
        mac.reset();
        mac.update(header);
        assert(mac.absorbed() =~= header@);
        let code = mac.finish();
        state.xor_in_place(code.as_slice());
        proof {
            assert(hs.subrange(0, i + 1).drop_last() =~= hs.subrange(0, i as int));
            assert(hs.subrange(0, i + 1).last() == header@);
        }
        i += 1;
    }
    assert(hs.subrange(0, headers@.len() as int) =~= hs);
    let ghost d = state@;
    let len = message.len();
    mac.reset();
    if len >= SIZE {
        let n = len - SIZE;
        mac.update(&message[0..n]);
        state.xor_in_place(&message[n..len]);
        mac.update(state.as_slice());
        assert(mac.absorbed() =~= s2v_final_input(d, message@));
    } else {
        state.dbl();
        let ghost dd = state@;
        let mut j: usize = 0;
        while j < len
            invariant
                len == message@.len(),
                len < 16,
                state@.len() == 16,
                0 <= j <= len,
                forall|k: int| 0 <= k < j ==> state@[k] == dd[k] ^ message@[k],
                forall|k: int| j <= k < 16 ==> state@[k] == dd[k],
            decreases len - j,
        {
            state.0[j] = state.0[j] ^ message[j];
            j += 1;
        }
        state.0[len] = state.0[len] ^ 0x80;
        proof {
            assert forall|k: int| 0 <= k < 16 implies #[trigger] state@[k] == xor_seq(
                dd,
                pad_spec(message@),
            )[k] by {
                lemma_xor_byte(dd[k], 0, 0);
            }
            assert(state@ =~= s2v_final_input(d, message@));
        }
        mac.update(state.as_slice());
        assert(mac.absorbed() =~= s2v_final_input(d, message@));
    }
    mac.finish()
}

} // verus!
