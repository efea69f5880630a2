//! A buffer that handles the slicing of AEAD messages into their tag and
//! message parts.

use vstd::prelude::*;

verus! {

/// Size of the tag at the front of a message, in bytes.
pub const TAG_SIZE: usize = 16;

/// A buffer holding a tag-prefixed AEAD message, with slices of its tag and
/// message parts.
pub struct Buffer(Vec<u8>);

impl View for Buffer {
    type V = Seq<u8>;

    closed spec fn view(&self) -> Seq<u8> {
        self.0@
    }
}

impl Buffer {
    /// Wraps the given bytes, which must be long enough to hold a tag.
    pub fn new(value: Vec<u8>) -> (r: Buffer)
        requires
            value@.len() >= TAG_SIZE,
        ensures
            r@ == value@,
    {
        Buffer(value)
    }

    /// The entire message buffer as a slice.
    pub fn as_slice(&self) -> (r: &[u8])
        ensures
            r@ == self@,
    {
        self.0.as_slice()
    }

    /// The entire message buffer as a mutable slice.
    pub fn as_mut_slice(&mut self) -> (r: &mut [u8])
        ensures
            r@ == old(self)@,
            final(self)@ == final(r)@,
    {
        self.0.as_mut_slice()
    }

    /// The message part: the plaintext, or the ciphertext without its tag.
    pub fn msg_slice(&self) -> (r: &[u8])
        requires
            self@.len() >= TAG_SIZE,
        ensures
            r@ == self@.subrange(16, self@.len() as int),
    {
        let s = self.0.as_slice();
        &s[TAG_SIZE..s.len()]
    }

    /// The message part, mutable.
    pub fn mut_msg_slice(&mut self) -> (r: &mut [u8])
        requires
            old(self)@.len() >= TAG_SIZE,
        ensures
            r@ == old(self)@.subrange(16, old(self)@.len() as int),
            final(self)@ == old(self)@.subrange(0, 16) + final(r)@,
    {
        let (_tag, msg) = self.0.as_mut_slice().split_at_mut(TAG_SIZE);
        msg
    }

    /// The tag part.
    pub fn tag_slice(&self) -> (r: &[u8])
        requires
            self@.len() >= TAG_SIZE,
        ensures
            r@ == self@.subrange(0, 16),
    {
        let s = self.0.as_slice();
        &s[0..TAG_SIZE]
    }

    /// The tag part, mutable.
    pub fn mut_tag_slice(&mut self) -> (r: &mut [u8])
        requires
            old(self)@.len() >= TAG_SIZE,
        ensures
            r@ == old(self)@.subrange(0, 16),
            final(self)@ == final(r)@ + old(self)@.subrange(16, old(self)@.len() as int),
    {
        let (tag, _msg) = self.0.as_mut_slice().split_at_mut(TAG_SIZE);
        tag
    }

    /// The bytes this buffer wraps.
    pub fn into_contents(self) -> (r: Vec<u8>)
        ensures
            r@ == self@,
    {
        self.0
    }
}

} // verus!
