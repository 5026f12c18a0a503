//! Keys that leave no trace in memory.
use vstd::prelude::*;
use zeroize::Zeroize;

verus! {

/// A 256-bit key whose memory is overwritten with zeros when it is dropped.
pub struct SecretKey {
    pub(crate) bytes: [u8; 32],
}

impl View for SecretKey {
    type V = Seq<u8>;

    closed spec fn view(&self) -> Seq<u8> {
        self.bytes@
    }
}

/// `Zeroize::zeroize` on an array: overwrites every byte with zero.
#[verifier::external_body]
pub(crate) fn wipe(bytes: &mut [u8; 32])
    ensures
        final(bytes)@ == Seq::new(32, |i: int| 0u8),
    opens_invariants none
    no_unwind
{
    bytes.zeroize();
}

impl SecretKey {
    /// A copy of the key's bytes, which is not wiped by itself.
    pub fn to_bytes(&self) -> (bytes: [u8; 32])
        ensures
            bytes@ == self@,
    {
        self.bytes
    }
}

impl Drop for SecretKey {
    fn drop(&mut self)
        ensures
            final(self)@ == Seq::new(32, |i: int| 0u8),
        opens_invariants none
        no_unwind
    {
        wipe(&mut self.bytes);
    }
}

} // verus!
