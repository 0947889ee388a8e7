use vstd::prelude::*;

verus! {

/// The 40-bit content fingerprint of a byte string, as the archive library
/// computes it. Its value is a function of the bytes alone; no contract here
/// states what it is on given bytes.
pub uninterp spec fn hash40_of(s: Seq<u8>) -> u64;

/// Relies on smash_arc::hash40: the fingerprint of a string, a function of its
/// bytes alone. The bytes are required to be ASCII so that the conversion to
/// `&str` cannot fail.
#[verifier::external_body]
pub fn hash40_bytes(b: &[u8]) -> (r: u64)
    requires
        forall|i: int| 0 <= i < b@.len() ==> b@[i] < 0x80,
    ensures
        r == hash40_of(b@),
{
    smash_arc::hash40(core::str::from_utf8(b).unwrap()).as_u64()
}

} // verus!
