use vstd::prelude::*;

verus! {

#[verifier::external_type_specification]
#[verifier::external_body]
pub struct ExHasher(crc32fast::Hasher);

/// The crc-32 (IEEE) checksum of a byte sequence, as crc32fast computes it:
/// a function of the bytes alone.
pub uninterp spec fn crc32_of(data: Seq<u8>) -> u32;

/// The bytes folded so far into a running crc32fast hasher, in order.
pub uninterp spec fn hashed(h: crc32fast::Hasher) -> Seq<u8>;

/// Relies on crc32fast::Hasher::new: a fresh hasher has folded no bytes.
#[verifier::external_body]
pub fn crc_new() -> (h: crc32fast::Hasher)
    ensures
        hashed(h) == Seq::<u8>::empty(),
{
    crc32fast::Hasher::new()
}

/// Relies on crc32fast::Hasher::update: folds the given bytes, in order,
/// after those folded before.
#[verifier::external_body]
pub fn crc_update(h: &mut crc32fast::Hasher, data: &[u8])
    ensures
        hashed(*final(h)) == hashed(*old(h)) + data@,
{
    h.update(data)
}

/// Relies on crc32fast::Hasher::finalize: returns the crc-32 of exactly the
/// bytes folded in.
#[verifier::external_body]
pub fn crc_finalize(h: crc32fast::Hasher) -> (r: u32)
    ensures
        r == crc32_of(hashed(h)),
{
    h.finalize()
}

} // verus!
