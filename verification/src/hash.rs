//! Trusted shims around the external digest accumulators.
//!
//! Each accumulator is modelled by the sequence of bytes fed to it so far,
//! and each finalized digest is a pure function of that sequence.

use vstd::prelude::*;

verus! {

#[verifier::external_type_specification]
#[verifier::external_body]
pub struct ExCrc32Hasher(crc32fast::Hasher);

#[verifier::external_type_specification]
#[verifier::external_body]
pub struct ExSha1(sha1::Sha1);

#[verifier::external_type_specification]
#[verifier::external_body]
pub struct ExSha256(sha2::Sha256);

/// The bytes fed to a CRC32 accumulator since it was created.
pub uninterp spec fn crc32_fed(h: crc32fast::Hasher) -> Seq<u8>;

/// The CRC32 digest of a byte sequence, as crc32fast computes it.
pub uninterp spec fn crc32_of(data: Seq<u8>) -> u32;

/// The bytes fed to a SHA-1 accumulator since it was created.
pub uninterp spec fn sha1_fed(h: sha1::Sha1) -> Seq<u8>;

/// The SHA-1 digest of a byte sequence, as the sha1 crate computes it.
pub uninterp spec fn sha1_of(data: Seq<u8>) -> Seq<u8>;

/// The bytes fed to a SHA-256 accumulator since it was created.
pub uninterp spec fn sha256_fed(h: sha2::Sha256) -> Seq<u8>;

/// The SHA-256 digest of a byte sequence, as the sha2 crate computes it.
pub uninterp spec fn sha256_of(data: Seq<u8>) -> Seq<u8>;

/// Relies on crc32fast::Hasher::new: a fresh accumulator with nothing fed.
#[verifier::external_body]
pub(crate) fn crc32_hasher_new() -> (h: crc32fast::Hasher)
    ensures
        crc32_fed(h) == Seq::<u8>::empty(),
{
    crc32fast::Hasher::new()
}

/// Relies on crc32fast::Hasher::update: appends the bytes to those already fed.
#[verifier::external_body]
pub(crate) fn crc32_hasher_update(h: &mut crc32fast::Hasher, data: &[u8])
    ensures
        crc32_fed(*final(h)) == crc32_fed(*old(h)) + data@,
{
    h.update(data)
}

/// Relies on crc32fast::Hasher::finalize: the CRC32 of exactly the bytes fed,
/// a function of those bytes alone.
#[verifier::external_body]
pub(crate) fn crc32_hasher_finalize(h: crc32fast::Hasher) -> (r: u32)
    ensures
        r == crc32_of(crc32_fed(h)),
{
    h.finalize()
}

/// Relies on sha1::Digest::new: a fresh accumulator with nothing fed.
#[verifier::external_body]
pub(crate) fn sha1_new() -> (h: sha1::Sha1)
    ensures
        sha1_fed(h) == Seq::<u8>::empty(),
{
    <sha1::Sha1 as sha1::Digest>::new()
}

/// Relies on sha1::Digest::update: appends the bytes to those already fed.
#[verifier::external_body]
pub(crate) fn sha1_update(h: &mut sha1::Sha1, data: &[u8])
    ensures
        sha1_fed(*final(h)) == sha1_fed(*old(h)) + data@,
{
    sha1::Digest::update(h, data)
}

/// Relies on sha1::Digest::finalize: the SHA-1 digest of exactly the bytes
/// fed, a function of those bytes alone.
#[verifier::external_body]
pub(crate) fn sha1_finalize(h: sha1::Sha1) -> (r: Vec<u8>)
    ensures
        r@ == sha1_of(sha1_fed(h)),
{
    sha1::Digest::finalize(h).to_vec()
}

/// Relies on sha2::Digest::new: a fresh accumulator with nothing fed.
#[verifier::external_body]
pub(crate) fn sha256_new() -> (h: sha2::Sha256)
    ensures
        sha256_fed(h) == Seq::<u8>::empty(),
{
    <sha2::Sha256 as sha2::Digest>::new()
}

/// Relies on sha2::Digest::update: appends the bytes to those already fed.
#[verifier::external_body]
pub(crate) fn sha256_update(h: &mut sha2::Sha256, data: &[u8])
    ensures
        sha256_fed(*final(h)) == sha256_fed(*old(h)) + data@,
{
    sha2::Digest::update(h, data)
}

/// Relies on sha2::Digest::finalize: the SHA-256 digest of exactly the bytes
/// fed, a function of those bytes alone.
#[verifier::external_body]
pub(crate) fn sha256_finalize(h: sha2::Sha256) -> (r: Vec<u8>)
    ensures
        r@ == sha256_of(sha256_fed(h)),
{
    sha2::Digest::finalize(h).to_vec()
}

} // verus!
