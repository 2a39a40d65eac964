use vstd::prelude::*;

verus! {

/// A running CRC-32 (ISO-HDLC) computation of the `crc` crate, together with
/// the `crc::Crc` it borrows from.
///
/// The value is opaque to the verifier: what is known of it is said by
/// [`digest_fed`] and by the contracts of the functions below.
#[verifier::external_body]
pub struct Crc32Digest {
    engine: &'static crc::Crc<u32>,
    inner: crc::Digest<'static, u32>,
}

/// The CRC-32 (ISO-HDLC, the one GZIP uses) of a byte string: what
/// `crc::Digest::finalize` returns once exactly these bytes were fed.
pub uninterp spec fn crc32_of(bytes: Seq<u8>) -> u32;

/// The bytes that a digest has been fed since it was started.
pub uninterp spec fn digest_fed(d: Crc32Digest) -> Seq<u8>;

/// Builds a `crc::Crc<u32>` for `CRC_32_ISO_HDLC` that lives as long as the
/// process, and starts a digest on it with `Crc::digest`. The contract claims
/// that the new digest has been fed nothing.
#[verifier::external_body]
pub(crate) fn digest_new() -> (d: Crc32Digest)
    ensures
        digest_fed(d) == Seq::<u8>::empty(),
{
    let engine: &'static crc::Crc<u32> =
        Box::leak(Box::new(crc::Crc::<u32>::new(&crc::CRC_32_ISO_HDLC)));
    Crc32Digest { engine, inner: engine.digest() }
}

/// Calls `crc::Digest::update` with the one byte. The contract claims that
/// the byte is appended to what the digest has been fed.
#[verifier::external_body]
pub(crate) fn digest_update(d: &mut Crc32Digest, byte: u8)
    ensures
        digest_fed(*final(d)) == digest_fed(*old(d)).push(byte),
{
    d.inner.update(&[byte]);
}

/// Calls `crc::Digest::finalize` on a copy of the digest. The contract
/// claims that the result is the CRC-32 of the bytes fed so far.
#[verifier::external_body]
pub(crate) fn digest_sum(d: &Crc32Digest) -> (sum: u32)
    ensures
        sum == crc32_of(digest_fed(*d)),
{
    d.inner.clone().finalize()
}

/// Replaces the running digest by a fresh one from `Crc::digest` on the same
/// engine. The contract claims that the digest has then been fed nothing.
#[verifier::external_body]
pub(crate) fn digest_restart(d: &mut Crc32Digest)
    ensures
        digest_fed(*final(d)) == Seq::<u8>::empty(),
{
    d.inner = d.engine.digest();
}

} // verus!
