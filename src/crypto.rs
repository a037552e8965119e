//! Hashing and signature recovery, provided by outside crates.
use vstd::prelude::*;

verus! {

/// The Keccak-256 digest of a byte string.
pub uninterp spec fn keccak256_of(data: Seq<u8>) -> Seq<u8>;

/// The 65-byte uncompressed public key recovered from a 32-byte digest, a
/// 64-byte `r || s` signature and a recovery id, if recovery succeeds.
pub uninterp spec fn recovered_key_of(digest: Seq<u8>, signature: Seq<u8>, recovery_id: u8) -> Option<Seq<u8>>;

/// Relies on tiny_keccak's `Keccak::v256`: the 32-byte Keccak-256 digest of `data`.
#[verifier::external_body]
pub(crate) fn keccak256(data: &[u8]) -> (r: Vec<u8>)
    ensures
        r@ == keccak256_of(data@),
        r@.len() == 32,
{
    let mut hasher = tiny_keccak::Keccak::v256();
    tiny_keccak::Hasher::update(&mut hasher, data);
    let mut out = [0u8; 32];
    tiny_keccak::Hasher::finalize(hasher, &mut out);
    out.to_vec()
}

/// Relies on libsecp256k1's `recover`: the signer's public key, serialized in
/// its 65-byte uncompressed form, or nothing when the signature does not parse
/// as a standard one or no key can be recovered.
#[verifier::external_body]
pub(crate) fn recover_public_key(digest: &[u8], signature: &[u8], recovery_id: u8) -> (r: Option<Vec<u8>>)
    requires
        digest@.len() == 32,
        signature@.len() == 64,
        recovery_id < 4,
    ensures
        r matches Some(k) ==> recovered_key_of(digest@, signature@, recovery_id) == Some(k@) && k@.len() == 65,
        r is None ==> recovered_key_of(digest@, signature@, recovery_id) is None,
{
    let message = libsecp256k1::Message::parse_slice(digest).ok()?;
    let sig = libsecp256k1::Signature::parse_standard_slice(signature).ok()?;
    let rec = libsecp256k1::RecoveryId::parse(recovery_id).ok()?;
    libsecp256k1::recover(&message, &sig, &rec).ok().map(|k| k.serialize().to_vec())
}

} // verus!
