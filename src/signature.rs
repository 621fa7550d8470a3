//! The admission gate: an ed25519 signature check that answers `false` on
//! malformed keys and signatures instead of failing.
use vstd::prelude::*;

verus! {

/// Whether ed25519 accepts `signature` over `message` under `public_key`.
pub uninterp spec fn ed25519_accepts(public_key: Seq<u8>, signature: Seq<u8>, message: Seq<u8>) -> bool;

/// Relies on ed25519_dalek's `PublicKey::from_bytes`, `Signature::from_bytes`
/// and `Verifier::verify`: a key or signature that does not decode is an
/// error, not a panic, and the answer depends on the three byte strings alone.
#[verifier::external_body]
fn ed25519_verify(public_key: &[u8], signature: &[u8], message: &[u8]) -> (r: bool)
    ensures
        r == ed25519_accepts(public_key@, signature@, message@),
{
    match (ed25519_dalek::PublicKey::from_bytes(public_key), ed25519_dalek::Signature::from_bytes(signature)) {
        (Ok(key), Ok(sig)) => ed25519_dalek::Verifier::verify(&key, message, &sig).is_ok(),
        _ => false,
    }
}

/// The signature check that admits a registration: a 32-byte key, a 64-byte
/// signature, and ed25519's acceptance.
pub open spec fn signature_ok(public_key: Seq<u8>, signature: Seq<u8>, message: Seq<u8>) -> bool {
    &&& public_key.len() == 32
    &&& signature.len() == 64
    &&& ed25519_accepts(public_key, signature, message)
}

/// Checks that `signature` is a valid signature of `data` under `public_key`.
/// Bytes of the wrong length are a failed check.
pub fn check_signature(public_key: &[u8], signature: &[u8], data: &[u8]) -> (r: bool)
    ensures
        r == signature_ok(public_key@, signature@, data@),
{
    if public_key.len() != 32 || signature.len() != 64 {
        return false;
    }
    ed25519_verify(public_key, signature, data)
}

} // verus!
