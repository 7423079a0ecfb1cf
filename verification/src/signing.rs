//! The signature schemes and the text encoding the sidecar file relies on:
//! Ed25519 (`ed25519-dalek`), ML-DSA-65 (`fips204`) and standard Base64
//! (`base64`). Each function here is a thin call into its crate.

use base64::engine::general_purpose::STANDARD as BASE64;
use base64::Engine;
use ed25519_dalek::{Signer, SigningKey, Verifier, VerifyingKey};
use fips204::ml_dsa_65;
use fips204::traits::{SerDes, Signer as MlDsaSigner, Verifier as MlDsaVerifier};
use rand::rngs::OsRng;
use rand::RngCore;
use vstd::prelude::*;

verus! {

/// Length in bytes of an Ed25519 public key.
pub const ED25519_PUBLIC_KEY_LEN: usize = 32;

/// Length in bytes of an Ed25519 signature.
pub const ED25519_SIGNATURE_LEN: usize = 64;

/// Length in bytes of an ML-DSA-65 public key (`fips204::ml_dsa_65::PK_LEN`).
pub const MLDSA65_PUBLIC_KEY_LEN: usize = 1952;

/// Length in bytes of an ML-DSA-65 signature (`fips204::ml_dsa_65::SIG_LEN`).
pub const MLDSA65_SIGNATURE_LEN: usize = 3309;

/// Whether `ed25519-dalek` accepts `signature` on `message` under the
/// 32-byte `public_key`: the key decodes (`VerifyingKey::from_bytes`) and
/// `Verifier::verify` succeeds.
pub uninterp spec fn ed25519_accepts(public_key: Seq<u8>, message: Seq<u8>, signature: Seq<u8>) -> bool;

/// Whether `fips204` accepts `signature` on `message` (empty context) under
/// the ML-DSA-65 `public_key`: the key decodes
/// (`PublicKey::try_from_bytes`) and `Verifier::verify` returns true.
pub uninterp spec fn mldsa65_accepts(public_key: Seq<u8>, message: Seq<u8>, signature: Seq<u8>) -> bool;

/// The symbol of the standard Base64 alphabet for a 6-bit value:
/// `A`-`Z`, `a`-`z`, `0`-`9`, `+`, `/`.
pub open spec fn base64_symbol(v: int) -> char {
    if v < 26 {
        (65 + v) as char
    } else if v < 52 {
        (97 + v - 26) as char
    } else if v < 62 {
        (48 + v - 52) as char
    } else if v == 62 {
        '+'
    } else {
        '/'
    }
}

/// The standard (padded) Base64 text of `bytes` (RFC 4648): each group of
/// three bytes becomes four symbols of six bits each, most significant bits
/// first; a final group of one or two bytes is padded with zero bits and
/// completed with `=`.
pub open spec fn base64_encoding(bytes: Seq<u8>) -> Seq<char>
    decreases bytes.len(),
{
    if bytes.len() == 0 {
        seq![]
    } else if bytes.len() == 1 {
        let b0 = bytes[0] as int;
        seq![base64_symbol(b0 / 4), base64_symbol((b0 % 4) * 16), '=', '=']
    } else if bytes.len() == 2 {
        let b0 = bytes[0] as int;
        let b1 = bytes[1] as int;
        seq![
            base64_symbol(b0 / 4),
            base64_symbol((b0 % 4) * 16 + b1 / 16),
            base64_symbol((b1 % 16) * 4),
            '=',
        ]
    } else {
        let b0 = bytes[0] as int;
        let b1 = bytes[1] as int;
        let b2 = bytes[2] as int;
        seq![
            base64_symbol(b0 / 4),
            base64_symbol((b0 % 4) * 16 + b1 / 16),
            base64_symbol((b1 % 16) * 4 + b2 / 64),
            base64_symbol(b2 % 64),
        ] + base64_encoding(bytes.subrange(3, bytes.len() as int))
    }
}

/// What standard Base64 decoding of `text` gives: the bytes, or `None`
/// when `base64` rejects the text.
pub uninterp spec fn base64_decoding(text: Seq<char>) -> Option<Seq<u8>>;

#[verifier::external_type_specification]
#[verifier::external_body]
pub struct ExRandomError(rand::Error);

/// Draws a 32-byte Ed25519 secret key from the operating system's random
/// source (`RngCore::try_fill_bytes` on `OsRng`), makes the key pair
/// (`SigningKey::from_bytes`, as `SigningKey::generate` does), signs
/// `message` (`Signer::sign`) and returns the public key and signature
/// bytes, or the random source's error. Claimed on success: the lengths,
/// and that the signature verifies under the public key, as ed25519-dalek
/// documents for a signature made with the matching signing key. The key
/// itself is random: nothing else is stated of it, nor of when the random
/// source fails.
#[verifier::external_body]
pub(crate) fn ed25519_generate_and_sign(message: &[u8]) -> (res: Result<(Vec<u8>, Vec<u8>), rand::Error>)
    ensures
        res matches Ok((pk, sig)) ==> {
            &&& pk@.len() == ED25519_PUBLIC_KEY_LEN
            &&& sig@.len() == ED25519_SIGNATURE_LEN
            &&& ed25519_accepts(pk@, message@, sig@)
        },
{
    let mut secret = [0u8; 32];
    OsRng.try_fill_bytes(&mut secret)?;
    let signing_key = SigningKey::from_bytes(&secret);
    let signature = signing_key.sign(message);
    Ok((signing_key.verifying_key().as_bytes().to_vec(), signature.to_bytes().to_vec()))
}

/// Decodes the public key (`VerifyingKey::from_bytes`) and the signature
/// (`Signature::from_bytes`) and calls `Verifier::verify`. Claimed: the
/// result is `ed25519_accepts` of the arguments.
#[verifier::external_body]
pub(crate) fn ed25519_verify(public_key: &[u8], message: &[u8], signature: &[u8]) -> (ok: bool)
    requires
        public_key@.len() == ED25519_PUBLIC_KEY_LEN,
        signature@.len() == ED25519_SIGNATURE_LEN,
    ensures
        ok == ed25519_accepts(public_key@, message@, signature@),
{
    let pk: [u8; 32] = public_key.try_into().unwrap();
    let sig: [u8; 64] = signature.try_into().unwrap();
    match VerifyingKey::from_bytes(&pk) {
        Ok(key) => key.verify(message, &ed25519_dalek::Signature::from_bytes(&sig)).is_ok(),
        Err(_) => false,
    }
}

/// Generates a fresh ML-DSA-65 key pair (`ml_dsa_65::try_keygen`, random)
/// and signs `message` with an empty context (`Signer::try_sign`, which
/// draws randomness too); returns the public key and signature bytes, or
/// the crate's error text. Claimed on success: the lengths, and that the
/// signature verifies under the public key, as FIPS 204 and the crate's
/// documentation state for a pair made this way.
#[verifier::external_body]
pub(crate) fn mldsa65_generate_and_sign(message: &[u8]) -> (res: Result<(Vec<u8>, Vec<u8>), &'static str>)
    ensures
        res matches Ok((pk, sig)) ==> {
            &&& pk@.len() == MLDSA65_PUBLIC_KEY_LEN
            &&& sig@.len() == MLDSA65_SIGNATURE_LEN
            &&& mldsa65_accepts(pk@, message@, sig@)
        },
{
    let (pk, sk) = ml_dsa_65::try_keygen()?;
    let sig = sk.try_sign(message, &[])?;
    Ok((pk.into_bytes().to_vec(), sig.to_vec()))
}

/// Decodes the public key (`PublicKey::try_from_bytes`) and calls
/// `Verifier::verify` with an empty context. Claimed: the result is
/// `mldsa65_accepts` of the arguments.
#[verifier::external_body]
pub(crate) fn mldsa65_verify(public_key: &[u8], message: &[u8], signature: &[u8]) -> (ok: bool)
    requires
        public_key@.len() == MLDSA65_PUBLIC_KEY_LEN,
        signature@.len() == MLDSA65_SIGNATURE_LEN,
    ensures
        ok == mldsa65_accepts(public_key@, message@, signature@),
{
    let pk: [u8; ml_dsa_65::PK_LEN] = public_key.try_into().unwrap();
    let sig: [u8; ml_dsa_65::SIG_LEN] = signature.try_into().unwrap();
    match ml_dsa_65::PublicKey::try_from_bytes(pk) {
        Ok(key) => key.verify(message, &sig, &[]),
        Err(_) => false,
    }
}

/// Calls `Engine::encode` of the standard engine. Claimed: the result is
/// the standard padded Base64 text `base64_encoding(bytes)`, and decoding
/// it gives the bytes back, as the crate documents for its encode/decode
/// pair.
#[verifier::external_body]
pub(crate) fn base64_encode(bytes: &[u8]) -> (text: String)
    ensures
        text@ == base64_encoding(bytes@),
        base64_decoding(text@) == Some(bytes@),
{
    BASE64.encode(bytes)
}

/// Calls `Engine::decode` of the standard engine. Claimed: the result is
/// `base64_decoding(text)`.
#[verifier::external_body]
pub(crate) fn base64_decode(text: &str) -> (res: Option<Vec<u8>>)
    ensures
        match res {
            Some(bytes) => base64_decoding(text@) == Some(bytes@),
            None => base64_decoding(text@) is None,
        },
{
    BASE64.decode(text).ok()
}

} // verus!
