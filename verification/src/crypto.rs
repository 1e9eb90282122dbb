//! Cryptographic primitives: message digesting, ECDSA signing and
//! verification, and structural address checks.
//!
//! The computations themselves are done by the `sha256`, `secp256k1` and
//! `hex` crates; each is reached through a single trusted wrapper whose
//! contract names its result. All key material crosses this boundary as
//! plain hex strings: a secret key as 64 hex characters, a public key
//! (an address) as the hex encoding of a curve point, a signature as the
//! hex encoding of its DER serialization, and a message as the 64-hex-digit
//! SHA-256 digest that is signed.

use vstd::prelude::*;

verus! {

/// The lowercase hex SHA-256 digest of the given characters.
pub uninterp spec fn sha256_hex(data: Seq<char>) -> Seq<char>;

/// The hex DER signature that deterministic (RFC6979) ECDSA signing
/// produces for the given hex digest under the given hex secret key;
/// `None` when the secret key is not a valid key encoding or the message
/// is not a 32-byte hex digest.
pub uninterp spec fn ecdsa_sign_hex(msg_hex: Seq<char>, sk_hex: Seq<char>) -> Option<Seq<char>>;

/// Whether the hex DER signature is a valid ECDSA signature for the given
/// hex digest under the given hex public key; false whenever any of the
/// three does not parse.
pub uninterp spec fn ecdsa_verify_hex(
    msg_hex: Seq<char>,
    sig_hex: Seq<char>,
    pk_hex: Seq<char>,
) -> bool;

/// The hex encoding of the public key derived from the given hex secret
/// key; `None` when the secret key does not parse.
pub uninterp spec fn pk_of_secret(sk_hex: Seq<char>) -> Option<Seq<char>>;

/// Whether the given characters are a valid hex encoding of a secp256k1
/// public key (the structural validity of an address).
pub uninterp spec fn is_pubkey_hex(addr: Seq<char>) -> bool;

/// Relies on `sha256::digest`: the lowercase hex SHA-256 of the input,
/// a function of the input characters alone, always 64 characters long.
#[verifier::external_body]
pub(crate) fn sha256_digest(data: &str) -> (r: String)
    ensures
        r@ == sha256_hex(data@),
        r@.len() == 64,
{
    sha256::digest(data)
}

/// Relies on `secp256k1::ecdsa::sign` (RFC6979, deterministic in digest and
/// key), on `SecretKey`'s `FromStr` and on `Signature`'s `Display`; the
/// secp256k1 ecdsa module documents that the produced signature verifies
/// under the public key derived from the same secret key.
#[verifier::external_body]
pub(crate) fn ecdsa_sign(msg_hex: &str, sk_hex: &str) -> (r: Option<String>)
    ensures
        r is Some <==> ecdsa_sign_hex(msg_hex@, sk_hex@) is Some,
        r matches Some(sig) ==> ecdsa_sign_hex(msg_hex@, sk_hex@) == Some(sig@),
        r is Some ==> pk_of_secret(sk_hex@) is Some,
        r matches Some(sig) ==> ecdsa_verify_hex(msg_hex@, sig@, pk_of_secret(sk_hex@)->0),
{
    let sk: secp256k1::SecretKey = sk_hex.parse().ok()?;
    let bytes = hex::decode(msg_hex).ok()?;
    let digest: [u8; 32] = bytes.try_into().ok()?;
    let sig = secp256k1::ecdsa::sign(secp256k1::Message::from_digest(digest), &sk);
    Some(sig.to_string())
}

/// Relies on `secp256k1::ecdsa::verify`, on `Signature`'s and `PublicKey`'s
/// `FromStr` and on `hex::decode`: accepts exactly the valid signatures for
/// the digest under the public key, a function of its arguments alone.
#[verifier::external_body]
pub(crate) fn ecdsa_verify(msg_hex: &str, sig_hex: &str, pk_hex: &str) -> (r: bool)
    ensures
        r == ecdsa_verify_hex(msg_hex@, sig_hex@, pk_hex@),
{
    let Ok(bytes) = hex::decode(msg_hex) else { return false };
    let Ok(digest) = <[u8; 32]>::try_from(bytes) else { return false };
    let Ok(sig) = sig_hex.parse::<secp256k1::ecdsa::Signature>() else { return false };
    let Ok(pk) = pk_hex.parse::<secp256k1::PublicKey>() else { return false };
    secp256k1::ecdsa::verify(&sig, secp256k1::Message::from_digest(digest), &pk).is_ok()
}

/// Relies on `secp256k1::PublicKey::from_secret_key` and on `PublicKey`'s
/// `Display` (compressed-point hex): a function of the secret key alone.
#[verifier::external_body]
pub(crate) fn public_key_for(sk_hex: &str) -> (r: Option<String>)
    ensures
        r is Some <==> pk_of_secret(sk_hex@) is Some,
        r matches Some(pk) ==> pk_of_secret(sk_hex@) == Some(pk@),
{
    let sk: secp256k1::SecretKey = sk_hex.parse().ok()?;
    Some(secp256k1::PublicKey::from_secret_key(&sk).to_string())
}

/// Relies on `secp256k1::PublicKey`'s `FromStr`: whether the string is a
/// hex encoding of a point on the curve, a function of the string alone.
#[verifier::external_body]
pub(crate) fn parse_public_key(addr: &str) -> (r: bool)
    ensures
        r == is_pubkey_hex(addr@),
{
    addr.parse::<secp256k1::PublicKey>().is_ok()
}

} // verus!
