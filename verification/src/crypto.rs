//! Trusted boundary around the secp256k1 primitives.
//!
//! Every cryptographic operation the engine performs goes through one of the
//! wrappers below.  Deterministic results (public keys, derivations, hashes,
//! decryption, signature verification) are named by uninterpreted spec
//! functions, so contracts elsewhere can speak of them exactly; operations
//! involving randomness (key generation, signing, encryption) state only what
//! holds of every outcome.

use vstd::prelude::*;

use easy_secp256k1::{EasyHash, EasyPublicKey, EasySecretKey};

verus! {

/// Failure of a cryptographic operation: the key bytes do not form a valid
/// key, or a payload cannot be decrypted or parsed.
#[derive(Clone, Copy, Debug, PartialEq, Eq, Structural)]
pub enum CryptoError {
    InvalidKey,
    InvalidMessage,
}

/// The compressed public key of a secret key, or `None` if the bytes are not
/// a valid secp256k1 secret key.
pub uninterp spec fn public_of(sk: Seq<u8>) -> Option<Seq<u8>>;

/// The BIP32-style hardened derivation of a secret key along a list of
/// indices, or `None` if the key is invalid or an index exceeds `2^31 - 1`.
pub uninterp spec fn derive_of(sk: Seq<u8>, path: Seq<u32>) -> Option<Seq<u8>>;

/// The tagged SHA-256 hash of a byte string.
pub uninterp spec fn hash_of(data: Seq<u8>) -> Seq<u8>;

/// The plaintext recovered by ECIES decryption with a secret key, or `None`
/// if the key is invalid, the ciphertext is malformed, or it was encrypted
/// to a different key.
pub uninterp spec fn decrypt_of(sk: Seq<u8>, ct: Seq<u8>) -> Option<Seq<u8>>;

/// Whether a Schnorr signature over the hash of a payload verifies under a
/// compressed public key.
pub uninterp spec fn verify_of(pk: Seq<u8>, sig: Seq<u8>, msg: Seq<u8>) -> bool;

/// Relies on secp256k1::SecretKey::from_byte_array and easy_secp256k1's
/// EasySecretKey::easy_public_key: the serialized compressed public key (33
/// bytes) is a function of the secret key bytes alone; invalid bytes are
/// rejected by from_byte_array.
#[verifier::external_body]
pub fn public_key(sk: &Vec<u8>) -> (r: Result<Vec<u8>, CryptoError>)
    ensures
        match r {
            Ok(p) => public_of(sk@) == Some(p@) && p@.len() == 33 && sk@.len() == 32,
            Err(_) => public_of(sk@) is None,
        },
{
    let arr: [u8; 32] = sk.as_slice().try_into().map_err(|_| CryptoError::InvalidKey)?;
    let key = secp256k1::SecretKey::from_byte_array(arr).map_err(|_| CryptoError::InvalidKey)?;
    Ok(key.easy_public_key().serialize().to_vec())
}

/// Relies on easy_secp256k1's EasySecretKey::easy_derive: hardened BIP32
/// derivation is a function of the secret key bytes and the index list, it
/// yields another valid 32-byte secret key, and it fails exactly when the
/// key bytes are invalid or an index has the hardened bit set.
#[verifier::external_body]
pub fn derive_key(sk: &Vec<u8>, path: &Vec<u32>) -> (r: Result<Vec<u8>, CryptoError>)
    ensures
        match r {
            Ok(k) => derive_of(sk@, path@) == Some(k@) && k@.len() == 32 && public_of(k@) is Some,
            Err(_) => derive_of(sk@, path@) is None,
        },
{
    let arr: [u8; 32] = sk.as_slice().try_into().map_err(|_| CryptoError::InvalidKey)?;
    let key = secp256k1::SecretKey::from_byte_array(arr).map_err(|_| CryptoError::InvalidKey)?;
    let derived = key.easy_derive(path).map_err(|_| CryptoError::InvalidKey)?;
    Ok(derived.secret_bytes().to_vec())
}

/// Relies on easy_secp256k1's EasyHash (a tagged SHA-256): the digest is 32
/// bytes and is a function of the input bytes alone, identical on every
/// machine.
#[verifier::external_body]
pub fn hash_bytes(data: &Vec<u8>) -> (r: Vec<u8>)
    ensures
        r@ == hash_of(data@),
        r@.len() == 32,
{
    let digest: EasyHash = EasyHash::hash(data.as_slice());
    let bytes: &[u8] = digest.as_ref();
    bytes.to_vec()
}

/// Relies on easy_secp256k1's EasySecretKey::easy_new: every generated key
/// is a valid 32-byte secret key.  The value itself is random; nothing more
/// is stated of it.
#[verifier::external_body]
pub fn gen_secret() -> (r: Vec<u8>)
    ensures
        r@.len() == 32,
        public_of(r@) is Some,
{
    let key: secp256k1::SecretKey = EasySecretKey::easy_new();
    key.secret_bytes().to_vec()
}

/// Relies on secp256k1's rand re-export: 32 uniformly random bytes.
#[verifier::external_body]
pub fn random_bytes32() -> (r: Vec<u8>)
    ensures
        r@.len() == 32,
{
    let bytes: [u8; 32] = secp256k1::rand::random();
    bytes.to_vec()
}

/// Relies on easy_secp256k1's EasyPublicKey::easy_encrypt (ECIES with an
/// ephemeral key): the ciphertext is random, but decrypting it with the
/// secret key matching the recipient public key recovers the payload.
/// Encryption fails only when the recipient bytes parse as no public key,
/// so they are no secret key's public half.
#[verifier::external_body]
pub fn ecies_encrypt(pk: &Vec<u8>, payload: Vec<u8>) -> (r: Result<Vec<u8>, CryptoError>)
    ensures
        match r {
            Ok(ct) => forall|sk: Seq<u8>|
                public_of(sk) == Some(pk@) ==> #[trigger] decrypt_of(sk, ct@) == Some(payload@),
            Err(_) => !(exists|sk: Seq<u8>| #[trigger] public_of(sk) == Some(pk@)),
        },
{
    let key = secp256k1::PublicKey::from_slice(pk).map_err(|_| CryptoError::InvalidKey)?;
    key.easy_encrypt(payload).map_err(|_| CryptoError::InvalidMessage)
}

/// Relies on easy_secp256k1's EasySecretKey::easy_decrypt: the plaintext is
/// a function of the secret key bytes and the ciphertext alone, and
/// malformed or mismatched inputs are rejected.
#[verifier::external_body]
pub fn ecies_decrypt(sk: &Vec<u8>, ct: &Vec<u8>) -> (r: Result<Vec<u8>, CryptoError>)
    ensures
        match r {
            Ok(p) => decrypt_of(sk@, ct@) == Some(p@),
            Err(_) => decrypt_of(sk@, ct@) is None,
        },
{
    let arr: [u8; 32] = sk.as_slice().try_into().map_err(|_| CryptoError::InvalidKey)?;
    let key = secp256k1::SecretKey::from_byte_array(arr).map_err(|_| CryptoError::InvalidKey)?;
    key.easy_decrypt(ct).map_err(|_| CryptoError::InvalidMessage)
}

/// Relies on easy_secp256k1's EasySecretKey::easy_sign: signing uses
/// auxiliary randomness, so only this is stated: a produced signature is 64
/// bytes and verifies under the signer's public key, and signing fails
/// exactly when the secret key bytes are invalid.
#[verifier::external_body]
pub fn schnorr_sign(sk: &Vec<u8>, msg: &Vec<u8>) -> (r: Result<Vec<u8>, CryptoError>)
    ensures
        match r {
            Ok(sig) => {
                &&& sig@.len() == 64
                &&& public_of(sk@) is Some
                &&& verify_of(public_of(sk@)->Some_0, sig@, msg@)
            },
            Err(_) => public_of(sk@) is None,
        },
{
    let arr: [u8; 32] = sk.as_slice().try_into().map_err(|_| CryptoError::InvalidKey)?;
    let key = secp256k1::SecretKey::from_byte_array(arr).map_err(|_| CryptoError::InvalidKey)?;
    Ok(key.easy_sign(msg).to_byte_array().to_vec())
}

/// Relies on easy_secp256k1's EasyPublicKey::easy_verify: Schnorr
/// verification is a function of the public key bytes, the signature bytes
/// and the payload; unparsable keys or signatures verify nothing.
#[verifier::external_body]
pub fn schnorr_verify(pk: &Vec<u8>, sig: &Vec<u8>, msg: &Vec<u8>) -> (r: bool)
    ensures
        r == verify_of(pk@, sig@, msg@),
{
    let key = match secp256k1::PublicKey::from_slice(pk) {
        Ok(k) => k,
        Err(_) => {
            return false;
        },
    };
    let arr: [u8; 64] = match sig.as_slice().try_into() {
        Ok(a) => a,
        Err(_) => {
            return false;
        },
    };
    let signature = secp256k1::schnorr::Signature::from_byte_array(arr);
    key.easy_verify(&signature, msg).is_ok()
}

/// Relies on chrono::Utc::now: the current Unix timestamp in seconds.  On
/// a host clock set before 1970 it is negative, so nothing is promised of
/// its sign; callers of the service clamp or check it.
#[verifier::external_body]
pub fn now() -> (t: i64)
{
    chrono::Utc::now().timestamp()
}

/// One lowercase hexadecimal digit.
pub open spec fn hex_digit(n: u8) -> char {
    if n == 0 {
        '0'
    } else if n == 1 {
        '1'
    } else if n == 2 {
        '2'
    } else if n == 3 {
        '3'
    } else if n == 4 {
        '4'
    } else if n == 5 {
        '5'
    } else if n == 6 {
        '6'
    } else if n == 7 {
        '7'
    } else if n == 8 {
        '8'
    } else if n == 9 {
        '9'
    } else if n == 10 {
        'a'
    } else if n == 11 {
        'b'
    } else if n == 12 {
        'c'
    } else if n == 13 {
        'd'
    } else if n == 14 {
        'e'
    } else {
        'f'
    }
}

/// The lowercase hexadecimal form of a byte string, high nibble first.
pub open spec fn hex_of(bytes: Seq<u8>) -> Seq<char>
    decreases bytes.len(),
{
    if bytes.len() == 0 {
        Seq::empty()
    } else {
        seq![hex_digit((bytes[0] / 16) as u8), hex_digit((bytes[0] % 16) as u8)] + hex_of(
            bytes.drop_first(),
        )
    }
}

/// Relies on hex::encode: two lowercase digits for each byte, high nibble
/// first.
#[verifier::external_body]
pub fn hex_encode(bytes: &Vec<u8>) -> (r: String)
    ensures
        r@ == hex_of(bytes@),
{
    hex::encode(bytes)
}

} // verus!
