//! Secure tokens for the login cookie: a random key, encoded as base64,
//! and the base64 of its HMAC-SHA256 under the server's secret.

use vstd::prelude::*;
use hmac::{Hmac, Mac};
use rand::seq::SliceRandom;
use rand::rngs::OsRng;
use rand::SeedableRng;
use rand_chacha::ChaCha20Rng;
use sha2::Sha256;

verus! {

#[verifier::external_type_specification]
#[verifier::external_body]
pub struct ExChaCha20Rng(rand_chacha::ChaCha20Rng);

#[verifier::external_type_specification]
#[verifier::external_body]
pub struct ExRandError(rand::Error);

#[verifier::external_type_specification]
#[verifier::external_body]
pub struct ExDecodeError(base64::DecodeError);

#[verifier::external_type_specification]
#[verifier::external_body]
pub struct ExInvalidLength(hmac::digest::InvalidLength);

/// The standard base64 text, with padding, of `bytes`.
pub uninterp spec fn base64_of(bytes: Seq<u8>) -> Seq<char>;

/// The bytes that the standard base64 text `text` stands for, or none
/// where it is no valid base64.
pub uninterp spec fn base64_decoded(text: Seq<char>) -> Option<Seq<u8>>;

/// The HMAC-SHA256 of `msg` under the key `key`.
pub uninterp spec fn hmac_sha256_of(key: Seq<u8>, msg: Seq<u8>) -> Seq<u8>;

/// A generator seeded from the random source of the operating system.
///
/// Calls `ChaCha20Rng::from_rng` (rand_core's `SeedableRng`) on `OsRng`,
/// which fails where the operating system gives no random bytes. Nothing
/// is claimed of the generator, nor of when the call fails.
#[verifier::external_body]
fn entropy_rng() -> Result<ChaCha20Rng, rand::Error> {
    ChaCha20Rng::from_rng(OsRng)
}

/// Puts the bytes in a random order.
///
/// Calls rand's `SliceRandom::shuffle`, which swaps the bytes in place:
/// the contract claims that the same bytes remain, each as often as
/// before.
#[verifier::external_body]
fn shuffle_bytes(bytes: &mut Vec<u8>, rng: &mut ChaCha20Rng)
    ensures
        final(bytes)@.to_multiset() == old(bytes)@.to_multiset(),
{
    bytes.shuffle(rng);
}

/// The standard base64 text of `bytes`.
///
/// Calls `base64::encode`. The contract names the text, and claims that
/// decoding it gives the bytes back, as the crate's own round-trip tests
/// check for the standard configuration.
#[verifier::external_body]
fn base64_encode(bytes: &[u8]) -> (r: String)
    ensures
        r@ == base64_of(bytes@),
        base64_decoded(r@) == Some(bytes@),
{
    base64::encode(bytes)
}

/// The bytes of the standard base64 text `text`.
///
/// Calls `base64::decode`; the contract says that it fails exactly where
/// the named decoding has no result.
#[verifier::external_body]
fn base64_decode(text: &str) -> (r: Result<Vec<u8>, base64::DecodeError>)
    ensures
        match r {
            Ok(v) => base64_decoded(text@) == Some(v@),
            Err(_) => base64_decoded(text@) is None,
        },
{
    base64::decode(text)
}

/// The HMAC-SHA256 of `msg` under `key`.
///
/// Calls `Hmac::<Sha256>::new_from_slice`, `Mac::update` and
/// `Mac::finalize`. HMAC takes keys of any length, and the source of
/// `new_from_slice` returns `Ok` on every key, which the contract claims.
#[verifier::external_body]
fn hmac_sha256(key: &[u8], msg: &[u8]) -> (r: Result<Vec<u8>, hmac::digest::InvalidLength>)
    ensures
        r is Ok,
        r matches Ok(v) ==> v@ == hmac_sha256_of(key@, msg@),
{
    match Hmac::<Sha256>::new_from_slice(key) {
        Ok(mut mac) => {
            mac.update(msg);
            Ok(mac.finalize().into_bytes().to_vec())
        },
        Err(e) => Err(e),
    }
}

/// Why a token could not be made or checked.
#[derive(Clone, Copy, Debug, PartialEq, Eq, Structural)]
pub enum TokenError {
    /// The HMAC could not be set up with the secret.
    HmacInitError,
    /// The operating system gave no random bytes to seed the generator.
    EntropyUnavailable,
    /// The token is no valid base64.
    InvalidBase64,
}

/// The bytes that a key is made of before it is shuffled: 0 to 254.
pub open spec fn key_bytes() -> Seq<u8> {
    Seq::new(255, |i: int| i as u8)
}

/// What checking the token `token` against the secret `secret` gives: the
/// base64 of the HMAC of the bytes that it encodes, or none where it is no
/// valid base64.
pub open spec fn recreated(secret: Seq<u8>, token: Seq<char>) -> Option<Seq<char>> {
    match base64_decoded(token) {
        Some(key) => Some(base64_of(hmac_sha256_of(secret, key))),
        None => None,
    }
}

/// The token pair of the key `key`: the key encoded as base64, and the
/// base64 of its HMAC-SHA256 under `secret`.
pub fn secure_token_for_key(secret: &[u8], key: &[u8]) -> (r: Result<(String, String), TokenError>)
    ensures
        r is Ok,
        r matches Ok((token, hashed)) ==> {
            &&& token@ == base64_of(key@)
            &&& base64_decoded(token@) == Some(key@)
            &&& hashed@ == base64_of(hmac_sha256_of(secret@, key@))
        },
{
    let token = base64_encode(key);
    match hmac_sha256(secret, key) {
        Ok(mac) => {
            let hashed = base64_encode(mac.as_slice());
            Ok((token, hashed))
        },
        Err(_) => Err(TokenError::HmacInitError),
    }
}

/// Generates a secure token that can be used as a cookie token: a random
/// order of the bytes 0 to 254, encoded as base64, and the base64 of its
/// HMAC-SHA256 under `secret`. It fails only where the operating system
/// gives no random bytes.
pub fn generate_secure_token(secret: &[u8]) -> (r: Result<(String, String), TokenError>)
    ensures
        r matches Ok((token, hashed)) ==> exists|key: Seq<u8>| {
            &&& key.to_multiset() == key_bytes().to_multiset()
            &&& token@ == base64_of(key)
            &&& base64_decoded(token@) == Some(key)
            &&& hashed@ == base64_of(hmac_sha256_of(secret@, key))
        },
        r is Err ==> r == Err::<(String, String), TokenError>(TokenError::EntropyUnavailable),
{
    let mut rng = match entropy_rng() {
        Ok(g) => g,
        Err(_) => return Err(TokenError::EntropyUnavailable),
    };
    let mut key: Vec<u8> = Vec::new();
    let mut b: u8 = 0;
    while b < 255
        invariant
            b <= 255,
            key@ == key_bytes().take(b as int),
        decreases 255 - b,
    {
        key.push(b);
        b += 1;
        assert(key@ =~= key_bytes().take(b as int));
    }
    assert(key@ =~= key_bytes());
    shuffle_bytes(&mut key, &mut rng);
    secure_token_for_key(secret, key.as_slice())
}

/// The hashed form of a token that `generate_secure_token` handed out:
/// the base64 of the HMAC-SHA256, under `secret`, of the bytes that the
/// token encodes.
pub fn recreate_secure_token(secret: &[u8], token: &str) -> (r: Result<String, TokenError>)
    ensures
        match recreated(secret@, token@) {
            Some(h) => r matches Ok(s) && s@ == h,
            None => r == Err::<String, TokenError>(TokenError::InvalidBase64),
        },
{
    let key = match base64_decode(token) {
        Ok(k) => k,
        Err(_) => return Err(TokenError::InvalidBase64),
    };
    match hmac_sha256(secret, key.as_slice()) {
        Ok(mac) => Ok(base64_encode(mac.as_slice())),
        Err(_) => Err(TokenError::HmacInitError),
    }
}

/// A token that `generate_secure_token` handed out checks out: recreating
/// it under the same secret gives the hashed form that was handed out
/// with it.
pub proof fn lemma_token_recreates(secret: Seq<u8>, key: Seq<u8>, token: Seq<char>, hashed: Seq<char>)
    requires
        token == base64_of(key),
        base64_decoded(token) == Some(key),
        hashed == base64_of(hmac_sha256_of(secret, key)),
    ensures
        recreated(secret, token) == Some(hashed),
{
}

} // verus!
