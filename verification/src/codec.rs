//! The content codec: text is sealed with AES-256-GCM under a fresh nonce and
//! kept as hexadecimal text of the nonce followed by the sealed bytes.

use aes_gcm::aead::{Aead, KeyInit};
use aes_gcm::{Aes256Gcm, Nonce};
use vstd::prelude::*;
use vstd::slice::*;
use vstd::string::*;
use vstd::utf8::*;

use crate::entropy::random_bytes;
use crate::error::AppError;
use crate::hex::{decode_hex, encode_hex, hex_decode, hex_encode, lemma_hex_round_trip};

verus! {

/// Bytes in a nonce.
pub const NONCE_LEN: usize = 12;

/// The longest payload, in bytes, that the cipher seals.
pub const MAX_PLAINTEXT_BYTES: u64 = 68_719_476_736;

/// What AES-256-GCM, with no associated data, makes of `plaintext` under `key` and `nonce`:
/// the encrypted bytes followed by the tag.
pub uninterp spec fn aes256_gcm_seal(key: Seq<u8>, nonce: Seq<u8>, plaintext: Seq<u8>) -> Seq<u8>;

/// What AES-256-GCM, with no associated data, recovers from `sealed` under `key` and `nonce`;
/// `None` where the tag does not match.
pub uninterp spec fn aes256_gcm_open(key: Seq<u8>, nonce: Seq<u8>, sealed: Seq<u8>) -> Option<Seq<u8>>;

/// Calls `Aead::encrypt` of `aes_gcm::Aes256Gcm`, made by `KeyInit::new` from `key`.
/// Trusted: the call fails exactly on a payload longer than the cipher's bound; its
/// result is the named sealing, and opens under the same key and nonce to the payload.
#[verifier::external_body]
fn aead_seal(key: &[u8; 32], nonce: &[u8; 12], plaintext: &[u8]) -> (sealed: Option<Vec<u8>>)
    ensures
        sealed is Some <==> plaintext@.len() <= MAX_PLAINTEXT_BYTES,
        sealed matches Some(c) ==> {
            &&& c@ == aes256_gcm_seal(key@, nonce@, plaintext@)
            &&& aes256_gcm_open(key@, nonce@, c@) == Some(plaintext@)
        },
{
    Aes256Gcm::new(key.into()).encrypt(Nonce::from_slice(nonce), plaintext).ok()
}

/// Calls `Aead::decrypt` of `aes_gcm::Aes256Gcm`, made by `KeyInit::new` from `key`.
/// Trusted: the result is the named opening.
#[verifier::external_body]
fn aead_open(key: &[u8; 32], nonce: &[u8; 12], sealed: &[u8]) -> (plain: Option<Vec<u8>>)
    ensures
        match plain {
            Some(p) => aes256_gcm_open(key@, nonce@, sealed@) == Some(p@),
            None => aes256_gcm_open(key@, nonce@, sealed@) is None,
        },
{
    Aes256Gcm::new(key.into()).decrypt(Nonce::from_slice(nonce), sealed).ok()
}

/// Calls `String::from_utf8`. Trusted: it succeeds exactly on well-formed UTF-8 and
/// then yields the characters that the bytes encode.
#[verifier::external_body]
fn string_from_utf8(bytes: Vec<u8>) -> (text: Option<String>)
    ensures
        match text {
            Some(s) => valid_utf8(bytes@) && s@ == decode_utf8(bytes@),
            None => !valid_utf8(bytes@),
        },
{
    String::from_utf8(bytes).ok()
}

/// Whether the cipher accepts `plaintext`.
pub open spec fn can_seal(plaintext: Seq<char>) -> bool {
    encode_utf8(plaintext).len() <= MAX_PLAINTEXT_BYTES
}

/// The token for `plaintext` under `key` and `nonce`: the nonce, then the sealed
/// UTF-8 bytes, as hexadecimal text.
pub open spec fn sealed_token(plaintext: Seq<char>, key: Seq<u8>, nonce: Seq<u8>) -> Seq<char> {
    hex_encode(nonce + aes256_gcm_seal(key, nonce, encode_utf8(plaintext)))
}

/// What a frame of nonce and sealed bytes opens to under `key`.
pub open spec fn opened_frame(frame: Seq<u8>, key: Seq<u8>) -> Option<Seq<u8>> {
    if frame.len() < NONCE_LEN {
        None
    } else {
        aes256_gcm_open(
            key,
            frame.subrange(0, NONCE_LEN as int),
            frame.subrange(NONCE_LEN as int, frame.len() as int),
        )
    }
}

/// The text that `token` holds under `key`; `None` where the token is not hexadecimal
/// text, is shorter than a nonce, does not open under the key, or opens to bytes that
/// are not UTF-8.
pub open spec fn decrypted(token: Seq<char>, key: Seq<u8>) -> Option<Seq<char>> {
    match hex_decode(token) {
        None => None,
        Some(frame) => match opened_frame(frame, key) {
            None => None,
            Some(plain) => if valid_utf8(plain) {
                Some(decode_utf8(plain))
            } else {
                None
            },
        },
    }
}

/// Seals `plaintext` under `key` with the given nonce. It fails only on a payload
/// that the cipher refuses for its length, and what it returns decrypts to `plaintext`.
pub fn encrypt_with_nonce(plaintext: &str, key: &[u8; 32], nonce: &[u8; 12]) -> (token: Result<
    String,
    AppError,
>)
    ensures
        match token {
            Ok(t) => {
                &&& can_seal(plaintext@)
                &&& t@ == sealed_token(plaintext@, key@, nonce@)
                &&& decrypted(t@, key@) == Some(plaintext@)
            },
            Err(e) => !can_seal(plaintext@) && e == AppError::Encryption,
        },
{
    let payload = plaintext.as_bytes();
    match aead_seal(key, nonce, payload) {
        None => Err(AppError::Encryption),
        Some(sealed) => {
            let mut frame: Vec<u8> = Vec::new();
            frame.extend_from_slice(nonce.as_slice());
            frame.extend_from_slice(sealed.as_slice());
            let text = encode_hex(frame.as_slice());
            proof {
                lemma_hex_round_trip(frame@);
                assert(frame@ =~= nonce@ + sealed@);
                assert(frame@.subrange(0, NONCE_LEN as int) =~= nonce@);
                assert(frame@.subrange(NONCE_LEN as int, frame@.len() as int) =~= sealed@);
                encode_utf8_valid_utf8(plaintext@);
                encode_utf8_decode_utf8(plaintext@);
            }
            Ok(text)
        },
    }
}

/// Seals `plaintext` under `key` with a nonce drawn for this call.
pub fn encrypt(plaintext: &str, key: &[u8; 32]) -> (token: Result<String, AppError>)
    ensures
        match token {
            Ok(t) => {
                &&& can_seal(plaintext@)
                &&& exists|nonce: Seq<u8>|
                    nonce.len() == NONCE_LEN && t@ == #[trigger] sealed_token(plaintext@, key@, nonce)
                &&& decrypted(t@, key@) == Some(plaintext@)
            },
            Err(e) => !can_seal(plaintext@) && e == AppError::Encryption,
        },
{
    let nonce: [u8; 12] = random_bytes();
    encrypt_with_nonce(plaintext, key, &nonce)
}

/// Recovers the text that `token` holds under `key`.
pub fn decrypt(token: &str, key: &[u8; 32]) -> (text: Result<String, AppError>)
    ensures
        match text {
            Ok(s) => decrypted(token@, key@) == Some(s@),
            Err(e) => decrypted(token@, key@) is None && e == AppError::Decryption,
        },
{
    let frame = match decode_hex(token) {
        Some(frame) => frame,
        None => {
            return Err(AppError::Decryption);
        },
    };
    if frame.len() < NONCE_LEN {
        return Err(AppError::Decryption);
    }
    let mut nonce: [u8; 12] = [0u8; 12];
    let mut i: usize = 0;
    while i < NONCE_LEN
        invariant
            i <= NONCE_LEN,
            frame@.len() >= NONCE_LEN,
            forall|k: int| 0 <= k < i ==> nonce@[k] == frame@[k],
        decreases NONCE_LEN - i,
    {
        nonce[i] = frame[i];
        i += 1;
    }
    assert(nonce@ =~= frame@.subrange(0, NONCE_LEN as int));
    let sealed = slice_subrange(frame.as_slice(), NONCE_LEN, frame.len());
    match aead_open(key, &nonce, sealed) {
        None => Err(AppError::Decryption),
        Some(plain) => match string_from_utf8(plain) {
            None => Err(AppError::Decryption),
            Some(s) => Ok(s),
        },
    }
}

} // verus!
