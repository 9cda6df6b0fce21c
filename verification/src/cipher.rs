//! Symmetric encryption of short signaling messages with AES-256-GCM-SIV
//! under a base64-encoded 256-bit key. An encrypted blob is
//! `base64(nonce(12 bytes) ++ ciphertext)`, one line, no padding
//! characters. The key is immutable for the lifetime of a cipher
//! instance; a hosting peer generates one at random and shares it
//! out-of-band.
use vstd::prelude::*;
use vstd::utf8::*;
use aes_gcm_siv::aead::generic_array::GenericArray;
use aes_gcm_siv::aead::{Aead, AeadCore, KeyInit, OsRng};
use aes_gcm_siv::Aes256GcmSiv;
use base64::engine::general_purpose::STANDARD_NO_PAD;
use base64::Engine;
use crate::wire::sub_vec;

verus! {

broadcast use vstd::utf8::encode_utf8_valid_utf8, vstd::utf8::encode_utf8_decode_utf8;

/// Longest plaintext, in bytes, that AES-GCM-SIV accepts (RFC 8452 § 6).
pub const P_MAX_BYTES: u64 = 0x1000000000;

/// Decryption failed: the blob was tampered with or garbled, the key is
/// not a valid base64-encoded 256-bit key, or the plaintext is not
/// UTF-8. Never crashes the signaling loop; the message is dropped.
#[derive(Clone, Copy, PartialEq, Eq, Structural, Debug)]
pub struct CryptoError;

/// The characters base64 (standard alphabet, unpadded) encodes the
/// given bytes to; a function of the bytes alone.
pub uninterp spec fn b64_chars(b: Seq<u8>) -> Seq<char>;

/// What base64 (standard alphabet, unpadded) decodes the given
/// characters to; `None` on text that is not valid unpadded base64.
pub uninterp spec fn b64_decoded(s: Seq<char>) -> Option<Seq<u8>>;

/// What AES-256-GCM-SIV decryption with the given 32-byte key and
/// 12-byte nonce yields on the given ciphertext; `None` when
/// authentication fails. A function of its arguments alone.
pub uninterp spec fn aes_decrypted(key: Seq<u8>, nonce: Seq<u8>, ct: Seq<u8>) -> Option<Seq<u8>>;

/// Relies on base64's `Engine::encode` with the unpadded standard
/// alphabet: deterministic, and inverted exactly by `Engine::decode`.
#[verifier::external_body]
fn b64_encode(b: &Vec<u8>) -> (r: String)
    ensures
        r@ == b64_chars(b@),
        b64_decoded(r@) == Some(b@),
{
    STANDARD_NO_PAD.encode(b)
}

/// Relies on base64's `Engine::decode` with the unpadded standard
/// alphabet: deterministic in its input, `Err` exactly on text that is
/// not valid unpadded base64.
#[verifier::external_body]
fn b64_decode(s: &String) -> (r: Option<Vec<u8>>)
    ensures
        r is Some <==> b64_decoded(s@) is Some,
        r is Some ==> r.unwrap()@ == b64_decoded(s@).unwrap(),
{
    match STANDARD_NO_PAD.decode(s.as_str()) {
        Ok(v) => Some(v),
        Err(_) => None,
    }
}

/// Relies on `Aes256GcmSiv::generate_key` with the operating system's
/// entropy source: 32 random bytes; nothing more can be said of a
/// random value.
#[verifier::external_body]
fn generate_key_bytes() -> (r: Vec<u8>)
    ensures
        r@.len() == 32,
{
    Aes256GcmSiv::generate_key(&mut OsRng).to_vec()
}

/// Relies on `Aes256GcmSiv::generate_nonce` with the operating system's
/// entropy source: 12 random bytes.
#[verifier::external_body]
fn generate_nonce_bytes() -> (r: Vec<u8>)
    ensures
        r@.len() == 12,
{
    Aes256GcmSiv::generate_nonce(&mut OsRng).to_vec()
}

/// Relies on `Aes256GcmSiv::encrypt` (RFC 8452): fails exactly when the
/// plaintext exceeds `P_MAX`; otherwise the ciphertext is the plaintext
/// length plus the 16-byte tag, and decrypting it with the same key and
/// nonce gives back the plaintext.
#[verifier::external_body]
fn aes_encrypt_bytes(key: &Vec<u8>, nonce: &Vec<u8>, msg: &[u8]) -> (r: Option<Vec<u8>>)
    requires
        key@.len() == 32,
        nonce@.len() == 12,
    ensures
        r is Some <==> msg@.len() <= P_MAX_BYTES,
        r is Some ==> r.unwrap()@.len() == msg@.len() + 16,
        r is Some ==> aes_decrypted(key@, nonce@, r.unwrap()@) == Some(msg@),
{
    let cipher = Aes256GcmSiv::new(GenericArray::from_slice(key.as_slice()));
    match cipher.encrypt(GenericArray::from_slice(nonce.as_slice()), msg) {
        Ok(ct) => Some(ct),
        Err(_) => None,
    }
}

/// Relies on `Aes256GcmSiv::decrypt` (RFC 8452): deterministic in key,
/// nonce and ciphertext; `Err` exactly when authentication fails.
#[verifier::external_body]
fn aes_decrypt_bytes(key: &Vec<u8>, nonce: &Vec<u8>, ct: &Vec<u8>) -> (r: Option<Vec<u8>>)
    requires
        key@.len() == 32,
        nonce@.len() == 12,
    ensures
        r is Some <==> aes_decrypted(key@, nonce@, ct@) is Some,
        r is Some ==> r.unwrap()@ == aes_decrypted(key@, nonce@, ct@).unwrap(),
{
    let cipher = Aes256GcmSiv::new(GenericArray::from_slice(key.as_slice()));
    match cipher.decrypt(GenericArray::from_slice(nonce.as_slice()), ct.as_slice()) {
        Ok(pt) => Some(pt),
        Err(_) => None,
    }
}

/// Relies on `String::from_utf8`: `Err` exactly on bytes that are not
/// valid UTF-8, and on success the string's bytes are the input.
#[verifier::external_body]
pub(crate) fn string_from_utf8(bytes: Vec<u8>) -> (r: Option<String>)
    ensures
        r is Some <==> valid_utf8(bytes@),
        r is Some ==> encode_utf8(r.unwrap()@) == bytes@,
{
    match String::from_utf8(bytes) {
        Ok(s) => Some(s),
        Err(_) => None,
    }
}

/// A well-formed cipher key: base64 text that decodes to 32 bytes.
pub open spec fn key_wf(key: Seq<char>) -> bool {
    &&& b64_decoded(key) is Some
    &&& b64_decoded(key).unwrap().len() == 32
}

/// What decrypting an encrypted blob under the given key yields:
/// base64-decode the blob, split off the 12-byte nonce, authenticate
/// and decrypt the remainder, and read the plaintext as UTF-8. `None`
/// at any failing step.
pub open spec fn decrypt_blob_spec(key: Seq<char>, blob: Seq<char>) -> Option<Seq<char>> {
    if !key_wf(key) {
        None
    } else {
        let kb = b64_decoded(key).unwrap();
        match b64_decoded(blob) {
            None => None,
            Some(raw) => if raw.len() < 12 {
                None
            } else {
                match aes_decrypted(kb, raw.take(12), raw.skip(12)) {
                    None => None,
                    Some(pt) => if valid_utf8(pt) {
                        Some(decode_utf8(pt))
                    } else {
                        None
                    },
                }
            },
        }
    }
}

/// A symmetric cipher for signaling messages, bound to one immutable
/// base64-encoded 256-bit key.
#[derive(Clone)]
pub struct AES {
    key: String,
}

impl AES {
    /// The cipher's key, as the characters of its base64 form.
    pub closed spec fn key_view(self) -> Seq<char> {
        self.key@
    }

    /// A cipher with the given key, or, when none is given, with a
    /// fresh random 256-bit key (base64-encoded, unpadded).
    pub fn new(key: Option<String>) -> (r: AES)
        ensures
            key is Some ==> r.key_view() == key.unwrap()@,
            key is None ==> key_wf(r.key_view()),
    {
        match key {
            Some(k) => AES { key: k },
            None => {
                let kb = generate_key_bytes();
                AES { key: b64_encode(&kb) }
            },
        }
    }

    pub fn get_key(&self) -> (r: &String)
        ensures
            r@ == self.key_view(),
    {
        &self.key
    }

    /// Encrypt one plaintext message: a fresh random nonce, then
    /// `base64(nonce ++ ciphertext)`. Succeeds exactly when the key is
    /// well-formed and the message fits AES-GCM-SIV's plaintext bound;
    /// on success, decrypting the blob under the same key gives back
    /// the message.
    pub fn encrypt(&self, message: String) -> (r: Result<String, CryptoError>)
        ensures
            r is Ok <==> key_wf(self.key_view()) && encode_utf8(message@).len() <= P_MAX_BYTES,
            r is Ok ==> decrypt_blob_spec(self.key_view(), r.unwrap()@) == Some(message@),
    {
        let kb = match b64_decode(&self.key) {
            None => {
                return Err(CryptoError);
            },
            Some(kb) => kb,
        };
        if kb.len() != 32 {
            return Err(CryptoError);
        }
        let msg_bytes = message.as_str().as_bytes();
        if !(msg_bytes.len() as u64 <= P_MAX_BYTES) {
            return Err(CryptoError);
        }
        let nonce = generate_nonce_bytes();
        let ct = match aes_encrypt_bytes(&kb, &nonce, msg_bytes) {
            None => {
                return Err(CryptoError);
            },
            Some(ct) => ct,
        };
        let mut raw = nonce;
        let ghost nonce_view = raw@;
        raw.extend_from_slice(ct.as_slice());
        proof {
            assert(raw@.take(12) =~= nonce_view);
            assert(raw@.skip(12) =~= ct@);
        }
        Ok(b64_encode(&raw))
    }

    /// Decrypt one blob produced by `encrypt` under the same key.
    /// Fails with `CryptoError` — never a crash — exactly when the key
    /// is malformed, the blob is not base64, the blob is shorter than a
    /// nonce, authentication fails, or the plaintext is not UTF-8.
    pub fn decrypt(&self, b64_cipher: String) -> (r: Result<String, CryptoError>)
        ensures
            r is Ok <==> decrypt_blob_spec(self.key_view(), b64_cipher@) is Some,
            r is Ok ==> Some(r.unwrap()@) == decrypt_blob_spec(self.key_view(), b64_cipher@),
    {
        let kb = match b64_decode(&self.key) {
            None => {
                return Err(CryptoError);
            },
            Some(kb) => kb,
        };
        if kb.len() != 32 {
            return Err(CryptoError);
        }
        let raw = match b64_decode(&b64_cipher) {
            None => {
                return Err(CryptoError);
            },
            Some(raw) => raw,
        };
        if raw.len() < 12 {
            return Err(CryptoError);
        }
        let nonce = sub_vec(&raw, 0, 12);
        let ct = sub_vec(&raw, 12, raw.len());
        proof {
            assert(nonce@ =~= raw@.take(12));
            assert(ct@ =~= raw@.skip(12));
        }
        let pt = match aes_decrypt_bytes(&kb, &nonce, &ct) {
            None => {
                return Err(CryptoError);
            },
            Some(pt) => pt,
        };
        match string_from_utf8(pt) {
            None => Err(CryptoError),
            Some(s) => Ok(s),
        }
    }
}

} // verus!
