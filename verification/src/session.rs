//! Keeping the session (server address and API key) on disk: the key that
//! encrypts it and the encrypted text of the session document.
use vstd::prelude::*;
use vstd::string::*;
use magic_crypt::MagicCryptTrait;
use crate::json::Json;
use crate::json_text::{pretty, to_pretty_string};

verus! {

/// The fixed part of the encryption key.
pub open spec fn base_key() -> Seq<char> {
    "magickey"@
}

/// The encryption key: the fixed word, followed by the machine's MAC
/// address when one is known, so that the stored session only opens on
/// the machine that wrote it.
pub fn session_key(mac: Option<&str>) -> (res: String)
    ensures
        res@ == match mac {
            Some(m) => base_key() + m@,
            None => base_key(),
        },
{
    let mut key = "magickey".to_owned();
    if let Some(m) = mac {
        key.append(m);
    }
    key
}

/// The base64 text of `plain` encrypted with AES-256 under `key` (CBC,
/// zero IV, key hashed with SHA-256), as `magic_crypt` computes it.
pub uninterp spec fn aes_encrypted(key: Seq<char>, plain: Seq<char>) -> Seq<char>;

/// The text that the base64 cipher text `cipher` decrypts to under `key`,
/// if it decrypts to UTF-8 text.
pub uninterp spec fn aes_decrypted(key: Seq<char>, cipher: Seq<char>) -> Option<Seq<char>>;

/// Encrypts a text (`MagicCrypt256::new(key, None)` and
/// `encrypt_str_to_base64`); decrypting the result under the same key gives
/// the text back.
#[verifier::external_body]
fn encrypt_text(key: &str, plain: &str) -> (res: String)
    ensures
        res@ == aes_encrypted(key@, plain@),
        aes_decrypted(key@, res@) == Some(plain@),
{
    magic_crypt::MagicCrypt256::new(key, None::<String>).encrypt_str_to_base64(plain)
}

/// Decrypts a base64 cipher text (`MagicCrypt256::new(key, None)` and
/// `decrypt_base64_to_string`).
#[verifier::external_body]
fn decrypt_text(key: &str, cipher: &str) -> (res: Option<String>)
    ensures
        match res {
            Some(p) => aes_decrypted(key@, cipher@) == Some(p@),
            None => aes_decrypted(key@, cipher@) is None,
        },
{
    magic_crypt::MagicCrypt256::new(key, None::<String>).decrypt_base64_to_string(cipher).ok()
}

/// The stored form of a session document: its pretty JSON text, encrypted.
/// Opening it under the same key gives that text back.
pub fn seal_session(key: &str, session: &Json) -> (res: String)
    ensures
        res@ == aes_encrypted(key@, pretty(session@, 0)),
        aes_decrypted(key@, res@) == Some(pretty(session@, 0)),
{
    let text = to_pretty_string(session);
    encrypt_text(key, text.as_str())
}

/// The JSON text of a stored session, or `None` when it does not decrypt
/// under `key`.
pub fn open_session(key: &str, stored: &str) -> (res: Option<String>)
    ensures
        match res {
            Some(t) => aes_decrypted(key@, stored@) == Some(t@),
            None => aes_decrypted(key@, stored@) is None,
        },
{
    decrypt_text(key, stored)
}

} // verus!
