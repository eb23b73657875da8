//! The helper names derived for an encrypted field.
use vstd::prelude::*;
use crate::model::{FieldDef, StructDef};

verus! {

/// The names that the cipher macro emits for one field.
pub struct CipherPlan {
    /// `aes_256_gcm_siv_encrypt_{field}`.
    pub encrypt_fn: String,
    /// `aes_256_gcm_siv_decrypt_{field}`.
    pub decrypt_fn: String,
    /// `aes_256_gcm_siv_key_and_nonce_ga_{field}`.
    pub key_and_nonce_fn: String,
    /// The tokens naming the environment variable that holds the hex key: those of
    /// `#[opt(aes_secret_key = ..)]`, else the string literal `"SECRET"`.
    pub secret_key: String,
}

fn named(prefix: &str, field: &str) -> (res: String)
    ensures
        res@ == prefix@ + field@,
{
    let mut s = prefix.to_owned();
    s.append(field);
    s
}

/// The helper names and key variable for an encrypted field.
pub fn cipher_aes_256_gcm_siv(input: &StructDef, field: &FieldDef) -> (res: CipherPlan)
    ensures
        res.encrypt_fn@ == "aes_256_gcm_siv_encrypt_"@ + field.name@,
        res.decrypt_fn@ == "aes_256_gcm_siv_decrypt_"@ + field.name@,
        res.key_and_nonce_fn@ == "aes_256_gcm_siv_key_and_nonce_ga_"@ + field.name@,
        res.secret_key@ == match field.aes_secret_key {
            Some(k) => k@,
            None => "\"SECRET\""@,
        },
{
    let secret_key = match &field.aes_secret_key {
        Some(k) => k.clone(),
        None => "\"SECRET\"".to_owned(),
    };
    CipherPlan {
        encrypt_fn: named("aes_256_gcm_siv_encrypt_", field.name.as_str()),
        decrypt_fn: named("aes_256_gcm_siv_decrypt_", field.name.as_str()),
        key_and_nonce_fn: named("aes_256_gcm_siv_key_and_nonce_ga_", field.name.as_str()),
        secret_key,
    }
}

} // verus!
