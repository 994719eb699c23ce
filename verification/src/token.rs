//! The tokenization endpoints' logic: hand in an opaque payload, get a
//! freshly generated `tok_`-prefixed key back, and trade the key for the
//! payload later. The same engine and storage contract as the secret
//! endpoints, under keys the service itself mints.

use vstd::prelude::*;

use crate::crypto::{spec_decrypt, spec_encrypt, MAX_PLAINTEXT_LEN};
use crate::ids::{new_id, spec_id_shape};
use crate::vault::{now_unix, Vault, VaultError};

verus! {

/// The tokenize request body.
pub struct CreateTokenPayload {
    pub data: String,
}

/// The response to a tokenize call: the minted key.
pub struct TokenResponse {
    pub key: String,
}

/// The response to a lookup: the original payload.
pub struct TokenDataResponse {
    pub data: String,
}

/// Encrypt and store a payload under a freshly minted `tok_` key within
/// the namespace, stamping it with the current time.
pub fn create(vault: &mut Vault, namespace: &String, payload: &CreateTokenPayload) -> (r: Result<
    TokenResponse,
    VaultError,
>)
    requires
        old(vault).wf(),
    ensures
        final(vault).wf(),
        final(vault).key_view() == old(vault).key_view(),
        match r {
            Ok(resp) => {
                &&& spec_id_shape("tok"@, resp.key@)
                &&& exists|t: i64|
                    final(vault).records() == old(vault).records().insert(
                        (namespace@, resp.key@),
                        (
                            spec_encrypt(
                                old(vault).key_view(),
                                old(vault).nonce_count(),
                                payload.data@,
                            ),
                            t,
                        ),
                    )
                &&& final(vault).records()[(namespace@, resp.key@)].0.len() == 57 + 2
                    * vstd::utf8::encode_utf8(payload.data@).len()
                &&& spec_decrypt(
                    old(vault).key_view(),
                    final(vault).records()[(namespace@, resp.key@)].0,
                ) == Some(payload.data@)
            },
            Err(e) => {
                &&& e == VaultError::EncryptionFailed
                &&& (vstd::utf8::encode_utf8(payload.data@).len() >= MAX_PLAINTEXT_LEN || old(
                    vault,
                ).nonce_count() == u64::MAX)
                &&& final(vault).records() == old(vault).records()
            },
        },
{
    let key = new_id("tok");
    let created_at = now_unix();
    match vault.create_or_replace(namespace, Some(key), payload.data.as_str(), created_at) {
        Ok(k) => Ok(TokenResponse { key: k }),
        Err(e) => Err(e),
    }
}

/// Trade a minted key for the payload stored under it.
pub fn get(vault: &Vault, namespace: &String, key: &String) -> (r: Result<
    TokenDataResponse,
    VaultError,
>)
    requires
        vault.wf(),
    ensures
        match r {
            Ok(resp) => {
                &&& vault.records().contains_key((namespace@, key@))
                &&& spec_decrypt(
                    vault.key_view(),
                    vault.records()[(namespace@, key@)].0,
                ) == Some(resp.data@)
            },
            Err(e) => {
                ||| (e == VaultError::NotFound && !vault.records().contains_key(
                    (namespace@, key@),
                ))
                ||| (e == VaultError::DecryptionFailed && vault.records().contains_key(
                    (namespace@, key@),
                ) && spec_decrypt(
                    vault.key_view(),
                    vault.records()[(namespace@, key@)].0,
                ) is None)
            },
        },
{
    match vault.retrieve(namespace, key) {
        Ok(p) => Ok(TokenDataResponse { data: p }),
        Err(e) => Err(e),
    }
}

} // verus!
