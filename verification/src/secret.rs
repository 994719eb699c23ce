//! The secret endpoints' logic: what each route computes once authorization
//! has passed and the body has been parsed, with the clock read here and
//! everything else exact.

use vstd::prelude::*;

use crate::crypto::{spec_decrypt, spec_encrypt, MAX_PLAINTEXT_LEN};
use crate::ids::spec_id_shape;
use crate::vault::{now_unix, Vault, VaultError};

verus! {

/// The write request body.
pub struct CreateSecretPayload {
    pub data: String,
}

/// The response to a write or delete: the record's key.
pub struct SecretResponse {
    pub key: String,
}

/// The response to a read: the decrypted payload.
pub struct TokenDataResponse {
    pub data: String,
}

/// Create or replace the secret at `(namespace, key)`, stamping it with
/// the current time; a key is generated when none is supplied.
pub fn upsert(
    vault: &mut Vault,
    namespace: &String,
    key: Option<String>,
    payload: &CreateSecretPayload,
) -> (r: Result<SecretResponse, VaultError>)
    requires
        old(vault).wf(),
    ensures
        final(vault).wf(),
        final(vault).key_view() == old(vault).key_view(),
        match r {
            Ok(resp) => {
                &&& match key {
                    Some(given) => resp.key@ == given@,
                    None => spec_id_shape("sk"@, resp.key@),
                }
                &&& exists|t: i64|
                    final(vault).records() == old(vault).records().insert(
                        (namespace@, resp.key@),
                        (
                            spec_encrypt(
                                old(vault).key_view(),
                                old(vault).nonce_count(),
                                payload.data@,
                            ),
                            t,
                        ),
                    )
                &&& final(vault).records()[(namespace@, resp.key@)].0.len() == 57 + 2
                    * vstd::utf8::encode_utf8(payload.data@).len()
                &&& spec_decrypt(
                    old(vault).key_view(),
                    final(vault).records()[(namespace@, resp.key@)].0,
                ) == Some(payload.data@)
            },
            Err(e) => {
                &&& e == VaultError::EncryptionFailed
                &&& (vstd::utf8::encode_utf8(payload.data@).len() >= MAX_PLAINTEXT_LEN || old(
                    vault,
                ).nonce_count() == u64::MAX)
                &&& final(vault).records() == old(vault).records()
            },
        },
{
    let created_at = now_unix();
    match vault.create_or_replace(namespace, key, payload.data.as_str(), created_at) {
        Ok(k) => Ok(SecretResponse { key: k }),
        Err(e) => Err(e),
    }
}

/// Read and decrypt the secret at `(namespace, key)`.
pub fn get(vault: &Vault, namespace: &String, key: &String) -> (r: Result<
    TokenDataResponse,
    VaultError,
>)
    requires
        vault.wf(),
    ensures
        match r {
            Ok(resp) => {
                &&& vault.records().contains_key((namespace@, key@))
                &&& spec_decrypt(
                    vault.key_view(),
                    vault.records()[(namespace@, key@)].0,
                ) == Some(resp.data@)
            },
            Err(e) => {
                ||| (e == VaultError::NotFound && !vault.records().contains_key(
                    (namespace@, key@),
                ))
                ||| (e == VaultError::DecryptionFailed && vault.records().contains_key(
                    (namespace@, key@),
                ) && spec_decrypt(
                    vault.key_view(),
                    vault.records()[(namespace@, key@)].0,
                ) is None)
            },
        },
{
    match vault.retrieve(namespace, key) {
        Ok(p) => Ok(TokenDataResponse { data: p }),
        Err(e) => Err(e),
    }
}

/// Delete the secret at `(namespace, key)`; absent keys are `NotFound`.
pub fn delete(vault: &mut Vault, namespace: &String, key: &String) -> (r: Result<
    SecretResponse,
    VaultError,
>)
    requires
        old(vault).wf(),
    ensures
        final(vault).wf(),
        final(vault).key_view() == old(vault).key_view(),
        final(vault).records() == old(vault).records().remove((namespace@, key@)),
        match r {
            Ok(resp) => old(vault).records().contains_key((namespace@, key@)) && resp.key@
                == key@,
            Err(e) => e == VaultError::NotFound && !old(vault).records().contains_key(
                (namespace@, key@),
            ),
        },
{
    if vault.remove(namespace, key) {
        Ok(SecretResponse { key: key.clone() })
    } else {
        Err(VaultError::NotFound)
    }
}

} // verus!
