use bifrost::crypto::parse_bundle;
use bifrost::secret;
use bifrost::secret::CreateSecretPayload;
use bifrost::store::{MemStore, SecretRecord, StorageError};
use bifrost::token;
use bifrost::token::CreateTokenPayload;
use bifrost::vault::{Vault, VaultError};

fn test_vault() -> Vault {
    Vault::new(b"0123456789abcdef0123456789abcdef".to_vec()).unwrap()
}

#[test]
fn vault_refuses_wrong_key_length() {
    assert!(matches!(
        Vault::new(b"short".to_vec()),
        Err(VaultError::ConfigError)
    ));
    assert!(matches!(
        Vault::new(vec![0u8; 33]),
        Err(VaultError::ConfigError)
    ));
}

/// Create a secret under namespace `acme` with a generated key, read it
/// back with the right namespace, and see `NotFound` under any other.
#[test]
fn secret_scenario_hello_world() {
    let mut vault = test_vault();
    let ns = String::from("acme");
    let other = String::from("other");
    let payload = CreateSecretPayload { data: String::from("hello-world") };

    let resp = secret::upsert(&mut vault, &ns, None, &payload).unwrap();
    assert_eq!(resp.key.len(), 2 + 1 + 28);
    assert_eq!(&resp.key[0..3], "sk_");

    let read = secret::get(&vault, &ns, &resp.key).unwrap();
    assert_eq!(read.data, "hello-world");

    assert!(matches!(
        secret::get(&vault, &other, &resp.key),
        Err(VaultError::NotFound)
    ));
}

/// Writing the same key twice replaces the value; the read sees the
/// later write.
#[test]
fn upsert_replaces_value() {
    let mut vault = test_vault();
    let ns = String::from("acme");
    let key = String::from("app-password");
    let v1 = CreateSecretPayload { data: String::from("first") };
    let v2 = CreateSecretPayload { data: String::from("second") };

    let r1 = secret::upsert(&mut vault, &ns, Some(key.clone()), &v1).unwrap();
    assert_eq!(r1.key, "app-password");
    let r2 = secret::upsert(&mut vault, &ns, Some(key.clone()), &v2).unwrap();
    assert_eq!(r2.key, "app-password");

    let read = secret::get(&vault, &ns, &key).unwrap();
    assert_eq!(read.data, "second");
}

/// Deleting a key makes the next read report `NotFound`; deleting it
/// again reports `NotFound` too.
#[test]
fn delete_then_get_is_not_found() {
    let mut vault = test_vault();
    let ns = String::from("acme");
    let key = String::from("gone");
    let payload = CreateSecretPayload { data: String::from("value") };

    secret::upsert(&mut vault, &ns, Some(key.clone()), &payload).unwrap();
    let deleted = secret::delete(&mut vault, &ns, &key).unwrap();
    assert_eq!(deleted.key, "gone");

    assert!(matches!(
        secret::get(&vault, &ns, &key),
        Err(VaultError::NotFound)
    ));
    assert!(matches!(
        secret::delete(&mut vault, &ns, &key),
        Err(VaultError::NotFound)
    ));
}

/// Two namespaces sharing a key never see each other's values.
#[test]
fn namespaces_are_isolated() {
    let mut vault = test_vault();
    let a = String::from("tenant-a");
    let b = String::from("tenant-b");
    let key = String::from("shared-name");
    let pa = CreateSecretPayload { data: String::from("alpha") };
    let pb = CreateSecretPayload { data: String::from("beta") };

    secret::upsert(&mut vault, &a, Some(key.clone()), &pa).unwrap();
    assert!(matches!(
        secret::get(&vault, &b, &key),
        Err(VaultError::NotFound)
    ));

    secret::upsert(&mut vault, &b, Some(key.clone()), &pb).unwrap();
    assert_eq!(secret::get(&vault, &a, &key).unwrap().data, "alpha");
    assert_eq!(secret::get(&vault, &b, &key).unwrap().data, "beta");

    assert!(vault.remove(&a, &key));
    assert!(matches!(
        secret::get(&vault, &a, &key),
        Err(VaultError::NotFound)
    ));
    assert_eq!(secret::get(&vault, &b, &key).unwrap().data, "beta");
}

#[test]
fn tokenize_round_trip() {
    let mut vault = test_vault();
    let ns = String::from("tokens");
    let payload = CreateTokenPayload { data: String::from("4111-1111-1111-1111") };

    let resp = token::create(&mut vault, &ns, &payload).unwrap();
    assert_eq!(resp.key.len(), 3 + 1 + 28);
    assert_eq!(&resp.key[0..4], "tok_");

    let read = token::get(&vault, &ns, &resp.key).unwrap();
    assert_eq!(read.data, "4111-1111-1111-1111");

    assert!(matches!(
        token::get(&vault, &ns, &String::from("tok_unknown")),
        Err(VaultError::NotFound)
    ));
}

/// Restoring from persisted rows resumes the nonce counter past every
/// stored nonce: the write after a restart never reseals under a nonce
/// any live blob carries.
#[test]
fn restore_resumes_nonce_counter() {
    let key = b"0123456789abcdef0123456789abcdef".to_vec();
    let mut vault = Vault::new(key.clone()).unwrap();
    let ns = String::from("acme");
    let k1 = String::from("k1");
    let k2 = String::from("k2");
    let p1 = CreateSecretPayload { data: String::from("one") };
    let p2 = CreateSecretPayload { data: String::from("two") };
    secret::upsert(&mut vault, &ns, Some(k1.clone()), &p1).unwrap();
    secret::upsert(&mut vault, &ns, Some(k2.clone()), &p2).unwrap();
    assert_eq!(vault.counter(), 2);

    let rows = vec![
        SecretRecord {
            namespace: ns.clone(),
            key: k1.clone(),
            blob: vault.blob_at(&ns, &k1).unwrap(),
            created_at: 0,
        },
        SecretRecord {
            namespace: ns.clone(),
            key: k2.clone(),
            blob: vault.blob_at(&ns, &k2).unwrap(),
            created_at: 0,
        },
    ];
    let mut restored = Vault::restore(key, rows, 0).unwrap();
    assert_eq!(restored.counter(), 2);
    assert_eq!(secret::get(&restored, &ns, &k1).unwrap().data, "one");
    assert_eq!(secret::get(&restored, &ns, &k2).unwrap().data, "two");

    let k3 = String::from("k3");
    let p3 = CreateSecretPayload { data: String::from("three") };
    secret::upsert(&mut restored, &ns, Some(k3.clone()), &p3).unwrap();
    let n1 = parse_bundle(restored.blob_at(&ns, &k1).unwrap().as_str()).unwrap().0;
    let n2 = parse_bundle(restored.blob_at(&ns, &k2).unwrap().as_str()).unwrap().0;
    let n3 = parse_bundle(restored.blob_at(&ns, &k3).unwrap().as_str()).unwrap().0;
    assert_ne!(n3, n1);
    assert_ne!(n3, n2);
    assert_ne!(n1, n2);
}

/// A persisted count raises the resumed counter even when no restored
/// row carries a nonce that high.
#[test]
fn restore_honours_the_persisted_count() {
    let key = b"0123456789abcdef0123456789abcdef".to_vec();
    let restored = Vault::restore(key, vec![], 40).unwrap();
    assert_eq!(restored.counter(), 40);
}

#[test]
fn with_nonce_count_starts_where_told() {
    let key = b"0123456789abcdef0123456789abcdef".to_vec();
    let vault = Vault::with_nonce_count(key, 41).unwrap();
    assert_eq!(vault.counter(), 41);
}

/// A restored row that does not authenticate under the vault's key is
/// reported as possible tampering, never answered with partial plaintext.
#[test]
fn imported_garbage_blob_fails_decryption() {
    let mut vault = test_vault();
    let ns = String::from("acme");
    let key = String::from("restored");
    let bad_blob = format!("{}:{}", "0".repeat(24), "0".repeat(54));
    vault.import_record(&ns, &key, bad_blob, 7);
    assert!(matches!(
        secret::get(&vault, &ns, &key),
        Err(VaultError::DecryptionFailed)
    ));
}

/// A row written by one vault and restored into another with the same
/// key still decrypts; restored under a different key it is refused.
#[test]
fn restored_rows_follow_the_key() {
    let mut vault = test_vault();
    let ns = String::from("acme");
    let key = String::from("k");
    let payload = CreateSecretPayload { data: String::from("carried-over") };
    secret::upsert(&mut vault, &ns, Some(key.clone()), &payload).unwrap();
    let blob = vault.blob_at(&ns, &key).unwrap();

    let mut same_key = test_vault();
    same_key.import_record(&ns, &key, blob.clone(), 1);
    assert_eq!(secret::get(&same_key, &ns, &key).unwrap().data, "carried-over");

    let mut other_key = Vault::new(b"ffffffffffffffffffffffffffffffff".to_vec()).unwrap();
    other_key.import_record(&ns, &key, blob, 1);
    assert!(matches!(
        secret::get(&other_key, &ns, &key),
        Err(VaultError::DecryptionFailed)
    ));
}

#[test]
fn store_upsert_get_delete() {
    let mut store = MemStore::new();
    let ns = String::from("acme");
    let key = String::from("k");

    assert_eq!(
        store.get(&ns, &key),
        Err(StorageError::NotFound)
    );
    store.upsert(&ns, &key, String::from("blob-1"), 11).unwrap();
    assert_eq!(store.get(&ns, &key), Ok(String::from("blob-1")));
    store.upsert(&ns, &key, String::from("blob-2"), 12).unwrap();
    assert_eq!(store.get(&ns, &key), Ok(String::from("blob-2")));
    assert_eq!(store.delete(&ns, &key), Ok(true));
    assert_eq!(store.delete(&ns, &key), Ok(false));
    assert_eq!(store.get(&ns, &key), Err(StorageError::NotFound));
}

#[test]
fn store_namespace_isolation() {
    let mut store = MemStore::new();
    let a = String::from("a");
    let b = String::from("b");
    let key = String::from("k");
    store.upsert(&a, &key, String::from("va"), 1).unwrap();
    assert_eq!(store.get(&b, &key), Err(StorageError::NotFound));
    assert_eq!(store.get(&a, &key), Ok(String::from("va")));
}

#[test]
fn store_schema_setup_is_idempotent() {
    let mut store = MemStore::new();
    let ns = String::from("acme");
    store.ensure_schema(&ns).unwrap();
    store.ensure_schema(&ns).unwrap();
    store.upsert(&ns, &String::from("k"), String::from("v"), 1).unwrap();
    assert_eq!(store.get(&ns, &String::from("k")), Ok(String::from("v")));
}

/// Payloads survive the whole write-read cycle even when another write
/// lands in between: the vault holds no cache and rereads storage.
#[test]
fn interleaved_writes_read_back() {
    let mut vault = test_vault();
    let ns = String::from("acme");
    let k1 = String::from("k1");
    let k2 = String::from("k2");
    let p1 = CreateSecretPayload { data: String::from("one") };
    let p2 = CreateSecretPayload { data: String::from("two") };

    secret::upsert(&mut vault, &ns, Some(k1.clone()), &p1).unwrap();
    secret::upsert(&mut vault, &ns, Some(k2.clone()), &p2).unwrap();
    assert_eq!(secret::get(&vault, &ns, &k1).unwrap().data, "one");
    assert_eq!(secret::get(&vault, &ns, &k2).unwrap().data, "two");
}
