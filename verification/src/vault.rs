//! The vault service: on write it encrypts then stores, on read it
//! fetches then decrypts, on delete it removes and signals existence.
//! It is stateless across calls — no plaintext or ciphertext is cached —
//! and a record is never partially written: encryption fully succeeds
//! before any storage mutation is attempted.

use vstd::prelude::*;

use crate::crypto::{counter_of_nonce, decrypt, encrypt, lemma_nonce_bytes_injective, parse_bundle,
    spec_decrypt, spec_encrypt, spec_nonce_bytes, spec_parse_bundle, NonceCounter, KEY_LEN,
    MAX_PLAINTEXT_LEN};
use crate::ids::{new_id, spec_id_shape};
use crate::store::{map_of, record_id, record_payload, MemStore, SecretRecord};

verus! {

/// Why a vault operation failed.
#[derive(Clone, Copy, Debug, PartialEq, Eq, Structural)]
pub enum VaultError {
    /// The configured encryption key is not exactly 32 bytes. Fatal at
    /// startup; never raised by a request.
    ConfigError,
    /// The payload could not be sealed; nothing was stored.
    EncryptionFailed,
    /// The stored blob did not parse, authenticate or decode — treated
    /// as possible tampering, never answered with partial plaintext.
    DecryptionFailed,
    /// No record lives at the requested `(namespace, key)`.
    NotFound,
}

/// Relies on `chrono::Utc::now`: the current Unix timestamp in seconds.
/// Nothing is assumed of the value.
#[verifier::external_body]
pub(crate) fn now_unix() -> i64 {
    chrono::Utc::now().timestamp()
}

/// The vault: the process-wide key, the nonce counter it advances, and
/// the storage backend it writes through.
pub struct Vault {
    key: Vec<u8>,
    nonces: NonceCounter,
    store: MemStore,
}

impl Vault {
    /// Well-formedness: the key has the exact AES-256 length and the
    /// backend is internally consistent.
    pub closed spec fn wf(self) -> bool {
        self.key@.len() == KEY_LEN && self.store.inv()
    }

    /// The symmetric key, fixed for the vault's lifetime.
    pub closed spec fn key_view(self) -> Seq<u8> {
        self.key@
    }

    /// The stored records: `(namespace, key)` to `(blob, created_at)`.
    pub closed spec fn records(self) -> Map<(Seq<char>, Seq<char>), (Seq<char>, i64)> {
        self.store.contents()
    }

    /// The provisioned namespaces.
    pub closed spec fn schemas(self) -> Set<Seq<char>> {
        self.store.schemas()
    }

    /// The nonce counter's position.
    pub closed spec fn nonce_count(self) -> u64 {
        self.nonces.spec_count()
    }

    /// Build a vault over an empty backend, its counter starting from
    /// zero. Refused outright if the key is not exactly 32 bytes: a
    /// misconfigured process must not start.
    pub fn new(key: Vec<u8>) -> (r: Result<Vault, VaultError>)
        ensures
            match r {
                Ok(v) => {
                    &&& key@.len() == KEY_LEN
                    &&& v.wf()
                    &&& v.key_view() == key@
                    &&& v.records() == Map::<(Seq<char>, Seq<char>), (Seq<char>, i64)>::empty()
                    &&& v.nonce_count() == 0
                },
                Err(e) => e == VaultError::ConfigError && key@.len() != KEY_LEN,
            },
    {
        Self::with_nonce_count(key, 0)
    }

    /// Build a vault over an empty backend with the counter resuming
    /// from a persisted position. Nonce uniqueness holds for the life of
    /// the key only if `start` lies above every counter value already
    /// consumed under it; `restore` computes such a position from the
    /// stored blobs themselves.
    pub fn with_nonce_count(key: Vec<u8>, start: u64) -> (r: Result<Vault, VaultError>)
        ensures
            match r {
                Ok(v) => {
                    &&& key@.len() == KEY_LEN
                    &&& v.wf()
                    &&& v.key_view() == key@
                    &&& v.records() == Map::<(Seq<char>, Seq<char>), (Seq<char>, i64)>::empty()
                    &&& v.nonce_count() == start
                },
                Err(e) => e == VaultError::ConfigError && key@.len() != KEY_LEN,
            },
    {
        if key.len() != KEY_LEN {
            return Err(VaultError::ConfigError);
        }
        Ok(Vault { key, nonces: NonceCounter::new(start), store: MemStore::new() })
    }

    /// Rebuild a vault from its persisted rows. The records come back
    /// exactly, and the nonce counter resumes at least at `floor` (a
    /// persisted count, covering blobs that live outside the restored
    /// rows) and strictly above every counter value any restored blob's
    /// nonce carries, so the next seal never reuses a nonce that is live
    /// in the store — or, if a stored blob already sits at the last
    /// counter value, the counter parks at its maximum and every further
    /// seal is refused rather than reused.
    pub fn restore(key: Vec<u8>, rows: Vec<SecretRecord>, floor: u64) -> (r: Result<
        Vault,
        VaultError,
    >)
        ensures
            match r {
                Ok(v) => {
                    &&& key@.len() == KEY_LEN
                    &&& v.wf()
                    &&& v.key_view() == key@
                    &&& v.records() == map_of(rows@)
                    &&& v.nonce_count() >= floor
                    &&& forall|i: int, c: u64|
                        #![trigger spec_parse_bundle(rows@[i].blob@), spec_nonce_bytes(c)]
                        (0 <= i < rows@.len() && spec_parse_bundle(rows@[i].blob@) is Some
                            && spec_parse_bundle(rows@[i].blob@)->Some_0.0 == spec_nonce_bytes(c))
                            ==> (c < v.nonce_count() || v.nonce_count() == u64::MAX)
                },
                Err(e) => e == VaultError::ConfigError && key@.len() != KEY_LEN,
            },
    {
        let mut start: u64 = floor;
        let n = rows.len();
        for i in 0..n
            invariant
                n == rows@.len(),
                start >= floor,
                forall|j: int, c: u64|
                    #![trigger spec_parse_bundle(rows@[j].blob@), spec_nonce_bytes(c)]
                    (0 <= j < i && spec_parse_bundle(rows@[j].blob@) is Some
                        && spec_parse_bundle(rows@[j].blob@)->Some_0.0 == spec_nonce_bytes(c))
                        ==> (c < start || start == u64::MAX),
        {
            let row = &rows[i];
            if let Some(parts) = parse_bundle(row.blob.as_str()) {
                if let Some(c) = counter_of_nonce(&parts.0) {
                    proof {
                        assert forall|c2: u64|
                            spec_parse_bundle(rows@[i as int].blob@)->Some_0.0
                                == spec_nonce_bytes(c2) implies c2 == c by {
                            if c2 != c {
                                lemma_nonce_bytes_injective(c2, c);
                            }
                        }
                    }
                    if c == u64::MAX {
                        start = u64::MAX;
                    } else if c + 1 > start {
                        start = c + 1;
                    }
                }
            }
        }
        let mut v = match Self::with_nonce_count(key, start) {
            Ok(v) => v,
            Err(e) => {
                return Err(e);
            },
        };
        let m = rows.len();
        for i in 0..m
            invariant
                m == rows@.len(),
                v.wf(),
                v.key_view() == key@,
                v.nonce_count() == start,
                start >= floor,
                v.records() == map_of(rows@.take(i as int)),
                forall|j: int, c: u64|
                    #![trigger spec_parse_bundle(rows@[j].blob@), spec_nonce_bytes(c)]
                    (0 <= j < rows@.len() && spec_parse_bundle(rows@[j].blob@) is Some
                        && spec_parse_bundle(rows@[j].blob@)->Some_0.0 == spec_nonce_bytes(c))
                        ==> (c < start || start == u64::MAX),
        {
            let row = &rows[i];
            v.import_record(&row.namespace, &row.key, row.blob.clone(), row.created_at);
            proof {
                assert(rows@.take(i + 1).drop_last() =~= rows@.take(i as int));
                assert(rows@.take(i + 1).last() == rows@[i as int]);
                assert(map_of(rows@.take(i + 1)) == map_of(rows@.take(i as int)).insert(
                    record_id(rows@[i as int]),
                    record_payload(rows@[i as int]),
                ));
            }
        }
        proof {
            assert(rows@.take(m as int) =~= rows@);
        }
        Ok(v)
    }

    /// The counter's position, for a caller persisting it across
    /// restarts.
    pub fn counter(&self) -> (r: u64)
        ensures
            r == self.nonce_count(),
    {
        self.nonces.count()
    }

    /// Provision a namespace's storage structure; idempotent and safe to
    /// call on every first access.
    pub fn ensure_schema(&mut self, namespace: &String)
        requires
            old(self).wf(),
        ensures
            final(self).wf(),
            final(self).key_view() == old(self).key_view(),
            final(self).records() == old(self).records(),
            final(self).nonce_count() == old(self).nonce_count(),
            final(self).schemas() == old(self).schemas().insert(namespace@),
    {
        let _ = self.store.ensure_schema(namespace);
    }

    /// Encrypt a payload and store it at `(namespace, key)`, generating
    /// an `sk_`-prefixed key when none is supplied, and hand the key
    /// back. The stored blob decrypts to the payload under this vault's
    /// key; on failure nothing is written.
    pub fn create_or_replace(
        &mut self,
        namespace: &String,
        key: Option<String>,
        data: &str,
        created_at: i64,
    ) -> (r: Result<String, VaultError>)
        requires
            old(self).wf(),
        ensures
            final(self).wf(),
            final(self).key_view() == old(self).key_view(),
            match r {
                Ok(k) => {
                    &&& match key {
                        Some(given) => k@ == given@,
                        None => spec_id_shape("sk"@, k@),
                    }
                    &&& final(self).records() == old(self).records().insert(
                        (namespace@, k@),
                        (
                            spec_encrypt(
                                old(self).key_view(),
                                old(self).nonce_count(),
                                data@,
                            ),
                            created_at,
                        ),
                    )
                    &&& final(self).records()[(namespace@, k@)].0.len() == 57 + 2
                        * vstd::utf8::encode_utf8(data@).len()
                    &&& spec_decrypt(
                        old(self).key_view(),
                        final(self).records()[(namespace@, k@)].0,
                    ) == Some(data@)
                    &&& final(self).nonce_count() == old(self).nonce_count() + 1
                    &&& final(self).schemas() == old(self).schemas().insert(namespace@)
                },
                Err(e) => {
                    &&& e == VaultError::EncryptionFailed
                    &&& (vstd::utf8::encode_utf8(data@).len() >= MAX_PLAINTEXT_LEN || old(
                        self,
                    ).nonce_count() == u64::MAX)
                    &&& final(self).records() == old(self).records()
                    &&& final(self).schemas() == old(self).schemas()
                    &&& final(self).nonce_count() == old(self).nonce_count()
                },
            },
    {
        if self.nonces.count() == u64::MAX {
            return Err(VaultError::EncryptionFailed);
        }
        let blob = match encrypt(data, &self.key, &mut self.nonces) {
            Ok(b) => b,
            Err(_) => {
                return Err(VaultError::EncryptionFailed);
            },
        };
        let k = match key {
            Some(given) => given,
            None => new_id("sk"),
        };
        let _ = self.store.upsert(namespace, &k, blob, created_at);
        Ok(k)
    }

    /// Fetch the record at `(namespace, key)` and decrypt it. `NotFound`
    /// when no record lives there; `DecryptionFailed` when the blob does
    /// not authenticate under this vault's key.
    pub fn retrieve(&self, namespace: &String, key: &String) -> (r: Result<String, VaultError>)
        requires
            self.wf(),
        ensures
            match r {
                Ok(p) => {
                    &&& self.records().contains_key((namespace@, key@))
                    &&& spec_decrypt(
                        self.key_view(),
                        self.records()[(namespace@, key@)].0,
                    ) == Some(p@)
                },
                Err(e) => {
                    ||| (e == VaultError::NotFound && !self.records().contains_key(
                        (namespace@, key@),
                    ))
                    ||| (e == VaultError::DecryptionFailed && self.records().contains_key(
                        (namespace@, key@),
                    ) && spec_decrypt(
                        self.key_view(),
                        self.records()[(namespace@, key@)].0,
                    ) is None)
                },
            },
    {
        let blob = match self.store.get(namespace, key) {
            Ok(b) => b,
            Err(_) => {
                return Err(VaultError::NotFound);
            },
        };
        match decrypt(blob.as_str(), &self.key) {
            Ok(p) => Ok(p),
            Err(_) => Err(VaultError::DecryptionFailed),
        }
    }

    /// Load one at-rest row, as a persistence layer does when it restores
    /// the vault from a durable backend at startup. The blob is stored as
    /// given; whether it decrypts is judged only when it is read.
    pub fn import_record(&mut self, namespace: &String, key: &String, blob: String, created_at: i64)
        requires
            old(self).wf(),
        ensures
            final(self).wf(),
            final(self).key_view() == old(self).key_view(),
            final(self).nonce_count() == old(self).nonce_count(),
            final(self).records() == old(self).records().insert(
                (namespace@, key@),
                (blob@, created_at),
            ),
            final(self).schemas() == old(self).schemas().insert(namespace@),
    {
        let _ = self.store.upsert(namespace, key, blob, created_at);
    }

    /// The at-rest form of the record at `(namespace, key)`, for a
    /// persistence layer mirroring this vault into a durable backend.
    /// Only the encrypted blob ever leaves; plaintext does not.
    pub fn blob_at(&self, namespace: &String, key: &String) -> (r: Option<String>)
        requires
            self.wf(),
        ensures
            match r {
                Some(blob) => self.records().contains_key((namespace@, key@)) && self.records()[
                    (namespace@, key@)
                ].0 == blob@,
                None => !self.records().contains_key((namespace@, key@)),
            },
    {
        match self.store.get(namespace, key) {
            Ok(b) => Some(b),
            Err(_) => None,
        }
    }

    /// Remove the record at `(namespace, key)`, reporting whether one
    /// existed. Removing an absent key is not an error here; the caller
    /// picks how to surface `false`.
    pub fn remove(&mut self, namespace: &String, key: &String) -> (r: bool)
        requires
            old(self).wf(),
        ensures
            final(self).wf(),
            final(self).key_view() == old(self).key_view(),
            final(self).records() == old(self).records().remove((namespace@, key@)),
            final(self).schemas() == old(self).schemas(),
            final(self).nonce_count() == old(self).nonce_count(),
            r == old(self).records().contains_key((namespace@, key@)),
    {
        match self.store.delete(namespace, key) {
            Ok(existed) => existed,
            Err(_) => false,
        }
    }
}

} // verus!
