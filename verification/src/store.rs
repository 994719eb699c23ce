//! The storage backend: a durable mapping from `(namespace, key)` to an
//! encrypted blob with its create timestamp. Namespaces are isolated by
//! construction: the record map is keyed by the pair, so a lookup scoped
//! to one namespace can never observe another's rows.

use vstd::prelude::*;

verus! {

/// Error a storage operation can report.
#[derive(Clone, Copy, Debug, PartialEq, Eq, Structural)]
pub enum StorageError {
    NotFound,
}

/// One stored row: an encrypted blob at `(namespace, key)`, with the
/// timestamp of the write that put it there.
pub struct SecretRecord {
    pub namespace: String,
    pub key: String,
    pub blob: String,
    pub created_at: i64,
}

/// The pair that identifies a record.
pub open spec fn record_id(r: SecretRecord) -> (Seq<char>, Seq<char>) {
    (r.namespace@, r.key@)
}

/// What a record holds at its identifier.
pub open spec fn record_payload(r: SecretRecord) -> (Seq<char>, i64) {
    (r.blob@, r.created_at)
}

/// The in-memory backend: the reference implementation of the storage
/// contract, also serving as the volatile cache variant.
pub struct MemStore {
    records: Vec<SecretRecord>,
    namespaces: Vec<String>,
}

/// The map denoted by a sequence of records, later rows winning.
pub open spec fn map_of(rs: Seq<SecretRecord>) -> Map<(Seq<char>, Seq<char>), (Seq<char>, i64)>
    decreases rs.len(),
{
    if rs.len() == 0 {
        Map::empty()
    } else {
        map_of(rs.drop_last()).insert(record_id(rs.last()), record_payload(rs.last()))
    }
}

/// A key is in the map exactly when some row carries it.
pub proof fn lemma_map_of_domain(rs: Seq<SecretRecord>, p: (Seq<char>, Seq<char>))
    ensures
        map_of(rs).contains_key(p) <==> exists|i: int|
            0 <= i < rs.len() && record_id(#[trigger] rs[i]) == p,
    decreases rs.len(),
{
    if rs.len() == 0 {
    } else {
        lemma_map_of_domain(rs.drop_last(), p);
        if record_id(rs.last()) == p {
            assert(record_id(rs[rs.len() - 1]) == p);
        } else {
            assert(forall|i: int|
                0 <= i < rs.len() - 1 ==> rs.drop_last()[i] == #[trigger] rs[i]);
        }
    }
}

/// Rows carry pairwise distinct identifiers.
pub open spec fn distinct_ids(rs: Seq<SecretRecord>) -> bool {
    forall|i: int, j: int|
        0 <= i < j < rs.len() ==> record_id(#[trigger] rs[i]) != record_id(#[trigger] rs[j])
}

/// With distinct identifiers, the map's value at a row's identifier is
/// that row's payload.
pub proof fn lemma_map_of_index(rs: Seq<SecretRecord>, i: int)
    requires
        distinct_ids(rs),
        0 <= i < rs.len(),
    ensures
        map_of(rs).contains_key(record_id(rs[i])),
        map_of(rs)[record_id(rs[i])] == record_payload(rs[i]),
    decreases rs.len(),
{
    lemma_map_of_domain(rs, record_id(rs[i]));
    if i == rs.len() - 1 {
    } else {
        assert(rs.drop_last()[i] == rs[i]);
        lemma_map_of_index(rs.drop_last(), i);
        assert(record_id(rs.last()) != record_id(rs[i]));
    }
}

/// With distinct identifiers, removing a row removes exactly its entry.
pub proof fn lemma_map_of_remove(rs: Seq<SecretRecord>, i: int)
    requires
        distinct_ids(rs),
        0 <= i < rs.len(),
    ensures
        map_of(rs.remove(i)) =~= map_of(rs).remove(record_id(rs[i])),
    decreases rs.len(),
{
    let p = record_id(rs[i]);
    if i == rs.len() - 1 {
        assert(rs.remove(i) =~= rs.drop_last());
        lemma_map_of_domain(rs.drop_last(), p);
        assert(forall|j: int|
            0 <= j < rs.len() - 1 ==> record_id(#[trigger] rs.drop_last()[j]) != p);
        assert(!map_of(rs.drop_last()).contains_key(p));
        assert(map_of(rs).remove(p) =~= map_of(rs.drop_last()));
    } else {
        assert(forall|j: int|
            0 <= j < rs.len() - 1 ==> rs.drop_last()[j] == #[trigger] rs[j]);
        lemma_map_of_remove(rs.drop_last(), i);
        assert(rs.remove(i).drop_last() =~= rs.drop_last().remove(i));
        assert(rs.remove(i).last() == rs.last());
        assert(record_id(rs.last()) != p);
    }
}

impl MemStore {
    /// The records this backend holds, as a map from `(namespace, key)`
    /// to `(blob, created_at)`.
    pub closed spec fn contents(self) -> Map<(Seq<char>, Seq<char>), (Seq<char>, i64)> {
        map_of(self.records@)
    }

    /// The namespaces whose storage structure has been provisioned.
    pub closed spec fn schemas(self) -> Set<Seq<char>> {
        self.namespaces@.map_values(|s: String| s@).to_set()
    }

    /// Internal consistency: rows carry pairwise distinct identifiers.
    pub closed spec fn inv(self) -> bool {
        distinct_ids(self.records@)
    }

    /// An empty backend.
    pub fn new() -> (r: MemStore)
        ensures
            r.inv(),
            r.contents() == Map::<(Seq<char>, Seq<char>), (Seq<char>, i64)>::empty(),
            r.schemas() == Set::<Seq<char>>::empty(),
    {
        let r = MemStore { records: Vec::new(), namespaces: Vec::new() };
        proof {
            assert(r.schemas() =~= Set::<Seq<char>>::empty());
        }
        r
    }

    /// The index of the row at `(namespace, key)`, if one exists.
    fn find(&self, namespace: &String, key: &String) -> (r: Option<usize>)
        ensures
            match r {
                Some(i) => i < self.records@.len() && record_id(self.records@[i as int]) == (
                    namespace@,
                    key@,
                ),
                None => forall|i: int|
                    0 <= i < self.records@.len() ==> record_id(#[trigger] self.records@[i]) != (
                        namespace@,
                        key@,
                    ),
            },
    {
        let n = self.records.len();
        for i in 0..n
            invariant
                n == self.records@.len(),
                forall|j: int|
                    0 <= j < i ==> record_id(#[trigger] self.records@[j]) != (namespace@, key@),
        {
            if self.records[i].namespace == *namespace && self.records[i].key == *key {
                return Some(i);
            }
        }
        None
    }

    /// Provision the namespace's storage structure if it is absent.
    /// Idempotent: a second call changes nothing.
    pub fn ensure_schema(&mut self, namespace: &String) -> (r: Result<(), StorageError>)
        requires
            old(self).inv(),
        ensures
            final(self).inv(),
            r is Ok,
            final(self).schemas() == old(self).schemas().insert(namespace@),
            final(self).contents() == old(self).contents(),
    {
        let n = self.namespaces.len();
        for i in 0..n
            invariant
                n == self.namespaces@.len(),
                *self == *old(self),
                old(self).inv(),
                forall|j: int| 0 <= j < i ==> #[trigger] self.namespaces@[j]@ != namespace@,
        {
            if self.namespaces[i] == *namespace {
                proof {
                    assert(self.inv());
                    assert(self.namespaces@.map_values(|s: String| s@)[i as int] == namespace@);
                    assert(self.schemas().contains(namespace@));
                    assert(self.schemas() =~= self.schemas().insert(namespace@));
                }
                return Ok(());
            }
        }
        let ghost before = self.namespaces@;
        self.namespaces.push(namespace.clone());
        proof {
            assert(self.namespaces@.map_values(|s: String| s@) =~= before.map_values(
                |s: String| s@,
            ).push(namespace@));
            before.map_values(|s: String| s@).lemma_push_to_set_commute(namespace@);
        }
        Ok(())
    }

    /// Insert or fully replace the record at `(namespace, key)`. The
    /// namespace is provisioned on first use.
    pub fn upsert(&mut self, namespace: &String, key: &String, blob: String, created_at: i64) -> (r:
        Result<(), StorageError>)
        requires
            old(self).inv(),
        ensures
            final(self).inv(),
            r is Ok,
            final(self).contents() == old(self).contents().insert(
                (namespace@, key@),
                (blob@, created_at),
            ),
            final(self).schemas() == old(self).schemas().insert(namespace@),
    {
        let _ = self.ensure_schema(namespace);
        let ghost p = (namespace@, key@);
        let ghost mid = self.records@;
        match self.find(namespace, key) {
            Some(i) => {
                proof {
                    lemma_map_of_remove(mid, i as int);
                }
                let _row = self.records.remove(i);
                proof {
                    assert(self.records@ =~= mid.remove(i as int));
                    assert forall|j: int|
                        0 <= j < self.records@.len() implies record_id(
                        #[trigger] self.records@[j],
                    ) != p by {
                        if j < i {
                            assert(self.records@[j] == mid[j]);
                        } else {
                            assert(self.records@[j] == mid[j + 1]);
                        }
                    }
                    assert(distinct_ids(self.records@)) by {
                        assert forall|j: int, k: int|
                            0 <= j < k < self.records@.len() implies record_id(
                            #[trigger] self.records@[j],
                        ) != record_id(#[trigger] self.records@[k]) by {
                            let j0: int = if j < i { j } else { j + 1 };
                            let k0: int = if k < i { k } else { k + 1 };
                            assert(self.records@[j] == mid[j0]);
                            assert(self.records@[k] == mid[k0]);
                        }
                    }
                }
            },
            None => {
                proof {
                    lemma_map_of_domain(mid, p);
                    assert(map_of(self.records@) =~= map_of(mid).remove(p));
                }
            },
        }
        let ghost removed = self.records@;
        let row = SecretRecord {
            namespace: namespace.clone(),
            key: key.clone(),
            blob,
            created_at,
        };
        self.records.push(row);
        proof {
            assert(self.records@.drop_last() =~= removed);
            assert(self.records@.last() == row);
            assert(map_of(self.records@) == map_of(removed).insert(p, (blob@, created_at)));
            assert(map_of(removed).insert(p, (blob@, created_at)) =~= map_of(mid).insert(
                p,
                (blob@, created_at),
            ));
            assert forall|j: int, k: int|
                0 <= j < k < self.records@.len() implies record_id(
                #[trigger] self.records@[j],
            ) != record_id(#[trigger] self.records@[k]) by {
                if k == self.records@.len() - 1 {
                    assert(self.records@[j] == removed[j]);
                    assert(record_id(removed[j]) != p);
                } else {
                    assert(self.records@[j] == removed[j]);
                    assert(self.records@[k] == removed[k]);
                }
            }
        }
        Ok(())
    }

    /// The blob stored at `(namespace, key)`, or `NotFound` if no live
    /// record exists for that pair.
    pub fn get(&self, namespace: &String, key: &String) -> (r: Result<String, StorageError>)
        requires
            self.inv(),
        ensures
            match r {
                Ok(blob) => self.contents().contains_key((namespace@, key@))
                    && self.contents()[(namespace@, key@)].0 == blob@,
                Err(e) => e == StorageError::NotFound && !self.contents().contains_key(
                    (namespace@, key@),
                ),
            },
    {
        match self.find(namespace, key) {
            Some(i) => {
                proof {
                    lemma_map_of_index(self.records@, i as int);
                }
                Ok(self.records[i].blob.clone())
            },
            None => {
                proof {
                    lemma_map_of_domain(self.records@, (namespace@, key@));
                }
                Err(StorageError::NotFound)
            },
        }
    }

    /// Remove the record at `(namespace, key)`, reporting whether one
    /// existed. Deleting an absent key is not an error.
    pub fn delete(&mut self, namespace: &String, key: &String) -> (r: Result<bool, StorageError>)
        requires
            old(self).inv(),
        ensures
            final(self).inv(),
            r is Ok,
            r->Ok_0 == old(self).contents().contains_key((namespace@, key@)),
            final(self).contents() == old(self).contents().remove((namespace@, key@)),
            final(self).schemas() == old(self).schemas(),
    {
        let ghost before = self.records@;
        match self.find(namespace, key) {
            Some(i) => {
                proof {
                    lemma_map_of_remove(before, i as int);
                    lemma_map_of_domain(before, (namespace@, key@));
                }
                let _row = self.records.remove(i);
                Ok(true)
            },
            None => {
                proof {
                    lemma_map_of_domain(before, (namespace@, key@));
                    assert(self.contents() =~= self.contents().remove((namespace@, key@)));
                }
                Ok(false)
            },
        }
    }
}

/// Writing under one namespace is invisible to every other: after an
/// upsert under `(a, k)`, a lookup under `(b, k)` for any other
/// namespace `b` sees exactly what it saw before.
pub proof fn lemma_namespace_isolation(
    m: Map<(Seq<char>, Seq<char>), (Seq<char>, i64)>,
    a: Seq<char>,
    b: Seq<char>,
    k: Seq<char>,
    v: (Seq<char>, i64),
)
    requires
        a != b,
    ensures
        m.insert((a, k), v).contains_key((b, k)) == m.contains_key((b, k)),
        m.contains_key((b, k)) ==> m.insert((a, k), v)[(b, k)] == m[(b, k)],
{
}

/// Replace semantics: two upserts at one key leave the later value.
pub proof fn lemma_upsert_replaces(
    m: Map<(Seq<char>, Seq<char>), (Seq<char>, i64)>,
    p: (Seq<char>, Seq<char>),
    v1: (Seq<char>, i64),
    v2: (Seq<char>, i64),
)
    ensures
        m.insert(p, v1).insert(p, v2) == m.insert(p, v2),
        m.insert(p, v2)[p] == v2,
{
    assert(m.insert(p, v1).insert(p, v2) =~= m.insert(p, v2));
}

/// A deleted key reads as absent until it is written again.
pub proof fn lemma_delete_then_absent(
    m: Map<(Seq<char>, Seq<char>), (Seq<char>, i64)>,
    p: (Seq<char>, Seq<char>),
)
    ensures
        !m.remove(p).contains_key(p),
{
}

} // verus!
