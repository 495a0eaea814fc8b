//! Payload storage adapter: JSON-document get, set, merge, delete and
//! clear by point offset, with a read cache in front of the engine.
//!
//! The cache is write-through and coherent by construction: it is
//! populated on read-miss-then-fetch and on every write, and an entry is
//! evicted only by the per-key clear.  Iteration walks the cache alone —
//! documents never read into it are invisible there, a capability gap the
//! contract states rather than hides.

use vstd::prelude::*;
use vstd::string::StringExecFns;
use crate::engine::Collection;
use crate::engine::CollectionConfig;
use crate::engine::Engine;
use crate::engine::SpecPoint;
use crate::engine::lemma_find_upsert_other;
use crate::engine::lemma_find_upsert_same;
use crate::engine::sat_inc;
use crate::engine::spec_find;
use crate::engine::upsert_pt;
use crate::errors::CODE_OK;
use crate::errors::VdeError;
use crate::json::JsonPath;
use crate::json::JsonValue;
use crate::json::SpecJson;
use crate::json::merge;
use crate::json::merge_at_path;
use crate::json::merge_json;
use crate::json::remove_at_path;
use crate::json::remove_path;
use crate::json::set_path;
use crate::types::Distance;

verus! {

broadcast use vstd::std_specs::vec::group_vec_axioms, vstd::seq::group_seq_axioms;

/// The payload stored under `id` where the record is live and carries one.
pub open spec fn stored_payload(pts: Seq<(u64, SpecPoint)>, id: u32) -> Option<SpecJson> {
    match spec_find(pts, id as u64) {
        Some(pt) => if !pt.deleted {
            pt.payload
        } else {
            None
        },
        None => None,
    }
}

/// What a get answers for `id`: the stored document, or the empty one —
/// the silent mapping of a native not-found answer.
pub open spec fn effective_payload(pts: Seq<(u64, SpecPoint)>, id: u32) -> SpecJson {
    match stored_payload(pts, id) {
        Some(p) => p,
        None => SpecJson::Obj(Seq::empty()),
    }
}

/// The document cached under `id`, if any: the first entry with that
/// offset.
pub open spec fn cget(s: Seq<(u32, JsonValue)>, id: u32) -> Option<SpecJson>
    decreases s.len(),
{
    if s.len() == 0 {
        None
    } else if s[0].0 == id {
        Some(s[0].1@)
    } else {
        cget(s.drop_first(), id)
    }
}

/// `cget` finds the entry at the first index whose offset is `id`.
proof fn lemma_cget_at(s: Seq<(u32, JsonValue)>, id: u32, p: int)
    requires
        0 <= p < s.len(),
        s[p].0 == id,
        forall|j: int| 0 <= j < p ==> s[j].0 != id,
    ensures
        cget(s, id) == Some(s[p].1@),
    decreases p,
{
    if p > 0 {
        lemma_cget_at(s.drop_first(), id, p - 1);
    }
}

/// `cget` finds nothing when no entry carries `id`.
proof fn lemma_cget_absent(s: Seq<(u32, JsonValue)>, id: u32)
    requires
        forall|j: int| 0 <= j < s.len() ==> s[j].0 != id,
    ensures
        cget(s, id) is None,
    decreases s.len(),
{
    if s.len() > 0 {
        lemma_cget_absent(s.drop_first(), id);
    }
}

/// Pointwise effect of updating the first entry under `id`.
proof fn lemma_cget_update(s: Seq<(u32, JsonValue)>, id: u32, v: JsonValue, p: int)
    requires
        0 <= p < s.len(),
        s[p].0 == id,
        forall|j: int| 0 <= j < p ==> s[j].0 != id,
    ensures
        forall|k: u32| #[trigger]
            cget(s.update(p, (id, v)), k) == if k == id {
                Some(v@)
            } else {
                cget(s, k)
            },
    decreases p,
{
    let r = s.update(p, (id, v));
    if p == 0 {
        assert forall|k: u32| #[trigger]
            cget(r, k) == if k == id {
                Some(v@)
            } else {
                cget(s, k)
            } by {
            assert(r.drop_first() =~= s.drop_first());
        }
    } else {
        lemma_cget_update(s.drop_first(), id, v, p - 1);
        assert forall|k: u32| #[trigger]
            cget(r, k) == if k == id {
                Some(v@)
            } else {
                cget(s, k)
            } by {
            assert(r.drop_first() =~= s.drop_first().update(p - 1, (id, v)));
            assert(cget(s.drop_first().update(p - 1, (id, v)), k) == if k == id {
                Some(v@)
            } else {
                cget(s.drop_first(), k)
            });
        }
    }
}

/// Pointwise effect of appending an entry under an offset not yet cached.
proof fn lemma_cget_push(s: Seq<(u32, JsonValue)>, id: u32, v: JsonValue)
    requires
        forall|j: int| 0 <= j < s.len() ==> s[j].0 != id,
    ensures
        forall|k: u32| #[trigger]
            cget(s.push((id, v)), k) == if k == id {
                Some(v@)
            } else {
                cget(s, k)
            },
    decreases s.len(),
{
    if s.len() == 0 {
        assert forall|k: u32| #[trigger]
            cget(s.push((id, v)), k) == if k == id {
                Some(v@)
            } else {
                cget(s, k)
            } by {
            assert(s.push((id, v)).drop_first() =~= s);
        }
    } else {
        lemma_cget_push(s.drop_first(), id, v);
        assert forall|k: u32| #[trigger]
            cget(s.push((id, v)), k) == if k == id {
                Some(v@)
            } else {
                cget(s, k)
            } by {
            assert(s.push((id, v)).drop_first() =~= s.drop_first().push((id, v)));
            assert(cget(s.drop_first().push((id, v)), k) == if k == id {
                Some(v@)
            } else {
                cget(s.drop_first(), k)
            });
            assert(s.push((id, v))[0] == s[0]);
        }
    }
}

/// Pointwise effect of removing the only entry under `id`.
proof fn lemma_cget_remove(s: Seq<(u32, JsonValue)>, id: u32, p: int)
    requires
        0 <= p < s.len(),
        s[p].0 == id,
        forall|j: int| 0 <= j < s.len() && j != p ==> s[j].0 != id,
    ensures
        forall|k: u32| #[trigger]
            cget(s.remove(p), k) == if k == id {
                None
            } else {
                cget(s, k)
            },
    decreases p,
{
    let r = s.remove(p);
    s.remove_ensures(p);
    if p == 0 {
        assert forall|k: u32| #[trigger]
            cget(r, k) == if k == id {
                None
            } else {
                cget(s, k)
            } by {
            assert(r =~= s.drop_first());
            if k == id {
                lemma_cget_absent(s.drop_first(), id);
            }
        }
    } else {
        lemma_cget_remove(s.drop_first(), id, p - 1);
        assert forall|k: u32| #[trigger]
            cget(r, k) == if k == id {
                None
            } else {
                cget(s, k)
            } by {
            assert(r.drop_first() =~= s.drop_first().remove(p - 1));
            assert(cget(s.drop_first().remove(p - 1), k) == if k == id {
                None
            } else {
                cget(s.drop_first(), k)
            });
            assert(r[0] == s[0]);
        }
    }
}

/// A cache whose every entry matches the store answers coherently for
/// any offset it holds.
proof fn lemma_cget_coherent(s: Seq<(u32, JsonValue)>, pts: Seq<(u64, SpecPoint)>, k: u32)
    requires
        forall|i: int|
            0 <= i < s.len() ==> stored_payload(pts, (#[trigger] s[i]).0) == Some(s[i].1@),
    ensures
        cget(s, k) is Some ==> stored_payload(pts, k) == cget(s, k),
    decreases s.len(),
{
    if s.len() > 0 && s[0].0 != k {
        assert forall|i: int|
            0 <= i < s.drop_first().len() implies stored_payload(
            pts,
            (#[trigger] s.drop_first()[i]).0,
        ) == Some(s.drop_first()[i].1@) by {
            assert(s.drop_first()[i] == s[i + 1]);
        }
        lemma_cget_coherent(s.drop_first(), pts, k);
    }
}

/// Payload storage backed by the engine, with the read cache beside it.
#[derive(Debug)]
pub struct VDEPayloadStorage {
    pub engine: Engine,
    pub coll: Collection,
    pub name: String,
    pub path: String,
    pub cache: Vec<(u32, JsonValue)>,
}

impl VDEPayloadStorage {
    /// The cached entries.
    pub open spec fn cache_entries(self) -> Seq<(u32, JsonValue)> {
        self.cache@
    }

    /// Well-formedness: the collection is sound, cached offsets are
    /// distinct, and every cached document is exactly the stored one —
    /// the cache's coherence contract.
    pub open spec fn wf(self) -> bool {
        &&& self.engine.wf()
        &&& self.coll.wf()
        &&& forall|i: int, j: int|
            0 <= i < j < self.cache@.len() ==> (#[trigger] self.cache@[i]).0 != (
            #[trigger] self.cache@[j]).0
        &&& forall|i: int|
            0 <= i < self.cache@.len() ==> stored_payload(
                self.coll.pts(),
                (#[trigger] self.cache@[i]).0,
            ) == Some(self.cache@[i].1@)
    }

    /// A fresh payload storage adapter: its own engine session rooted at
    /// `path`, a collection created from the given dimension and metric,
    /// and an empty cache.  A fresh session holds nothing, so the open
    /// step of open-or-create always misses here and creation follows.
    pub fn new(path: &str, name: &str, dimension: u32, distance: Distance) -> (r: Result<
        VDEPayloadStorage,
        VdeError,
    >)
        ensures
            match r {
                Ok(s) => {
                    &&& s.wf()
                    &&& s.name@ == name@
                    &&& s.path@ == path@
                    &&& s.coll.config.dimension == dimension
                    &&& s.coll.config.distance_metric == distance
                    &&& s.coll.config.index_type@ == "vsag_hnsw"@
                    &&& s.coll.config.storage_type@ == "zendb"@
                    &&& s.coll.pts().len() == 0
                    &&& s.cache@.len() == 0
                    &&& s.coll.calls == 0
                    &&& s.coll.flushes == 0
                    &&& s.engine.collections@.len() == 0
                },
                Err(_) => false,
            },
    {
        let mut engine = Engine::create(String::from_str(path));
        let owned_name = String::from_str(name);
        let config = CollectionConfig {
            index_type: String::from_str("vsag_hnsw"),
            storage_type: String::from_str("zendb"),
            dimension,
            distance_metric: distance,
            config_json: None,
        };
        let coll = engine.open_or_create(&owned_name, config);
        Ok(
            VDEPayloadStorage {
                engine,
                coll,
                name: owned_name,
                path: String::from_str(path),
                cache: Vec::new(),
            },
        )
    }

    /// Index of the first cache entry under `id`, if any.
    fn cache_find(&self, id: u32) -> (r: Option<usize>)
        ensures
            match r {
                Some(p) => {
                    &&& p < self.cache@.len()
                    &&& self.cache@[p as int].0 == id
                    &&& forall|j: int| 0 <= j < p ==> self.cache@[j].0 != id
                    &&& cget(self.cache@, id) == Some(self.cache@[p as int].1@)
                },
                None => {
                    &&& cget(self.cache@, id) is None
                    &&& forall|j: int| 0 <= j < self.cache@.len() ==> self.cache@[j].0 != id
                },
            },
    {
        let mut i: usize = 0;
        while i < self.cache.len()
            invariant
                i <= self.cache@.len(),
                forall|j: int| 0 <= j < i ==> self.cache@[j].0 != id,
            decreases self.cache@.len() - i,
        {
            if self.cache[i].0 == id {
                proof {
                    lemma_cget_at(self.cache@, id, i as int);
                }
                return Some(i);
            }
            i += 1;
        }
        proof {
            lemma_cget_absent(self.cache@, id);
        }
        None
    }

    /// Cache `doc` under `id`: update the entry in place, or append one.
    fn cache_put(&mut self, id: u32, doc: JsonValue)
        requires
            forall|i: int, j: int|
                0 <= i < j < old(self).cache@.len() ==> (#[trigger] old(self).cache@[i]).0 != (
                #[trigger] old(self).cache@[j]).0,
        ensures
            (*final(self) == VDEPayloadStorage { cache: final(self).cache, ..*old(self) }),
            forall|i: int, j: int|
                0 <= i < j < final(self).cache@.len() ==> (#[trigger] final(self).cache@[i]).0 != (
                #[trigger] final(self).cache@[j]).0,
            forall|k: u32| #[trigger]
                cget(final(self).cache@, k) == if k == id {
                    Some(doc@)
                } else {
                    cget(old(self).cache@, k)
                },
            final(self).cache@.len() <= old(self).cache@.len() + 1,
    {
        let ghost pre = self.cache@;
        match self.cache_find(id) {
            Some(p) => {
                let _ = self.cache.remove(p);
                let ghost mid = self.cache@;
                let ghost entry = (id, doc);
                self.cache.insert(p, (id, doc));
                proof {
                    mid.insert_ensures(p as int, entry);
                    assert(self.cache@ =~= pre.update(p as int, entry));
                    lemma_cget_update(pre, id, entry.1, p as int);
                }
            },
            None => {
                let ghost entry = (id, doc);
                self.cache.push((id, doc));
                proof {
                    lemma_cget_push(pre, id, entry.1);
                }
            },
        }
    }

    /// The document under `id`: the cache answers a hit without a native
    /// call; a miss fetches from the engine, populates the cache when the
    /// record is stored, and answers the empty document when it is not.
    fn get_payload_internal(&mut self, id: u32) -> (r: Result<JsonValue, VdeError>)
        requires
            old(self).wf(),
        ensures
            final(self).wf(),
            (*final(self) == VDEPayloadStorage {
                coll: final(self).coll,
                cache: final(self).cache,
                ..*old(self)
            }),
            (final(self).coll == Collection { calls: final(self).coll.calls, ..old(self).coll }),
            match r {
                Ok(doc) => doc@ == effective_payload(old(self).coll.pts(), id),
                Err(_) => false,
            },
            cget(old(self).cache@, id) is Some ==> *final(self) == *old(self),
            cget(old(self).cache@, id) is None ==> {
                &&& final(self).coll.calls == sat_inc(old(self).coll.calls)
                &&& forall|k: u32| #[trigger]
                    cget(final(self).cache@, k) == if k == id {
                        stored_payload(old(self).coll.pts(), id)
                    } else {
                        cget(old(self).cache@, k)
                    }
            },
    {
        match self.cache_find(id) {
            Some(p) => {
                let doc = self.cache[p].1.deep_copy();
                return Ok(doc);
            },
            None => (),
        }
        let (code, _, pl) = self.coll.get(id as u64, false, true);
        if code == CODE_OK {
            match pl {
                Some(doc) => {
                    let copy = doc.deep_copy();
                    let ghost pre_cache = old(self).cache@;
                    self.cache_put(id, doc);
                    proof {
                        assert forall|i: int|
                            0 <= i < self.cache@.len() implies stored_payload(
                            self.coll.pts(),
                            (#[trigger] self.cache@[i]).0,
                        ) == Some(self.cache@[i].1@) by {
                            let k = self.cache@[i].0;
                            assert forall|q: int| 0 <= q < i implies self.cache@[q].0 != k by {}
                            lemma_cget_at(self.cache@, k, i as int);
                            if k != id {
                                lemma_cget_coherent(pre_cache, old(self).coll.pts(), k);
                            }
                        }
                    }
                    return Ok(copy);
                },
                None => {
                    proof {
                        assert(false);
                    }
                },
            }
        }
        proof {
            assert(forall|k: u32| #[trigger]
                cget(self.cache@, k) == if k == id {
                    stored_payload(old(self).coll.pts(), id)
                } else {
                    cget(old(self).cache@, k)
                });
        }
        let empty: Vec<(String, JsonValue)> = Vec::new();
        let r = JsonValue::Obj(empty);
        proof {
            assert(crate::json::obj_view(r->Obj_0@) =~= Seq::<(Seq<char>, SpecJson)>::empty());
        }
        Ok(r)
    }

    /// Write `payload` as the whole document under `id`: upsert into the
    /// engine and populate the cache.
    fn set_payload_internal(&mut self, id: u32, payload: &JsonValue) -> (r: Result<(), VdeError>)
        requires
            old(self).wf(),
        ensures
            final(self).wf(),
            (*final(self) == VDEPayloadStorage {
                coll: final(self).coll,
                cache: final(self).cache,
                ..*old(self)
            }),
            (final(self).coll == Collection {
                calls: final(self).coll.calls,
                points: final(self).coll.points,
                ..old(self).coll
            }),
            final(self).coll.calls == sat_inc(old(self).coll.calls),
            final(self).coll.pts() == upsert_pt(
                old(self).coll.pts(),
                id as u64,
                None,
                Some(payload@),
            ),
            forall|k: u32| #[trigger]
                cget(final(self).cache@, k) == if k == id {
                    Some(payload@)
                } else {
                    cget(old(self).cache@, k)
                },
            r is Ok,
    {
        let ghost pre_pts = self.coll.pts();
        let copy = payload.deep_copy();
        let code = self.coll.upsert(id as u64, None, Some(payload));
        proof {
            assert(code == CODE_OK);
        }
        self.cache_put(id, copy);
        proof {
            lemma_find_upsert_same(pre_pts, id as u64, None, Some(payload@));
            assert forall|i: int|
                0 <= i < self.cache@.len() implies stored_payload(
                self.coll.pts(),
                (#[trigger] self.cache@[i]).0,
            ) == Some(self.cache@[i].1@) by {
                let k = self.cache@[i].0;
                assert forall|q: int| 0 <= q < i implies self.cache@[q].0 != k by {}
                lemma_cget_at(self.cache@, k, i as int);
                if k != id {
                    lemma_find_upsert_other(pre_pts, id as u64, None, Some(payload@), k as u64);
                    assert(cget(self.cache@, k) == cget(old(self).cache@, k));
                    lemma_cget_coherent(old(self).cache@, pre_pts, k);
                }
            }
        }
        Ok(())
    }

    /// Unconditional whole-document replace.
    pub fn overwrite(&mut self, id: u32, payload: &JsonValue) -> (r: Result<(), VdeError>)
        requires
            old(self).wf(),
        ensures
            final(self).wf(),
            (*final(self) == VDEPayloadStorage {
                coll: final(self).coll,
                cache: final(self).cache,
                ..*old(self)
            }),
            (final(self).coll == Collection {
                calls: final(self).coll.calls,
                points: final(self).coll.points,
                ..old(self).coll
            }),
            stored_payload(final(self).coll.pts(), id) == Some(payload@),
            forall|k: u32|
                k != id ==> #[trigger] stored_payload(final(self).coll.pts(), k)
                    == stored_payload(old(self).coll.pts(), k),
            forall|k: u32| #[trigger]
                cget(final(self).cache@, k) == if k == id {
                    Some(payload@)
                } else {
                    cget(old(self).cache@, k)
                },
            r is Ok,
    {
        let ghost pre_pts = self.coll.pts();
        let r = self.set_payload_internal(id, payload);
        proof {
            lemma_find_upsert_same(pre_pts, id as u64, None, Some(payload@));
            assert forall|k: u32|
                k != id implies #[trigger] stored_payload(self.coll.pts(), k) == stored_payload(
                pre_pts,
                k,
            ) by {
                lemma_find_upsert_other(pre_pts, id as u64, None, Some(payload@), k as u64);
            }
        }
        r
    }

    /// Read-modify-write merge: fetch the whole stored document, merge
    /// the partial document over it — new keys win, arrays replace — and
    /// write the merged whole back.
    pub fn set(&mut self, id: u32, payload: &JsonValue) -> (r: Result<(), VdeError>)
        requires
            old(self).wf(),
        ensures
            final(self).wf(),
            (*final(self) == VDEPayloadStorage {
                coll: final(self).coll,
                cache: final(self).cache,
                ..*old(self)
            }),
            (final(self).coll == Collection {
                calls: final(self).coll.calls,
                points: final(self).coll.points,
                ..old(self).coll
            }),
            stored_payload(final(self).coll.pts(), id) == Some(
                merge(effective_payload(old(self).coll.pts(), id), payload@),
            ),
            forall|k: u32|
                k != id ==> #[trigger] stored_payload(final(self).coll.pts(), k)
                    == stored_payload(old(self).coll.pts(), k),
            forall|k: u32| #[trigger]
                cget(final(self).cache@, k) == if k == id {
                    Some(merge(effective_payload(old(self).coll.pts(), id), payload@))
                } else {
                    cget(old(self).cache@, k)
                },
            r is Ok,
    {
        let existing = match self.get_payload_internal(id) {
            Ok(doc) => doc,
            Err(e) => {
                proof {
                    assert(false);
                }
                return Err(e);
            },
        };
        let merged = merge_json(existing, payload);
        self.overwrite(id, &merged)
    }

    /// The merge pattern of `set`, restricted to one JSON path.
    pub fn set_by_key(&mut self, id: u32, payload: &JsonValue, key: &JsonPath) -> (r: Result<
        (),
        VdeError,
    >)
        requires
            old(self).wf(),
        ensures
            final(self).wf(),
            (*final(self) == VDEPayloadStorage {
                coll: final(self).coll,
                cache: final(self).cache,
                ..*old(self)
            }),
            (final(self).coll == Collection {
                calls: final(self).coll.calls,
                points: final(self).coll.points,
                ..old(self).coll
            }),
            stored_payload(final(self).coll.pts(), id) == Some(
                merge_at_path(effective_payload(old(self).coll.pts(), id), key.keys(), payload@),
            ),
            forall|k: u32|
                k != id ==> #[trigger] stored_payload(final(self).coll.pts(), k)
                    == stored_payload(old(self).coll.pts(), k),
            forall|k: u32| #[trigger]
                cget(final(self).cache@, k) == if k == id {
                    Some(
                        merge_at_path(
                            effective_payload(old(self).coll.pts(), id),
                            key.keys(),
                            payload@,
                        ),
                    )
                } else {
                    cget(old(self).cache@, k)
                },
            r is Ok,
    {
        let existing = match self.get_payload_internal(id) {
            Ok(doc) => doc,
            Err(e) => {
                proof {
                    assert(false);
                }
                return Err(e);
            },
        };
        let merged = set_path(existing, key, payload);
        self.overwrite(id, &merged)
    }

    /// The document under `id`: cache lookup first, then fetch; a missing
    /// record answers the empty document.
    pub fn get(&mut self, id: u32) -> (r: Result<JsonValue, VdeError>)
        requires
            old(self).wf(),
        ensures
            final(self).wf(),
            (*final(self) == VDEPayloadStorage {
                coll: final(self).coll,
                cache: final(self).cache,
                ..*old(self)
            }),
            (final(self).coll == Collection { calls: final(self).coll.calls, ..old(self).coll }),
            final(self).coll.pts() == old(self).coll.pts(),
            match r {
                Ok(doc) => doc@ == effective_payload(old(self).coll.pts(), id),
                Err(_) => false,
            },
            cget(old(self).cache@, id) is Some ==> *final(self) == *old(self),
            cget(old(self).cache@, id) is None ==> {
                &&& final(self).coll.calls == sat_inc(old(self).coll.calls)
                &&& forall|k: u32| #[trigger]
                    cget(final(self).cache@, k) == if k == id {
                        stored_payload(old(self).coll.pts(), id)
                    } else {
                        cget(old(self).cache@, k)
                    }
            },
    {
        self.get_payload_internal(id)
    }

    /// Sequential access reads the same way as `get`.
    pub fn get_sequential(&mut self, id: u32) -> (r: Result<JsonValue, VdeError>)
        requires
            old(self).wf(),
        ensures
            final(self).wf(),
            (*final(self) == VDEPayloadStorage {
                coll: final(self).coll,
                cache: final(self).cache,
                ..*old(self)
            }),
            (final(self).coll == Collection { calls: final(self).coll.calls, ..old(self).coll }),
            final(self).coll.pts() == old(self).coll.pts(),
            match r {
                Ok(doc) => doc@ == effective_payload(old(self).coll.pts(), id),
                Err(_) => false,
            },
            cget(old(self).cache@, id) is Some ==> *final(self) == *old(self),
            cget(old(self).cache@, id) is None ==> {
                &&& final(self).coll.calls == sat_inc(old(self).coll.calls)
                &&& forall|k: u32| #[trigger]
                    cget(final(self).cache@, k) == if k == id {
                        stored_payload(old(self).coll.pts(), id)
                    } else {
                        cget(old(self).cache@, k)
                    }
            },
    {
        self.get_payload_internal(id)
    }

    /// Remove the value at `key` from the document under `id`, persist
    /// the remainder, and answer the removed values.
    pub fn delete(&mut self, id: u32, key: &JsonPath) -> (r: Result<Vec<JsonValue>, VdeError>)
        requires
            old(self).wf(),
        ensures
            final(self).wf(),
            (*final(self) == VDEPayloadStorage {
                coll: final(self).coll,
                cache: final(self).cache,
                ..*old(self)
            }),
            (final(self).coll == Collection {
                calls: final(self).coll.calls,
                points: final(self).coll.points,
                ..old(self).coll
            }),
            stored_payload(final(self).coll.pts(), id) == Some(
                remove_at_path(effective_payload(old(self).coll.pts(), id), key.keys()).0,
            ),
            forall|k: u32|
                k != id ==> #[trigger] stored_payload(final(self).coll.pts(), k)
                    == stored_payload(old(self).coll.pts(), k),
            forall|k: u32| #[trigger]
                cget(final(self).cache@, k) == if k == id {
                    Some(remove_at_path(effective_payload(old(self).coll.pts(), id), key.keys()).0)
                } else {
                    cget(old(self).cache@, k)
                },
            match r {
                Ok(removed) => {
                    let spec_removed = remove_at_path(
                        effective_payload(old(self).coll.pts(), id),
                        key.keys(),
                    ).1;
                    match spec_removed {
                        Some(v) => removed@.len() == 1 && removed@[0]@ == v,
                        None => removed@.len() == 0,
                    }
                },
                Err(_) => false,
            },
    {
        let existing = match self.get_payload_internal(id) {
            Ok(doc) => doc,
            Err(e) => {
                proof {
                    assert(false);
                }
                return Err(e);
            },
        };
        let (remainder, removed) = remove_path(existing, key);
        match self.overwrite(id, &remainder) {
            Ok(()) => (),
            Err(e) => {
                proof {
                    assert(false);
                }
                return Err(e);
            },
        }
        let mut out: Vec<JsonValue> = Vec::new();
        match removed {
            Some(v) => {
                out.push(v);
            },
            None => (),
        }
        Ok(out)
    }

    /// Clear: write the empty document, evict the cache entry, and answer
    /// the prior document — the empty one where nothing was stored.
    pub fn clear(&mut self, id: u32) -> (r: Result<Option<JsonValue>, VdeError>)
        requires
            old(self).wf(),
        ensures
            final(self).wf(),
            (*final(self) == VDEPayloadStorage {
                coll: final(self).coll,
                cache: final(self).cache,
                ..*old(self)
            }),
            (final(self).coll == Collection {
                calls: final(self).coll.calls,
                points: final(self).coll.points,
                ..old(self).coll
            }),
            stored_payload(final(self).coll.pts(), id) == Some(SpecJson::Obj(Seq::empty())),
            forall|k: u32|
                k != id ==> #[trigger] stored_payload(final(self).coll.pts(), k)
                    == stored_payload(old(self).coll.pts(), k),
            cget(final(self).cache@, id) is None,
            forall|k: u32|
                k != id ==> #[trigger] cget(final(self).cache@, k) == cget(old(self).cache@, k),
            match r {
                Ok(Some(doc)) => doc@ == effective_payload(old(self).coll.pts(), id),
                _ => false,
            },
    {
        let existing = match self.get_payload_internal(id) {
            Ok(doc) => doc,
            Err(e) => {
                proof {
                    assert(false);
                }
                return Err(e);
            },
        };
        let empty_entries: Vec<(String, JsonValue)> = Vec::new();
        let empty = JsonValue::Obj(empty_entries);
        proof {
            assert(crate::json::obj_view(empty->Obj_0@) =~= Seq::<(Seq<char>, SpecJson)>::empty());
        }
        match self.overwrite(id, &empty) {
            Ok(()) => (),
            Err(e) => {
                proof {
                    assert(false);
                }
                return Err(e);
            },
        }
        let ghost pre_cache = self.cache@;
        match self.cache_find(id) {
            Some(p) => {
                let _ = self.cache.remove(p);
                proof {
                    lemma_cget_remove(pre_cache, id, p as int);
                    pre_cache.remove_ensures(p as int);
                }
            },
            None => (),
        }
        Ok(Some(existing))
    }

    /// Drop every cache entry; the engine keeps what it holds.
    pub fn clear_all(&mut self) -> (r: Result<(), VdeError>)
        requires
            old(self).wf(),
        ensures
            final(self).wf(),
            (*final(self) == VDEPayloadStorage { cache: final(self).cache, ..*old(self) }),
            final(self).cache@.len() == 0,
            r is Ok,
    {
        self.cache.clear();
        Ok(())
    }

    /// The cached documents, in cache order: iteration walks the cache
    /// alone, so documents never read into it are invisible here.
    pub fn iter(&self) -> (r: Vec<(u32, JsonValue)>)
        ensures
            r@.len() == self.cache@.len(),
            forall|i: int|
                0 <= i < r@.len() ==> (#[trigger] r@[i]).0 == self.cache@[i].0 && r@[i].1@
                    == self.cache@[i].1@,
    {
        let mut out: Vec<(u32, JsonValue)> = Vec::new();
        let mut i: usize = 0;
        while i < self.cache.len()
            invariant
                i <= self.cache@.len(),
                out@.len() == i,
                forall|j: int|
                    0 <= j < i ==> (#[trigger] out@[j]).0 == self.cache@[j].0 && out@[j].1@
                        == self.cache@[j].1@,
            decreases self.cache@.len() - i,
        {
            let e = &self.cache[i];
            out.push((e.0, e.1.deep_copy()));
            i += 1;
        }
        out
    }

    /// The on-disk artifact this adapter owns, for backup bookkeeping.
    pub fn files(&self) -> (r: Vec<String>)
        ensures
            r@.len() == 1,
            r@[0]@ == self.path@ + "/"@ + self.name@ + "_metadata.btr"@,
    {
        let mut f0 = self.path.clone();
        f0.append("/");
        f0.append(self.name.as_str());
        f0.append("_metadata.btr");
        let mut out: Vec<String> = Vec::new();
        out.push(f0);
        out
    }

    /// The engine persists through its storage backend.
    pub fn is_on_disk(&self) -> (r: bool)
        ensures
            r == true,
    {
        true
    }

    /// Durability is owed only at teardown; flushing between calls is a
    /// no-op here, as the engine flushes when its owner closes.
    pub fn flusher(&self) {
    }

    /// Tear the adapter down: flush the collection, return it to the
    /// engine registry, and hand the engine back.
    pub fn close(self) -> (e: Engine)
        requires
            self.wf(),
        ensures
            e.wf(),
            e.collections@.len() == self.engine.collections@.len() + 1,
            e.collections@.last().0@ == self.name@,
            e.collections@.last().1.pts() == self.coll.pts(),
            e.collections@.last().1.config == self.coll.config,
            e.collections@.last().1.flushes == sat_inc(self.coll.flushes),
    {
        let VDEPayloadStorage { mut engine, mut coll, name, .. } = self;
        coll.flush();
        engine.put_collection(name, coll);
        engine
    }
}

/// The summed UTF-8 byte length of the cached documents' JSON texts.
pub open spec fn ser_size(s: Seq<(u32, JsonValue)>) -> nat
    decreases s.len(),
{
    if s.len() == 0 {
        0
    } else {
        ser_size(s.drop_last()) + crate::codec::utf8_len_of(crate::codec::ser(s.last().1@))
    }
}

impl VDEPayloadStorage {
    /// An estimate of the stored bytes: the UTF-8 byte length of the JSON
    /// text of every cached document, summed, saturating at the machine
    /// word.
    #[verifier::loop_isolation(false)]
    pub fn get_storage_size_bytes(&self) -> (r: Result<usize, VdeError>)
        ensures
            match r {
                Ok(n) => n == (if ser_size(self.cache@) > usize::MAX {
                    usize::MAX as int
                } else {
                    ser_size(self.cache@) as int
                }),
                Err(_) => false,
            },
    {
        let mut total: usize = 0;
        let mut i: usize = 0;
        proof {
            assert(self.cache@.take(0) =~= Seq::<(u32, JsonValue)>::empty());
        }
        while i < self.cache.len()
            invariant
                i <= self.cache@.len(),
                total == (if ser_size(self.cache@.take(i as int)) > usize::MAX {
                    usize::MAX as int
                } else {
                    ser_size(self.cache@.take(i as int)) as int
                }),
            decreases self.cache@.len() - i,
        {
            let chars = crate::codec::to_json_chars(&self.cache[i].1);
            let bytes = crate::codec::utf8_byte_len(&chars);
            total = total.saturating_add(bytes);
            proof {
                assert(self.cache@.take(i as int + 1).drop_last() =~= self.cache@.take(i as int));
                assert(self.cache@.take(i as int + 1).last() == self.cache@[i as int]);
            }
            i += 1;
        }
        proof {
            assert(self.cache@.take(self.cache@.len() as int) =~= self.cache@);
        }
        Ok(total)
    }
}

} // verus!
