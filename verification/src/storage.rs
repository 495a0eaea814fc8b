//! Raw vector storage adapter: get, insert and delete by point offset,
//! bulk streaming update, and the host-maintained deletion-tracking bitmap.
//!
//! The adapter owns its engine session and one collection on it, and keeps
//! the deletion shadow as the authoritative record of tombstones: a native
//! delete of an identifier the engine never saw still tombstones the
//! shadow, which is what gives delete its idempotent answer.

use vstd::prelude::*;
use vstd::string::StringExecFns;
use crate::bits::TrackingBits;
use crate::bits::bits_of;
use crate::bits::count_true;
use crate::engine::Collection;
use crate::engine::CollectionConfig;
use crate::engine::Engine;
use crate::engine::SpecPoint;
use crate::engine::delete_pt;
use crate::engine::lemma_delete_pointwise;
use crate::engine::lemma_upsert_pointwise;
use crate::engine::lemma_live_count_le;
use crate::engine::live_count;
use crate::engine::spec_find;
use crate::engine::sat_inc;
use crate::engine::upsert_pt;
use crate::errors::CODE_OK;
use crate::errors::VdeError;
use crate::types::Distance;
use crate::types::VectorElem;
use crate::types::VectorInternal;
use crate::types::VectorStorageDatatype;

verus! {

broadcast use vstd::std_specs::vec::group_vec_axioms, vstd::seq::group_seq_axioms;

/// The abstract state the bulk update folds over: the stored points and
/// the deletion shadow.
pub struct StorageModel {
    pub pts: Seq<(u64, SpecPoint)>,
    pub tracking: Seq<bool>,
}

/// The tracking sequence grown so that `key` is in range, new slots clear.
pub open spec fn grow_tracking(t: Seq<bool>, key: u32) -> Seq<bool> {
    if (key as int) < t.len() {
        t
    } else {
        t + Seq::new((key as int + 1 - t.len()) as nat, |j: int| false)
    }
}

/// The state after a vector insert: the record upserted and the shadow
/// slot cleared.
pub open spec fn insert_effect(m: StorageModel, key: u32, v: Seq<VectorElem>) -> StorageModel {
    StorageModel {
        pts: upsert_pt(m.pts, key as u64, Some(v), None),
        tracking: grow_tracking(m.tracking, key).update(key as int, false),
    }
}

/// The state after a vector delete: the record tombstoned where the engine
/// held one, and the shadow slot set either way.
pub open spec fn delete_effect(m: StorageModel, key: u32) -> StorageModel {
    StorageModel {
        pts: if spec_find(m.pts, key as u64) is Some {
            delete_pt(m.pts, key as u64)
        } else {
            m.pts
        },
        tracking: grow_tracking(m.tracking, key).update(key as int, true),
    }
}

/// What delete answers: whether the shadow slot was clear before the call.
pub open spec fn delete_was_live(m: StorageModel, key: u32) -> bool {
    !(if (key as int) < m.tracking.len() {
        m.tracking[key as int]
    } else {
        false
    })
}

/// Vector storage backed by the engine, with the deletion shadow beside
/// it.
#[derive(Debug)]
pub struct VDEVectorStorage {
    pub engine: Engine,
    pub coll: Collection,
    pub name: String,
    pub dimension: u32,
    pub distance: Distance,
    pub datatype: VectorStorageDatatype,
    pub path: String,
    pub deleted: TrackingBits,
}

impl VDEVectorStorage {
    /// The deletion shadow, one tombstone bit per point offset.
    pub open spec fn tracking(self) -> Seq<bool> {
        bits_of(&self.deleted)
    }

    /// The abstract state: stored points and deletion shadow.
    pub open spec fn model(self) -> StorageModel {
        StorageModel { pts: self.coll.pts(), tracking: self.tracking() }
    }

    /// Well-formedness: the collection is sound, its dimension is the
    /// adapter's, and the shadow covers every identifier the engine holds.
    pub open spec fn wf(self) -> bool {
        &&& self.engine.wf()
        &&& self.coll.wf()
        &&& self.coll.config.dimension == self.dimension
        &&& forall|j: int|
            0 <= j < self.coll.pts().len() ==> (#[trigger] self.coll.pts()[j]).0
                < self.tracking().len()
        &&& self.tracking().len() <= usize::MAX / 8
    }

    /// A fresh storage adapter: its own engine session rooted at `path`,
    /// with a collection created from the given dimension and metric.  A
    /// fresh session holds nothing, so the open step of open-or-create
    /// always misses here and creation follows.
    pub fn new(path: &str, name: &str, dimension: u32, distance: Distance) -> (r: Result<
        VDEVectorStorage,
        VdeError,
    >)
        ensures
            match r {
                Ok(s) => {
                    &&& s.wf()
                    &&& s.name@ == name@
                    &&& s.path@ == path@
                    &&& s.dimension == dimension
                    &&& s.distance == distance
                    &&& s.datatype == VectorStorageDatatype::Float32
                    &&& s.coll.config.dimension == dimension
                    &&& s.coll.config.distance_metric == distance
                    &&& s.coll.config.index_type@ == "vsag_hnsw"@
                    &&& s.coll.config.storage_type@ == "zendb"@
                    &&& s.model().pts.len() == 0
                    &&& s.model().tracking.len() == 0
                    &&& s.coll.calls == 0
                    &&& s.coll.snapshots == 0
                    &&& s.coll.flushes == 0
                    &&& s.engine.collections@.len() == 0
                },
                Err(_) => false,
            },
    {
        let mut engine = Engine::create(String::from_str(path));
        let owned_name = String::from_str(name);
        let config = CollectionConfig {
            index_type: String::from_str("vsag_hnsw"),
            storage_type: String::from_str("zendb"),
            dimension,
            distance_metric: distance,
            config_json: None,
        };
        let coll = engine.open_or_create(&owned_name, config);
        Ok(
            VDEVectorStorage {
                engine,
                coll,
                name: owned_name,
                dimension,
                distance,
                datatype: VectorStorageDatatype::Float32,
                path: String::from_str(path),
                deleted: TrackingBits::new(),
            },
        )
    }

    /// Grow the shadow so that `key` is in range, new slots clear.
    fn grow_shadow(&mut self, key: u32)
        requires
            old(self).tracking().len() <= usize::MAX / 8,
            key as int + 1 <= usize::MAX / 8,
        ensures
            final(self).tracking() == grow_tracking(old(self).tracking(), key),
            (key as int) < final(self).tracking().len(),
            final(self).engine == old(self).engine,
            final(self).coll == old(self).coll,
            final(self).name == old(self).name,
            final(self).dimension == old(self).dimension,
            final(self).distance == old(self).distance,
            final(self).datatype == old(self).datatype,
            final(self).path == old(self).path,
    {
        let cur = self.deleted.len();
        if cur <= key as usize {
            self.deleted.resize(key as usize + 1, false);
            proof {
                assert(self.tracking() =~= grow_tracking(old(self).tracking(), key));
            }
        }
    }

    /// Insert: validate the vector kind and dimension before any native
    /// call, upsert into the engine, and clear the shadow slot, growing
    /// the shadow as needed.
    pub fn insert_vector(&mut self, key: u32, vector: &VectorInternal) -> (r: Result<
        (),
        VdeError,
    >)
        requires
            old(self).wf(),
            key as int + 1 <= usize::MAX / 8,
        ensures
            final(self).wf(),
            final(self).engine == old(self).engine,
            final(self).name == old(self).name,
            final(self).dimension == old(self).dimension,
            final(self).distance == old(self).distance,
            final(self).datatype == old(self).datatype,
            final(self).path == old(self).path,
            final(self).coll.config == old(self).coll.config,
            final(self).coll.snapshots == old(self).coll.snapshots,
            final(self).coll.flushes == old(self).coll.flushes,
            match r {
                Ok(()) => {
                    &&& vector.dense_view() is Some
                    &&& vector.dense_view()->0.len() == old(self).dimension
                    &&& final(self).model() == insert_effect(
                        old(self).model(),
                        key,
                        vector.dense_view()->0,
                    )
                    &&& final(self).coll.calls == sat_inc(old(self).coll.calls)
                },
                Err(VdeError::UnsupportedVectorKind) => {
                    &&& vector.dense_view() is None
                    &&& *final(self) == *old(self)
                },
                Err(VdeError::DimensionMismatch { expected, got }) => {
                    &&& vector.dense_view() is Some
                    &&& vector.dense_view()->0.len() != old(self).dimension
                    &&& expected == old(self).dimension
                    &&& got == vector.dense_view()->0.len()
                    &&& *final(self) == *old(self)
                },
                Err(_) => false,
            },
    {
        let dense = match vector {
            VectorInternal::Dense(v) => v,
            VectorInternal::Sparse(_) => {
                return Err(VdeError::UnsupportedVectorKind);
            },
        };
        if dense.len() as u64 != self.dimension as u64 {
            return Err(
                VdeError::DimensionMismatch { expected: self.dimension, got: dense.len() },
            );
        }
        let ghost pre = self.model();
        let code = self.coll.upsert(key as u64, Some(dense), None);
        proof {
            assert(code == CODE_OK);
        }
        self.grow_shadow(key);
        self.deleted.set(key as usize, false);
        proof {
            lemma_upsert_pointwise(pre.pts, key as u64, Some(dense@), None);
            assert(self.model() == insert_effect(pre, key, dense@));
        }
        Ok(())
    }

    /// Delete: issue the native delete, set the shadow slot, and answer
    /// whether the slot was previously live.  The shadow is authoritative:
    /// a not-found answer from the engine is not an error here, so a
    /// second delete of the same offset answers false instead of failing.
    pub fn delete_vector(&mut self, key: u32) -> (r: Result<bool, VdeError>)
        requires
            old(self).wf(),
            key as int + 1 <= usize::MAX / 8,
        ensures
            final(self).wf(),
            final(self).engine == old(self).engine,
            final(self).name == old(self).name,
            final(self).dimension == old(self).dimension,
            final(self).distance == old(self).distance,
            final(self).datatype == old(self).datatype,
            final(self).path == old(self).path,
            final(self).coll.config == old(self).coll.config,
            final(self).coll.snapshots == old(self).coll.snapshots,
            final(self).coll.flushes == old(self).coll.flushes,
            final(self).coll.calls == sat_inc(old(self).coll.calls),
            match r {
                Ok(was) => {
                    &&& was == delete_was_live(old(self).model(), key)
                    &&& final(self).model() == delete_effect(old(self).model(), key)
                },
                Err(_) => false,
            },
    {
        let ghost pre = self.model();
        let _code = self.coll.delete(key as u64);
        self.grow_shadow(key);
        let was_deleted = self.deleted.get(key as usize);
        self.deleted.set(key as usize, true);
        proof {
            lemma_delete_pointwise(pre.pts, key as u64);
            assert(self.model() == delete_effect(pre, key));
        }
        Ok(!was_deleted)
    }
}

/// Whether an incoming bulk-update item can be applied at the collection
/// dimension: a tombstoned item always can, a live one must be dense and
/// dimension-matching.
pub open spec fn item_valid(dim: u32, item: (VectorInternal, bool)) -> bool {
    item.1 || (item.0.dense_view() is Some && item.0.dense_view()->0.len() == dim)
}

/// The error an invalid live item is refused with.
pub open spec fn item_error(dim: u32, item: (VectorInternal, bool)) -> VdeError {
    match item.0.dense_view() {
        None => VdeError::UnsupportedVectorKind,
        Some(v) => VdeError::DimensionMismatch { expected: dim, got: v.len() as usize },
    }
}

/// One bulk-update step at offset `idx`: insert a live item, delete a
/// tombstoned one.
pub open spec fn apply_one(m: StorageModel, idx: u32, item: (VectorInternal, bool)) -> StorageModel {
    if item.1 {
        delete_effect(m, idx)
    } else {
        match item.0.dense_view() {
            Some(v) => insert_effect(m, idx, v),
            None => m,
        }
    }
}

/// The state after the first `n` bulk-update items, applied in order at
/// offsets counted from zero.
pub open spec fn apply_upto(
    m: StorageModel,
    items: Seq<(VectorInternal, bool)>,
    n: int,
) -> StorageModel
    decreases n,
{
    if n <= 0 {
        m
    } else {
        apply_one(apply_upto(m, items, n - 1), (n - 1) as u32, items[n - 1])
    }
}

/// The vector a get answers for `key`: the stored one where the record is
/// live and holds a vector.
pub open spec fn gettable_vector(m: StorageModel, key: u32) -> Option<Seq<VectorElem>> {
    match spec_find(m.pts, key as u64) {
        Some(pt) => if !pt.deleted {
            pt.vector
        } else {
            None
        },
        None => None,
    }
}

impl VDEVectorStorage {
    /// The distance metric the collection was created with.
    pub fn distance(&self) -> (r: Distance)
        ensures
            r == self.distance,
    {
        self.distance
    }

    /// The data type of the stored vector components.
    pub fn datatype(&self) -> (r: VectorStorageDatatype)
        ensures
            r == self.datatype,
    {
        self.datatype
    }

    /// The engine persists through its storage backend.
    pub fn is_on_disk(&self) -> (r: bool)
        ensures
            r == true,
    {
        true
    }

    /// Count of records that hold a vector and are not tombstoned.
    pub fn total_vector_count(&mut self) -> (r: usize)
        requires
            old(self).wf(),
        ensures
            final(self).wf(),
            (*final(self) == VDEVectorStorage {
                coll: final(self).coll,
                ..*old(self)
            }),
            (final(self).coll == Collection { calls: final(self).coll.calls, ..old(self).coll }),
            final(self).coll.calls == sat_inc(old(self).coll.calls),
            r == live_count(old(self).model().pts),
    {
        let c = self.coll.vector_count();
        proof {
            lemma_live_count_le(old(self).model().pts);
            assert(self.coll.config == old(self).coll.config);
            assert(self.coll.points == old(self).coll.points);
            assert(self.coll.snapshots == old(self).coll.snapshots);
            assert(self.coll.flushes == old(self).coll.flushes);
            assert(self.coll == Collection { calls: self.coll.calls, ..old(self).coll });
            assert(live_count(old(self).model().pts) <= old(self).coll.points@.len());
            assert(old(self).coll.points@.len() == old(self).coll.points.len());
        }
        c as usize
    }

    /// The stored vector under `key`, or the empty default where the
    /// record is missing, tombstoned or bare: the silent-default answer.
    pub fn get_vector(&mut self, key: u32) -> (r: VectorInternal)
        requires
            old(self).wf(),
        ensures
            final(self).wf(),
            (*final(self) == VDEVectorStorage {
                coll: final(self).coll,
                ..*old(self)
            }),
            (final(self).coll == Collection { calls: final(self).coll.calls, ..old(self).coll }),
            final(self).coll.calls == sat_inc(old(self).coll.calls),
            r.dense_view() == Some(
                match gettable_vector(old(self).model(), key) {
                    Some(v) => v,
                    None => Seq::<VectorElem>::empty(),
                },
            ),
    {
        let (code, v, _) = self.coll.get(key as u64, true, false);
        if code == CODE_OK {
            match v {
                Some(vec) => {
                    return VectorInternal::Dense(vec);
                },
                None => {
                    proof {
                        assert(false);
                    }
                },
            }
        }
        let empty: Vec<VectorElem> = Vec::new();
        proof {
            assert(empty@ =~= Seq::<VectorElem>::empty());
        }
        VectorInternal::Dense(empty)
    }

    /// The stored vector under `key`, or nothing where the record is
    /// missing, tombstoned or bare.
    pub fn get_vector_opt(&mut self, key: u32) -> (r: Option<VectorInternal>)
        requires
            old(self).wf(),
        ensures
            final(self).wf(),
            (*final(self) == VDEVectorStorage {
                coll: final(self).coll,
                ..*old(self)
            }),
            (final(self).coll == Collection { calls: final(self).coll.calls, ..old(self).coll }),
            final(self).coll.calls == sat_inc(old(self).coll.calls),
            match r {
                Some(vi) => vi.dense_view() == gettable_vector(old(self).model(), key)
                    && gettable_vector(old(self).model(), key) is Some,
                None => gettable_vector(old(self).model(), key) is None,
            },
    {
        let (code, v, _) = self.coll.get(key as u64, true, false);
        if code == CODE_OK {
            match v {
                Some(vec) => Some(VectorInternal::Dense(vec)),
                None => {
                    proof {
                        assert(false);
                    }
                    None
                },
            }
        } else {
            None
        }
    }

    /// Bulk streaming update: the items are applied in order at offsets
    /// counted from zero — live ones inserted, tombstoned ones deleted.
    /// The cancellation signal is polled between items, never mid-item;
    /// `cancel_after` models it as set once that many items are applied.
    /// A failure leaves the already-applied prefix in place, with no
    /// rollback, and the answered range covers every offset touched.
    #[verifier::loop_isolation(false)]
    pub fn update_from(
        &mut self,
        items: &Vec<(VectorInternal, bool)>,
        cancel_after: Option<usize>,
    ) -> (r: Result<core::ops::Range<u32>, VdeError>)
        requires
            old(self).wf(),
            items@.len() <= u32::MAX,
            items@.len() <= usize::MAX / 8,
        ensures
            final(self).wf(),
            final(self).engine == old(self).engine,
            final(self).name == old(self).name,
            final(self).dimension == old(self).dimension,
            final(self).distance == old(self).distance,
            final(self).datatype == old(self).datatype,
            final(self).path == old(self).path,
            final(self).coll.config == old(self).coll.config,
            final(self).coll.snapshots == old(self).coll.snapshots,
            final(self).coll.flushes == old(self).coll.flushes,
            match r {
                Ok(range) => {
                    &&& forall|j: int|
                        0 <= j < items@.len() ==> item_valid(
                            old(self).dimension,
                            #[trigger] items@[j],
                        )
                    &&& match cancel_after {
                        Some(k) => k >= items@.len(),
                        None => true,
                    }
                    &&& final(self).model() == apply_upto(
                        old(self).model(),
                        items@,
                        items@.len() as int,
                    )
                    &&& range.start == 0
                    &&& range.end == items@.len()
                },
                Err(e) => {
                    if e == VdeError::Cancelled {
                        &&& cancel_after is Some
                        &&& cancel_after->0 < items@.len()
                        &&& forall|j: int|
                            0 <= j < cancel_after->0 ==> item_valid(
                                old(self).dimension,
                                #[trigger] items@[j],
                            )
                        &&& final(self).model() == apply_upto(
                            old(self).model(),
                            items@,
                            cancel_after->0 as int,
                        )
                    } else {
                        exists|j: int|
                            {
                                &&& 0 <= j < items@.len()
                                &&& !item_valid(old(self).dimension, #[trigger] items@[j])
                                &&& forall|i: int|
                                    0 <= i < j ==> item_valid(old(self).dimension, items@[i])
                                &&& match cancel_after {
                                    Some(k) => j < k,
                                    None => true,
                                }
                                &&& e == item_error(old(self).dimension, items@[j])
                                &&& final(self).model() == apply_upto(old(self).model(), items@, j)
                            }
                    }
                },
            },
    {
        let ghost m0 = self.model();
        let mut i: usize = 0;
        while i < items.len()
            invariant
                self.wf(),
                i <= items@.len(),
                self.engine == old(self).engine,
                self.name == old(self).name,
                self.dimension == old(self).dimension,
                self.distance == old(self).distance,
                self.datatype == old(self).datatype,
                self.path == old(self).path,
                self.coll.config == old(self).coll.config,
                self.coll.snapshots == old(self).coll.snapshots,
                self.coll.flushes == old(self).coll.flushes,
                forall|j: int| 0 <= j < i ==> item_valid(old(self).dimension, #[trigger] items@[j]),
                match cancel_after {
                    Some(k) => i <= k,
                    None => true,
                },
                self.model() == apply_upto(m0, items@, i as int),
            decreases items@.len() - i,
        {
            if let Some(k) = cancel_after {
                if i >= k {
                    return Err(VdeError::Cancelled);
                }
            }
            let item = &items[i];
            if item.1 {
                match self.delete_vector(i as u32) {
                    Ok(_) => (),
                    Err(_) => {
                        proof {
                            assert(false);
                        }
                    },
                }
            } else {
                match self.insert_vector(i as u32, &item.0) {
                    Ok(()) => (),
                    Err(e) => {
                        proof {
                            let j = i as int;
                            assert({
                                &&& 0 <= j < items@.len()
                                &&& !item_valid(old(self).dimension, items@[j])
                                &&& forall|q: int|
                                    0 <= q < j ==> item_valid(old(self).dimension, items@[q])
                                &&& match cancel_after {
                                    Some(k) => j < k,
                                    None => true,
                                }
                                &&& e == item_error(old(self).dimension, items@[j])
                                &&& self.model() == apply_upto(m0, items@, j)
                            });
                        }
                        return Err(e);
                    },
                }
            }
            proof {
                assert(apply_upto(m0, items@, i as int + 1) == apply_one(
                    apply_upto(m0, items@, i as int),
                    i as u32,
                    items@[i as int],
                ));
            }
            i += 1;
        }
        Ok(core::ops::Range { start: 0, end: items.len() as u32 })
    }

    /// Whether the shadow holds a tombstone for `key`; an offset past the
    /// shadow is not deleted.
    pub fn is_deleted_vector(&self, key: u32) -> (r: bool)
        ensures
            r == ((key as int) < self.tracking().len() && self.tracking()[key as int]),
    {
        let len = self.deleted.len();
        if (key as usize) < len {
            self.deleted.get(key as usize)
        } else {
            false
        }
    }

    /// Count of tombstoned offsets: a scan of the shadow, off the hot
    /// path.
    #[verifier::loop_isolation(false)]
    pub fn deleted_vector_count(&self) -> (r: usize)
        ensures
            r == count_true(self.tracking()),
    {
        let len = self.deleted.len();
        let mut count: usize = 0;
        let mut i: usize = 0;
        proof {
            assert(self.tracking().take(0) =~= Seq::<bool>::empty());
        }
        while i < len
            invariant
                i <= self.tracking().len(),
                count == count_true(self.tracking().take(i as int)),
                count <= i,
            decreases len - i,
        {
            proof {
                assert(self.tracking().take(i as int + 1).drop_last() =~= self.tracking().take(
                    i as int,
                ));
                assert(self.tracking().take(i as int + 1).last() == self.tracking()[i as int]);
            }
            if self.deleted.get(i) {
                count += 1;
            }
            i += 1;
        }
        proof {
            assert(self.tracking().take(self.tracking().len() as int) =~= self.tracking());
        }
        count
    }

    /// The bit-addressable view over the deletion shadow that scans use to
    /// skip tombstoned candidates: the real tracking bitmap, never an
    /// empty stand-in.
    pub fn deleted_vector_bitslice(&self) -> (r: &TrackingBits)
        ensures
            bits_of(r) == self.tracking(),
    {
        &self.deleted
    }

    /// The on-disk artifacts this adapter owns, for backup bookkeeping.
    pub fn files(&self) -> (r: Vec<String>)
        ensures
            r@.len() == 2,
            r@[0]@ == self.path@ + "/"@ + self.name@ + "_vectors.btr"@,
            r@[1]@ == self.path@ + "/"@ + self.name@ + "_index.snapshot"@,
    {
        let mut f0 = self.path.clone();
        f0.append("/");
        f0.append(self.name.as_str());
        f0.append("_vectors.btr");
        let mut f1 = self.path.clone();
        f1.append("/");
        f1.append(self.name.as_str());
        f1.append("_index.snapshot");
        let mut out: Vec<String> = Vec::new();
        out.push(f0);
        out.push(f1);
        out
    }

    /// Durability is owed only at teardown; flushing between calls is a
    /// no-op here, as the engine flushes when its owner closes.
    pub fn flusher(&self) {
    }

    /// Tear the adapter down: flush the collection, return it to the
    /// engine registry, and hand the engine back.
    pub fn close(self) -> (e: Engine)
        requires
            self.wf(),
        ensures
            e.wf(),
            e.collections@.len() == self.engine.collections@.len() + 1,
            e.collections@.last().0@ == self.name@,
            e.collections@.last().1.pts() == self.coll.pts(),
            e.collections@.last().1.config == self.coll.config,
            e.collections@.last().1.flushes == sat_inc(self.coll.flushes),
    {
        let VDEVectorStorage { mut engine, mut coll, name, .. } = self;
        coll.flush();
        engine.put_collection(name, coll);
        engine
    }
}

/// Law: inserting a dense, dimension-matching vector and then reading the
/// same offset yields exactly that vector back.
pub proof fn lemma_insert_then_get(m: StorageModel, key: u32, v: Seq<VectorElem>)
    ensures
        gettable_vector(insert_effect(m, key, v), key) == Some(v),
{
    crate::engine::lemma_find_upsert_same(m.pts, key as u64, Some(v), None);
}

/// Law: after any delete of an offset, a second delete of the same offset
/// answers false — the tombstone answer is given exactly once.
pub proof fn lemma_delete_idempotent(m: StorageModel, key: u32)
    ensures
        !delete_was_live(delete_effect(m, key), key),
{
    assert(grow_tracking(m.tracking, key).update(key as int, true)[key as int] == true);
}

/// Law: an insert leaves the offset live, so the next delete of it
/// answers true.
pub proof fn lemma_insert_then_delete_live(m: StorageModel, key: u32, v: Seq<VectorElem>)
    ensures
        delete_was_live(insert_effect(m, key, v), key),
{
    assert(grow_tracking(m.tracking, key).update(key as int, false)[key as int] == false);
}

} // verus!
