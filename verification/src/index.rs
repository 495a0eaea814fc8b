//! Vector index adapter: search with per-query validation, per-vector
//! upsert/delete, snapshotting, telemetry and the file manifest.
//!
//! Every query is validated — dense kind, then dimension — before its
//! native search call, so an invalid query never reaches the engine; the
//! call counter of the collection is the witness.

use vstd::prelude::*;
use vstd::string::StringExecFns;
use crate::engine::Collection;
use crate::engine::CollectionConfig;
use crate::engine::Engine;
use crate::engine::delete_pt;
use crate::engine::hits_upto;
use crate::engine::lemma_live_count_le;
use crate::engine::live_count;
use crate::engine::sat_inc;
use crate::engine::spec_find;
use crate::engine::take_at_most;
use crate::engine::upsert_pt;
use crate::errors::CODE_NOT_FOUND;
use crate::errors::CODE_OK;
use crate::errors::VdeError;
use crate::types::Distance;
use crate::types::Filter;
use crate::types::QueryVector;
use crate::types::ScoredPointOffset;
use crate::types::VectorElem;
use crate::types::VectorIndexSearchesTelemetry;
use crate::types::VectorInternal;

verus! {

broadcast use vstd::std_specs::vec::group_vec_axioms, vstd::seq::group_seq_axioms;

/// The call counter after `n` more native calls.
pub open spec fn sat_inc_n(c: u64, n: int) -> u64
    decreases n,
{
    if n <= 0 {
        c
    } else {
        sat_inc(sat_inc_n(c, n - 1))
    }
}

/// The dense components of a query, if it is dense.
pub open spec fn query_dense(q: QueryVector) -> Option<Seq<VectorElem>> {
    match q {
        QueryVector::Nearest(vi) => vi.dense_view(),
    }
}

/// Whether a query passes validation at the collection dimension.
pub open spec fn query_ok(dim: u32, q: QueryVector) -> bool {
    query_dense(q) is Some && query_dense(q)->0.len() == dim
}

/// The error an invalid query is refused with, before any native call.
pub open spec fn query_error(dim: u32, q: QueryVector) -> VdeError {
    match query_dense(q) {
        None => VdeError::UnsupportedVectorKind,
        Some(v) => VdeError::DimensionMismatch { expected: dim, got: v.len() as usize },
    }
}

/// The ranked list one valid query is owed: the engine's hits in record
/// order, cut to `top` slots.
pub open spec fn query_result(c: Collection, q: Seq<VectorElem>, f: Option<Filter>, top: int) -> Seq<
    (u64, int),
> {
    take_at_most(hits_upto(c.config.distance_metric, c.pts(), q, f, c.pts().len() as int), top)
}

/// Vector index backed by the engine.
#[derive(Debug)]
pub struct VDEVectorIndex {
    pub engine: Engine,
    pub coll: Collection,
    pub name: String,
    pub dimension: u32,
    pub distance: Distance,
    pub path: String,
}

impl VDEVectorIndex {
    /// Well-formedness: the collection is sound and carries the adapter's
    /// dimension.
    pub open spec fn wf(self) -> bool {
        &&& self.engine.wf()
        &&& self.coll.wf()
        &&& self.coll.config.dimension == self.dimension
    }

    /// A fresh index adapter: its own engine session rooted at `path` and
    /// a collection created from the given config.
    pub fn new(
        path: &str,
        name: &str,
        dimension: u32,
        distance: Distance,
        config_json: Option<String>,
    ) -> (r: Result<VDEVectorIndex, VdeError>)
        ensures
            match r {
                Ok(ix) => {
                    &&& ix.wf()
                    &&& ix.name@ == name@
                    &&& ix.path@ == path@
                    &&& ix.dimension == dimension
                    &&& ix.distance == distance
                    &&& ix.coll.config.distance_metric == distance
                    &&& ix.coll.config.index_type@ == "vsag_hnsw"@
                    &&& ix.coll.config.storage_type@ == "zendb"@
                    &&& ix.coll.config.config_json == config_json
                    &&& ix.coll.pts().len() == 0
                    &&& ix.coll.calls == 0
                    &&& ix.coll.snapshots == 0
                    &&& ix.engine.collections@.len() == 0
                },
                Err(_) => false,
            },
    {
        let engine = Engine::create(String::from_str(path));
        let config = CollectionConfig {
            index_type: String::from_str("vsag_hnsw"),
            storage_type: String::from_str("zendb"),
            dimension,
            distance_metric: distance,
            config_json,
        };
        let coll = Collection::new(config);
        Ok(
            VDEVectorIndex {
                engine,
                coll,
                name: String::from_str(name),
                dimension,
                distance,
                path: String::from_str(path),
            },
        )
    }

    /// Open an existing collection on the given engine session.  The open
    /// fails at construction — and the session is torn down — when no
    /// collection rests under the name or the one found does not carry
    /// the expected dimension and metric.
    pub fn open(engine: Engine, name: &str, dimension: u32, distance: Distance) -> (r: Result<
        VDEVectorIndex,
        VdeError,
    >)
        requires
            engine.wf(),
        ensures
            match r {
                Ok(ix) => {
                    &&& engine.spec_has(name@)
                    &&& ix.wf()
                    &&& ix.name@ == name@
                    &&& ix.path@ == engine.work_dir@
                    &&& ix.dimension == dimension
                    &&& ix.distance == distance
                    &&& ix.coll.config.dimension == dimension
                    &&& ix.coll.config.distance_metric == distance
                    &&& exists|i: int|
                        {
                            &&& 0 <= i < engine.collections@.len()
                            &&& engine.collections@[i].0@ == name@
                            &&& (forall|j: int|
                                0 <= j < i ==> engine.collections@[j].0@ != name@)
                            &&& engine.collections@[i].1 == ix.coll
                        }
                },
                Err(e) => {
                    &&& e == VdeError::Initialization
                    &&& (!engine.spec_has(name@) || exists|i: int|
                        {
                            &&& 0 <= i < engine.collections@.len()
                            &&& engine.collections@[i].0@ == name@
                            &&& (forall|j: int|
                                0 <= j < i ==> engine.collections@[j].0@ != name@)
                            &&& (engine.collections@[i].1.config.dimension != dimension
                                || engine.collections@[i].1.config.distance_metric != distance)
                        })
                },
            },
    {
        let ghost engine0 = engine;
        let mut engine = engine;
        let owned_name = String::from_str(name);
        match engine.take_collection(&owned_name) {
            Some(coll) => {
                let metric_matches = match (coll.config.distance_metric, distance) {
                    (Distance::Cosine, Distance::Cosine) => true,
                    (Distance::Euclid, Distance::Euclid) => true,
                    (Distance::Dot, Distance::Dot) => true,
                    (Distance::Manhattan, Distance::Manhattan) => true,
                    _ => false,
                };
                if coll.config.dimension != dimension || !metric_matches {
                    proof {
                        let w = choose|i: int|
                            {
                                &&& 0 <= i < engine0.collections@.len()
                                &&& engine0.collections@[i].0@ == owned_name@
                                &&& (forall|j: int|
                                    0 <= j < i ==> engine0.collections@[j].0@ != owned_name@)
                                &&& engine0.collections@[i].1 == coll
                                &&& engine.collections@ == engine0.collections@.remove(i)
                            };
                        assert({
                            &&& 0 <= w < engine0.collections@.len()
                            &&& engine0.collections@[w].0@ == name@
                            &&& (forall|j: int|
                                0 <= j < w ==> engine0.collections@[j].0@ != name@)
                            &&& (engine0.collections@[w].1.config.dimension != dimension
                                || engine0.collections@[w].1.config.distance_metric != distance)
                        });
                    }
                    return Err(VdeError::Initialization);
                }
                let path = engine.work_dir.clone();
                Ok(VDEVectorIndex { engine, coll, name: owned_name, dimension, distance, path })
            },
            None => Err(VdeError::Initialization),
        }
    }

    /// Persist the index state: one snapshot request to the engine.
    pub fn save(&mut self) -> (r: Result<(), VdeError>)
        requires
            old(self).wf(),
        ensures
            final(self).wf(),
            (*final(self) == VDEVectorIndex { coll: final(self).coll, ..*old(self) }),
            (final(self).coll == Collection {
                calls: final(self).coll.calls,
                snapshots: final(self).coll.snapshots,
                ..old(self).coll
            }),
            final(self).coll.calls == sat_inc(old(self).coll.calls),
            final(self).coll.snapshots == sat_inc(old(self).coll.snapshots),
            r is Ok,
    {
        let code = self.coll.save_snapshot();
        proof {
            assert(code == CODE_OK);
        }
        Ok(())
    }

    /// Search: one ranked list per query.  Each query is validated before
    /// its native call — a non-dense query or one of the wrong dimension
    /// ends the search with no further native calls, and the call counter
    /// shows exactly one call per query already served.
    #[verifier::loop_isolation(false)]
    pub fn search(
        &mut self,
        vectors: &Vec<QueryVector>,
        filter: Option<&Filter>,
        top: usize,
    ) -> (r: Result<Vec<Vec<ScoredPointOffset>>, VdeError>)
        requires
            old(self).wf(),
        ensures
            final(self).wf(),
            (*final(self) == VDEVectorIndex { coll: final(self).coll, ..*old(self) }),
            (final(self).coll == Collection { calls: final(self).coll.calls, ..old(self).coll }),
            ({
                let fo = match filter {
                    Some(f) => Some(*f),
                    None => None::<Filter>,
                };
                match r {
                    Ok(results) => {
                        &&& forall|qi: int|
                            0 <= qi < vectors@.len() ==> query_ok(
                                old(self).dimension,
                                #[trigger] vectors@[qi],
                            )
                        &&& final(self).coll.calls == sat_inc_n(
                            old(self).coll.calls,
                            vectors@.len() as int,
                        )
                        &&& results@.len() == vectors@.len()
                        &&& forall|qi: int|
                            0 <= qi < vectors@.len() ==> {
                                let hits = query_result(
                                    old(self).coll,
                                    query_dense(vectors@[qi])->0,
                                    fo,
                                    top as int,
                                );
                                &&& (#[trigger] results@[qi])@.len() == hits.len()
                                &&& forall|j: int|
                                    0 <= j < hits.len() ==> (#[trigger] results@[qi]@[j]).idx
                                        == hits[j].0 as u32 && results@[qi]@[j].score as int
                                        == hits[j].1
                            }
                    },
                    Err(e) => exists|qi: int|
                        {
                            &&& 0 <= qi < vectors@.len()
                            &&& !query_ok(old(self).dimension, #[trigger] vectors@[qi])
                            &&& forall|p: int|
                                0 <= p < qi ==> query_ok(old(self).dimension, vectors@[p])
                            &&& e == query_error(old(self).dimension, vectors@[qi])
                            &&& final(self).coll.calls == sat_inc_n(old(self).coll.calls, qi)
                        },
                }
            }),
    {
        let ghost fo: Option<Filter> = match filter {
            Some(f) => Some(*f),
            None => None::<Filter>,
        };
        let mut all_results: Vec<Vec<ScoredPointOffset>> = Vec::new();
        let mut qi: usize = 0;
        while qi < vectors.len()
            invariant
                qi <= vectors@.len(),
                self.wf(),
                self.engine == old(self).engine,
                self.name == old(self).name,
                self.dimension == old(self).dimension,
                self.distance == old(self).distance,
                self.path == old(self).path,
                (self.coll == Collection { calls: self.coll.calls, ..old(self).coll }),
                self.coll.calls == sat_inc_n(old(self).coll.calls, qi as int),
                forall|p: int|
                    0 <= p < qi ==> query_ok(old(self).dimension, #[trigger] vectors@[p]),
                all_results@.len() == qi,
                forall|p: int|
                    0 <= p < qi ==> {
                        let hits = query_result(
                            old(self).coll,
                            query_dense(vectors@[p])->0,
                            fo,
                            top as int,
                        );
                        &&& (#[trigger] all_results@[p])@.len() == hits.len()
                        &&& forall|j: int|
                            0 <= j < hits.len() ==> (#[trigger] all_results@[p]@[j]).idx == hits[
                                j
                            ].0 as u32 && all_results@[p]@[j].score as int == hits[j].1
                    },
            decreases vectors@.len() - qi,
        {
            let query = &vectors[qi];
            let dense = match query {
                QueryVector::Nearest(VectorInternal::Dense(v)) => v,
                QueryVector::Nearest(VectorInternal::Sparse(_)) => {
                    return Err(VdeError::UnsupportedVectorKind);
                },
            };
            if dense.len() as u64 != self.dimension as u64 {
                return Err(
                    VdeError::DimensionMismatch { expected: self.dimension, got: dense.len() },
                );
            }
            let (code, raw) = self.coll.search(dense, top, filter);
            proof {
                assert(code == CODE_OK);
            }
            let mut converted: Vec<ScoredPointOffset> = Vec::new();
            let mut j: usize = 0;
            while j < raw.len()
                invariant
                    j <= raw@.len(),
                    converted@.len() == j,
                    forall|p: int|
                        0 <= p < j ==> (#[trigger] converted@[p]).idx == raw@[p].0 as u32
                            && converted@[p].score == raw@[p].1,
                decreases raw@.len() - j,
            {
                let entry = &raw[j];
                converted.push(ScoredPointOffset { idx: entry.0 as u32, score: entry.1 });
                j += 1;
            }
            all_results.push(converted);
            qi += 1;
        }
        Ok(all_results)
    }

    /// Static telemetry: the engine exposes no live counters, so every
    /// counter is zero — a capability gap, not an error.
    pub fn get_telemetry_data(&self) -> (r: VectorIndexSearchesTelemetry)
        ensures
            match r.index_name {
                Some(n) => n@ == "vde_hnsw"@,
                None => false,
            },
            r.unfiltered_plain == 0,
            r.filtered_plain == 0,
            r.unfiltered_hnsw == 0,
            r.filtered_small_cardinality == 0,
            r.filtered_large_cardinality == 0,
            r.filtered_exact == 0,
            r.filtered_sparse == 0,
            r.unfiltered_sparse == 0,
            r.unfiltered_exact == 0,
    {
        VectorIndexSearchesTelemetry {
            index_name: Some(String::from_str("vde_hnsw")),
            unfiltered_plain: 0,
            filtered_plain: 0,
            unfiltered_hnsw: 0,
            filtered_small_cardinality: 0,
            filtered_large_cardinality: 0,
            filtered_exact: 0,
            filtered_sparse: 0,
            unfiltered_sparse: 0,
            unfiltered_exact: 0,
        }
    }

    /// The on-disk artifact this adapter owns, for backup bookkeeping.
    pub fn files(&self) -> (r: Vec<String>)
        ensures
            r@.len() == 1,
            r@[0]@ == self.path@ + "/"@ + self.name@ + ".vde"@,
    {
        let mut f0 = self.path.clone();
        f0.append("/");
        f0.append(self.name.as_str());
        f0.append(".vde");
        let mut out: Vec<String> = Vec::new();
        out.push(f0);
        out
    }

    /// Count of records that hold a vector and are not tombstoned.
    pub fn indexed_vector_count(&mut self) -> (r: usize)
        requires
            old(self).wf(),
        ensures
            final(self).wf(),
            (*final(self) == VDEVectorIndex { coll: final(self).coll, ..*old(self) }),
            (final(self).coll == Collection { calls: final(self).coll.calls, ..old(self).coll }),
            final(self).coll.calls == sat_inc(old(self).coll.calls),
            r == live_count(old(self).coll.pts()),
    {
        let c = self.coll.vector_count();
        proof {
            lemma_live_count_le(old(self).coll.pts());
            assert(old(self).coll.points@.len() == old(self).coll.points.len());
        }
        c as usize
    }

    /// An estimate of the searchable bytes: count times dimension times
    /// four bytes per component, doubled for graph overhead, saturating
    /// at the machine word.
    pub fn size_of_searchable_vectors_in_bytes(&mut self) -> (r: usize)
        requires
            old(self).wf(),
        ensures
            final(self).wf(),
            (*final(self) == VDEVectorIndex { coll: final(self).coll, ..*old(self) }),
            (final(self).coll == Collection { calls: final(self).coll.calls, ..old(self).coll }),
            final(self).coll.calls == sat_inc(old(self).coll.calls),
            ({
                let exact = live_count(old(self).coll.pts()) * old(self).dimension * 8;
                r == (if exact > usize::MAX {
                    usize::MAX as int
                } else {
                    exact as int
                })
            }),
    {
        let count = self.indexed_vector_count();
        let ghost exact = live_count(old(self).coll.pts()) * old(self).dimension * 8;
        match count.checked_mul(self.dimension as usize) {
            Some(x) => match x.checked_mul(8) {
                Some(y) => y,
                None => {
                    proof {
                        assert(exact > usize::MAX);
                    }
                    usize::MAX
                },
            },
            None => {
                proof {
                    let d = old(self).dimension as int;
                    assert(count * d > usize::MAX);
                    assert(exact >= count * d) by (nonlinear_arith)
                        requires
                            exact == count * d * 8,
                            count >= 0,
                            d >= 0,
                    ;
                }
                usize::MAX
            },
        }
    }

    /// Update one point: a present vector is upserted — insert or replace
    /// at that offset — and an absent one means delete.  This is the sole
    /// update protocol at this layer.  A native refusal — a wrong
    /// dimension, or a delete of an identifier the engine never saw —
    /// surfaces as a service error carrying the native code.
    pub fn update_vector(&mut self, id: u32, vector: Option<&VectorInternal>) -> (r: Result<
        (),
        VdeError,
    >)
        requires
            old(self).wf(),
        ensures
            final(self).wf(),
            (*final(self) == VDEVectorIndex { coll: final(self).coll, ..*old(self) }),
            (final(self).coll == Collection {
                calls: final(self).coll.calls,
                points: final(self).coll.points,
                ..old(self).coll
            }),
            match vector {
                Some(vi) => match vi.dense_view() {
                    None => {
                        &&& r == Err::<(), VdeError>(VdeError::UnsupportedVectorKind)
                        &&& *final(self) == *old(self)
                    },
                    Some(v) => {
                        &&& final(self).coll.calls == sat_inc(old(self).coll.calls)
                        &&& if v.len() == old(self).dimension {
                            &&& r is Ok
                            &&& final(self).coll.pts() == upsert_pt(
                                old(self).coll.pts(),
                                id as u64,
                                Some(v),
                                None,
                            )
                        } else {
                            &&& r == Err::<(), VdeError>(
                                VdeError::Service { code: crate::errors::CODE_DIMENSION_MISMATCH },
                            )
                            &&& final(self).coll.pts() == old(self).coll.pts()
                        }
                    },
                },
                None => {
                    &&& final(self).coll.calls == sat_inc(old(self).coll.calls)
                    &&& match spec_find(old(self).coll.pts(), id as u64) {
                        Some(_) => r is Ok && final(self).coll.pts() == delete_pt(
                            old(self).coll.pts(),
                            id as u64,
                        ),
                        None => r == Err::<(), VdeError>(
                            VdeError::Service { code: CODE_NOT_FOUND },
                        ) && final(self).coll.pts() == old(self).coll.pts(),
                    }
                },
            },
    {
        match vector {
            Some(vi) => {
                let dense = match vi {
                    VectorInternal::Dense(v) => v,
                    VectorInternal::Sparse(_) => {
                        return Err(VdeError::UnsupportedVectorKind);
                    },
                };
                let code = self.coll.upsert(id as u64, Some(dense), None);
                if code != CODE_OK {
                    return Err(VdeError::Service { code });
                }
                Ok(())
            },
            None => {
                let code = self.coll.delete(id as u64);
                if code != CODE_OK {
                    return Err(VdeError::Service { code });
                }
                Ok(())
            },
        }
    }

    /// Tear the adapter down: save a snapshot — always taken once more at
    /// teardown, whatever was saved before — return the collection to the
    /// engine registry, and hand the engine back.
    pub fn close(self) -> (e: Engine)
        requires
            self.wf(),
        ensures
            e.wf(),
            e.collections@.len() == self.engine.collections@.len() + 1,
            e.collections@.last().0@ == self.name@,
            e.collections@.last().1.pts() == self.coll.pts(),
            e.collections@.last().1.config == self.coll.config,
            e.collections@.last().1.snapshots == sat_inc(self.coll.snapshots),
    {
        let VDEVectorIndex { mut engine, mut coll, name, .. } = self;
        let _code = coll.save_snapshot();
        engine.put_collection(name, coll);
        engine
    }
}

} // verus!
