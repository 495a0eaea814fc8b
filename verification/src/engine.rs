//! In-memory realization of the engine's request interface.
//!
//! The adapters drive a native vector engine through a fixed, C-style
//! request surface: create an engine rooted at a working directory, open or
//! create a named collection on it, then upsert, delete, get, search, count,
//! snapshot and flush against the collection.  This module realizes those
//! requests over plain values so that every effect is stated exactly: a
//! collection holds tombstoned point records, and every request that
//! crosses the engine boundary bumps a call counter — the adapters' promise
//! that validation failures reach the engine never is stated over it.

use vstd::prelude::*;
use crate::errors::CODE_DIMENSION_MISMATCH;
use crate::errors::CODE_NOT_FOUND;
use crate::errors::CODE_OK;
use crate::json::JsonValue;
use crate::json::SpecJson;
use crate::json::find_key;
use crate::json::lemma_obj_get_absent;
use crate::json::lemma_obj_get_at;
use crate::json::lemma_obj_view;
use crate::json::obj_get;
use crate::json::obj_view;
use crate::types::Distance;
use crate::types::Filter;
use crate::types::VectorElem;

verus! {

broadcast use vstd::std_specs::vec::group_vec_axioms, vstd::seq::group_seq_axioms;

/// What a collection is created from.
#[derive(Debug)]
pub struct CollectionConfig {
    pub index_type: String,
    pub storage_type: String,
    pub dimension: u32,
    pub distance_metric: Distance,
    pub config_json: Option<String>,
}

/// One stored point record: a vector, a payload document, and a tombstone
/// flag.  Deletion marks, it does not erase.
#[derive(Debug)]
pub struct PointState {
    pub vector: Option<Vec<VectorElem>>,
    pub payload: Option<JsonValue>,
    pub deleted: bool,
}

/// Mathematical shape of a stored point record.
pub struct SpecPoint {
    pub vector: Option<Seq<VectorElem>>,
    pub payload: Option<SpecJson>,
    pub deleted: bool,
}

impl View for PointState {
    type V = SpecPoint;

    open spec fn view(&self) -> SpecPoint {
        SpecPoint {
            vector: match self.vector {
                Some(v) => Some(v@),
                None => None,
            },
            payload: match self.payload {
                Some(p) => Some(p@),
                None => None,
            },
            deleted: self.deleted,
        }
    }
}

/// The view of a point sequence: identifiers with point shapes.
pub open spec fn pts_view(s: Seq<(u64, PointState)>) -> Seq<(u64, SpecPoint)> {
    Seq::new(s.len(), |i: int| (s[i].0, s[i].1@))
}

/// The record stored under `id`, if any: the first entry with that
/// identifier.
pub open spec fn spec_find(s: Seq<(u64, SpecPoint)>, id: u64) -> Option<SpecPoint>
    decreases s.len(),
{
    if s.len() == 0 {
        None
    } else if s[0].0 == id {
        Some(s[0].1)
    } else {
        spec_find(s.drop_first(), id)
    }
}

/// The record after an upsert merges into an existing record: given parts
/// replace, absent parts keep what was stored, and the tombstone is lifted.
pub open spec fn upsert_merge(
    old_pt: SpecPoint,
    vector: Option<Seq<VectorElem>>,
    payload: Option<SpecJson>,
) -> SpecPoint {
    SpecPoint {
        vector: match vector {
            Some(v) => Some(v),
            None => old_pt.vector,
        },
        payload: match payload {
            Some(p) => Some(p),
            None => old_pt.payload,
        },
        deleted: false,
    }
}

/// A fresh record created by an upsert of a new identifier.
pub open spec fn upsert_fresh(
    vector: Option<Seq<VectorElem>>,
    payload: Option<SpecJson>,
) -> SpecPoint {
    SpecPoint { vector, payload, deleted: false }
}

/// The point sequence after an upsert: insert-or-replace keyed by the
/// caller-supplied identifier.
pub open spec fn upsert_pt(
    s: Seq<(u64, SpecPoint)>,
    id: u64,
    vector: Option<Seq<VectorElem>>,
    payload: Option<SpecJson>,
) -> Seq<(u64, SpecPoint)>
    decreases s.len(),
{
    if s.len() == 0 {
        seq![(id, upsert_fresh(vector, payload))]
    } else if s[0].0 == id {
        seq![(id, upsert_merge(s[0].1, vector, payload))] + s.drop_first()
    } else {
        seq![s[0]] + upsert_pt(s.drop_first(), id, vector, payload)
    }
}

/// The point sequence after a delete: the first record under `id` is
/// tombstoned, nothing is erased.
pub open spec fn delete_pt(s: Seq<(u64, SpecPoint)>, id: u64) -> Seq<(u64, SpecPoint)>
    decreases s.len(),
{
    if s.len() == 0 {
        s
    } else if s[0].0 == id {
        seq![(id, SpecPoint { deleted: true, ..s[0].1 })] + s.drop_first()
    } else {
        seq![s[0]] + delete_pt(s.drop_first(), id)
    }
}

/// How many records hold a vector and are not tombstoned.
pub open spec fn live_count(s: Seq<(u64, SpecPoint)>) -> nat
    decreases s.len(),
{
    if s.len() == 0 {
        0
    } else {
        live_count(s.drop_last()) + (if s.last().1.vector is Some && !s.last().1.deleted {
            1nat
        } else {
            0nat
        })
    }
}

/// `spec_find` finds the entry at the first index whose identifier is `id`.
pub proof fn lemma_find_at(s: Seq<(u64, SpecPoint)>, id: u64, p: int)
    requires
        0 <= p < s.len(),
        s[p].0 == id,
        forall|j: int| 0 <= j < p ==> s[j].0 != id,
    ensures
        spec_find(s, id) == Some(s[p].1),
    decreases p,
{
    if p > 0 {
        lemma_find_at(s.drop_first(), id, p - 1);
    }
}

/// `spec_find` finds nothing when no entry carries `id`.
pub proof fn lemma_find_absent(s: Seq<(u64, SpecPoint)>, id: u64)
    requires
        forall|j: int| 0 <= j < s.len() ==> s[j].0 != id,
    ensures
        spec_find(s, id) is None,
    decreases s.len(),
{
    if s.len() > 0 {
        lemma_find_absent(s.drop_first(), id);
    }
}

/// When `id` first occurs at index `p`, an upsert is an update at `p`.
pub proof fn lemma_upsert_at(
    s: Seq<(u64, SpecPoint)>,
    id: u64,
    vector: Option<Seq<VectorElem>>,
    payload: Option<SpecJson>,
    p: int,
)
    requires
        0 <= p < s.len(),
        s[p].0 == id,
        forall|j: int| 0 <= j < p ==> s[j].0 != id,
    ensures
        upsert_pt(s, id, vector, payload) == s.update(
            p,
            (id, upsert_merge(s[p].1, vector, payload)),
        ),
    decreases p,
{
    if p == 0 {
        assert(upsert_pt(s, id, vector, payload) =~= s.update(
            0,
            (id, upsert_merge(s[0].1, vector, payload)),
        ));
    } else {
        lemma_upsert_at(s.drop_first(), id, vector, payload, p - 1);
        assert(upsert_pt(s, id, vector, payload) =~= s.update(
            p,
            (id, upsert_merge(s[p].1, vector, payload)),
        ));
    }
}

/// When no entry carries `id`, an upsert appends a fresh record.
pub proof fn lemma_upsert_absent(
    s: Seq<(u64, SpecPoint)>,
    id: u64,
    vector: Option<Seq<VectorElem>>,
    payload: Option<SpecJson>,
)
    requires
        forall|j: int| 0 <= j < s.len() ==> s[j].0 != id,
    ensures
        upsert_pt(s, id, vector, payload) == s.push((id, upsert_fresh(vector, payload))),
    decreases s.len(),
{
    if s.len() == 0 {
        assert(upsert_pt(s, id, vector, payload) =~= s.push((id, upsert_fresh(vector, payload))));
    } else {
        lemma_upsert_absent(s.drop_first(), id, vector, payload);
        assert(upsert_pt(s, id, vector, payload) =~= s.push((id, upsert_fresh(vector, payload))));
    }
}

/// When `id` first occurs at index `p`, a delete is an update at `p`.
pub proof fn lemma_delete_at(s: Seq<(u64, SpecPoint)>, id: u64, p: int)
    requires
        0 <= p < s.len(),
        s[p].0 == id,
        forall|j: int| 0 <= j < p ==> s[j].0 != id,
    ensures
        delete_pt(s, id) == s.update(p, (id, SpecPoint { deleted: true, ..s[p].1 })),
    decreases p,
{
    if p == 0 {
        assert(delete_pt(s, id) =~= s.update(0, (id, SpecPoint { deleted: true, ..s[0].1 })));
    } else {
        lemma_delete_at(s.drop_first(), id, p - 1);
        assert(delete_pt(s, id) =~= s.update(p, (id, SpecPoint { deleted: true, ..s[p].1 })));
    }
}

/// The saturating bump of a native-call counter.
pub open spec fn sat_inc(c: u64) -> u64 {
    if c == u64::MAX {
        c
    } else {
        (c + 1) as u64
    }
}

/// A named collection of points sharing one dimensionality and metric.
/// `calls` counts every request that crossed the engine boundary;
/// `snapshots` and `flushes` count the persistence requests among them.
#[derive(Debug)]
pub struct Collection {
    pub config: CollectionConfig,
    pub points: Vec<(u64, PointState)>,
    pub calls: u64,
    pub snapshots: u64,
    pub flushes: u64,
}

impl Collection {
    /// Every stored vector has the collection's dimension.
    pub open spec fn wf(self) -> bool {
        forall|i: int|
            0 <= i < self.points@.len() ==> match (#[trigger] self.points@[i]).1.vector {
                Some(v) => v@.len() == self.config.dimension,
                None => true,
            }
    }

    /// The view of the stored points.
    pub open spec fn pts(self) -> Seq<(u64, SpecPoint)> {
        pts_view(self.points@)
    }

    /// A fresh, empty collection built from a config.
    pub fn new(config: CollectionConfig) -> (c: Collection)
        ensures
            c.wf(),
            c.config == config,
            c.pts() == Seq::<(u64, SpecPoint)>::empty(),
            c.calls == 0,
            c.snapshots == 0,
            c.flushes == 0,
    {
        let c = Collection {
            config,
            points: Vec::new(),
            calls: 0,
            snapshots: 0,
            flushes: 0,
        };
        proof {
            assert(c.pts() =~= Seq::<(u64, SpecPoint)>::empty());
        }
        c
    }

    /// Index of the first entry under `id`, if any.
    fn find_id(&self, id: u64) -> (r: Option<usize>)
        ensures
            match r {
                Some(p) => {
                    &&& p < self.points@.len()
                    &&& self.points@[p as int].0 == id
                    &&& forall|j: int| 0 <= j < p ==> self.points@[j].0 != id
                    &&& spec_find(self.pts(), id) == Some(self.points@[p as int].1@)
                },
                None => {
                    &&& spec_find(self.pts(), id) is None
                    &&& forall|j: int| 0 <= j < self.points@.len() ==> self.points@[j].0 != id
                },
            },
    {
        let mut i: usize = 0;
        while i < self.points.len()
            invariant
                i <= self.points@.len(),
                forall|j: int| 0 <= j < i ==> self.points@[j].0 != id,
            decreases self.points@.len() - i,
        {
            if self.points[i].0 == id {
                proof {
                    lemma_find_at(self.pts(), id, i as int);
                }
                return Some(i);
            }
            i += 1;
        }
        proof {
            lemma_find_absent(self.pts(), id);
        }
        None
    }

    /// Upsert: insert-or-replace the given parts of the record under `id`
    /// and lift its tombstone.  A vector of the wrong dimension is refused
    /// with a non-zero code and nothing changes but the call counter.
    pub fn upsert(
        &mut self,
        id: u64,
        vector: Option<&Vec<VectorElem>>,
        payload: Option<&JsonValue>,
    ) -> (code: i32)
        requires
            old(self).wf(),
        ensures
            final(self).wf(),
            final(self).config == old(self).config,
            final(self).calls == sat_inc(old(self).calls),
            final(self).snapshots == old(self).snapshots,
            final(self).flushes == old(self).flushes,
            match vector {
                Some(v) if v@.len() != old(self).config.dimension => {
                    &&& code == CODE_DIMENSION_MISMATCH
                    &&& final(self).pts() == old(self).pts()
                },
                _ => {
                    &&& code == CODE_OK
                    &&& final(self).pts() == upsert_pt(
                        old(self).pts(),
                        id,
                        match vector {
                            Some(v) => Some(v@),
                            None => None,
                        },
                        match payload {
                            Some(p) => Some(p@),
                            None => None,
                        },
                    )
                },
            },
    {
        self.calls = if self.calls == u64::MAX {
            self.calls
        } else {
            self.calls + 1
        };
        if let Some(v) = vector {
            if v.len() as u64 != self.config.dimension as u64 {
                return CODE_DIMENSION_MISMATCH;
            }
        }
        let ghost pre = self.pts();
        let ghost vv: Option<Seq<VectorElem>> = match vector {
            Some(v) => Some(v@),
            None => None,
        };
        let ghost pv: Option<SpecJson> = match payload {
            Some(p) => Some(p@),
            None => None,
        };
        match self.find_id(id) {
            Some(p) => {
                let (pid, mut st) = self.points.remove(p);
                let ghost old_pt = st@;
                if let Some(v) = vector {
                    st.vector = Some(copy_vec(v));
                }
                if let Some(j) = payload {
                    st.payload = Some(j.deep_copy());
                }
                st.deleted = false;
                let ghost mid = self.points@;
                let ghost stv = st;
                self.points.insert(p, (pid, st));
                proof {
                    mid.insert_ensures(p as int, (pid, stv));
                    lemma_upsert_at(pre, id, vv, pv, p as int);
                    assert(self.pts() =~= pre.update(p as int, (id, upsert_merge(old_pt, vv, pv))));
                }
                CODE_OK
            },
            None => {
                let st = PointState {
                    vector: match vector {
                        Some(v) => Some(copy_vec(v)),
                        None => None,
                    },
                    payload: match payload {
                        Some(j) => Some(j.deep_copy()),
                        None => None,
                    },
                    deleted: false,
                };
                self.points.push((id, st));
                proof {
                    lemma_upsert_absent(pre, id, vv, pv);
                    assert(self.pts() =~= pre.push((id, upsert_fresh(vv, pv))));
                }
                CODE_OK
            },
        }
    }

    /// Delete: tombstone the record under `id`.  An identifier that was
    /// never stored is refused with the not-found code.
    pub fn delete(&mut self, id: u64) -> (code: i32)
        requires
            old(self).wf(),
        ensures
            final(self).wf(),
            final(self).config == old(self).config,
            final(self).calls == sat_inc(old(self).calls),
            final(self).snapshots == old(self).snapshots,
            final(self).flushes == old(self).flushes,
            match spec_find(old(self).pts(), id) {
                Some(_) => {
                    &&& code == CODE_OK
                    &&& final(self).pts() == delete_pt(old(self).pts(), id)
                },
                None => {
                    &&& code == CODE_NOT_FOUND
                    &&& final(self).pts() == old(self).pts()
                },
            },
    {
        self.calls = if self.calls == u64::MAX {
            self.calls
        } else {
            self.calls + 1
        };
        let ghost pre = self.pts();
        match self.find_id(id) {
            Some(p) => {
                let (pid, mut st) = self.points.remove(p);
                let ghost old_pt = st@;
                st.deleted = true;
                let ghost mid = self.points@;
                let ghost stv = st;
                self.points.insert(p, (pid, st));
                proof {
                    mid.insert_ensures(p as int, (pid, stv));
                    lemma_delete_at(pre, id, p as int);
                    assert(self.pts() =~= pre.update(
                        p as int,
                        (id, SpecPoint { deleted: true, ..old_pt }),
                    ));
                }
                CODE_OK
            },
            None => CODE_NOT_FOUND,
        }
    }

    /// Get: the requested parts of the record under `id`.  A record that
    /// was never stored, is tombstoned, or lacks a requested part answers
    /// with the not-found code and nothing else.
    pub fn get(&mut self, id: u64, want_vector: bool, want_payload: bool) -> (r: (
        i32,
        Option<Vec<VectorElem>>,
        Option<JsonValue>,
    ))
        requires
            old(self).wf(),
        ensures
            final(self).wf(),
            final(self).config == old(self).config,
            final(self).calls == sat_inc(old(self).calls),
            final(self).snapshots == old(self).snapshots,
            final(self).flushes == old(self).flushes,
            final(self).points == old(self).points,
            match spec_find(old(self).pts(), id) {
                Some(pt) => {
                    if !pt.deleted && (want_vector ==> pt.vector is Some) && (want_payload
                        ==> pt.payload is Some) {
                        &&& r.0 == CODE_OK
                        &&& (want_vector ==> match r.1 {
                            Some(v) => Some(v@) == pt.vector,
                            None => false,
                        })
                        &&& (!want_vector ==> r.1 is None)
                        &&& (want_payload ==> match r.2 {
                            Some(p) => Some(p@) == pt.payload,
                            None => false,
                        })
                        &&& (!want_payload ==> r.2 is None)
                    } else {
                        r.0 == CODE_NOT_FOUND && r.1 is None && r.2 is None
                    }
                },
                None => r.0 == CODE_NOT_FOUND && r.1 is None && r.2 is None,
            },
    {
        self.calls = if self.calls == u64::MAX {
            self.calls
        } else {
            self.calls + 1
        };
        match self.find_id(id) {
            Some(p) => {
                let st = &self.points[p].1;
                if st.deleted {
                    return (CODE_NOT_FOUND, None, None);
                }
                let rv: Option<Vec<VectorElem>> = if want_vector {
                    match &st.vector {
                        Some(v) => Some(copy_vec(v)),
                        None => {
                            return (CODE_NOT_FOUND, None, None);
                        },
                    }
                } else {
                    None
                };
                let rp: Option<JsonValue> = if want_payload {
                    match &st.payload {
                        Some(j) => Some(j.deep_copy()),
                        None => {
                            return (CODE_NOT_FOUND, None, None);
                        },
                    }
                } else {
                    None
                };
                (CODE_OK, rv, rp)
            },
            None => (CODE_NOT_FOUND, None, None),
        }
    }

    /// Count of records that hold a vector and are not tombstoned.
    pub fn vector_count(&mut self) -> (r: u64)
        requires
            old(self).wf(),
        ensures
            final(self).wf(),
            final(self).config == old(self).config,
            final(self).calls == sat_inc(old(self).calls),
            final(self).snapshots == old(self).snapshots,
            final(self).flushes == old(self).flushes,
            final(self).points == old(self).points,
            r == live_count(old(self).pts()),
    {
        self.calls = if self.calls == u64::MAX {
            self.calls
        } else {
            self.calls + 1
        };
        let mut count: u64 = 0;
        let mut i: usize = 0;
        proof {
            assert(self.pts().take(0) =~= Seq::<(u64, SpecPoint)>::empty());
        }
        while i < self.points.len()
            invariant
                self.wf(),
                i <= self.points@.len(),
                count == live_count(self.pts().take(i as int)),
                count <= i,
            decreases self.points@.len() - i,
        {
            let ghost prefix = self.pts().take(i as int);
            let st = &self.points[i].1;
            let live = !st.deleted && st.vector.is_some();
            proof {
                assert(self.pts().take(i as int + 1).drop_last() =~= prefix);
                assert(self.pts().take(i as int + 1).last() == self.pts()[i as int]);
            }
            if live {
                count += 1;
            }
            i += 1;
        }
        proof {
            assert(self.pts().take(self.points@.len() as int) =~= self.pts());
        }
        count
    }

    /// Persist the index state: the snapshot request.
    pub fn save_snapshot(&mut self) -> (code: i32)
        requires
            old(self).wf(),
        ensures
            final(self).wf(),
            final(self).config == old(self).config,
            final(self).calls == sat_inc(old(self).calls),
            final(self).snapshots == sat_inc(old(self).snapshots),
            final(self).flushes == old(self).flushes,
            final(self).points == old(self).points,
            code == CODE_OK,
    {
        self.calls = if self.calls == u64::MAX {
            self.calls
        } else {
            self.calls + 1
        };
        self.snapshots = if self.snapshots == u64::MAX {
            self.snapshots
        } else {
            self.snapshots + 1
        };
        CODE_OK
    }

    /// Persist the storage state: the flush request.
    pub fn flush(&mut self)
        requires
            old(self).wf(),
        ensures
            final(self).wf(),
            final(self).config == old(self).config,
            final(self).calls == sat_inc(old(self).calls),
            final(self).snapshots == old(self).snapshots,
            final(self).flushes == sat_inc(old(self).flushes),
            final(self).points == old(self).points,
    {
        self.calls = if self.calls == u64::MAX {
            self.calls
        } else {
            self.calls + 1
        };
        self.flushes = if self.flushes == u64::MAX {
            self.flushes
        } else {
            self.flushes + 1
        };
    }
}

/// A copy of a dense vector's components.
pub fn copy_vec(v: &Vec<VectorElem>) -> (r: Vec<VectorElem>)
    ensures
        r@ == v@,
{
    let mut out: Vec<VectorElem> = Vec::new();
    let mut i: usize = 0;
    while i < v.len()
        invariant
            i <= v@.len(),
            out@ =~= v@.take(i as int),
        decreases v@.len() - i,
    {
        out.push(v[i]);
        proof {
            assert(out@ =~= v@.take(i as int + 1));
        }
        i += 1;
    }
    proof {
        assert(v@.take(v@.len() as int) =~= v@);
    }
    out
}

/// An engine instance rooted at a working directory, with the collections
/// that rest in it.  An opened collection is checked out of the registry
/// and moves back in when its owner closes.
#[derive(Debug)]
pub struct Engine {
    pub work_dir: String,
    pub collections: Vec<(String, Collection)>,
}

impl Engine {
    /// Whether a collection named `name` rests in the registry.
    pub open spec fn spec_has(self, name: Seq<char>) -> bool {
        exists|i: int| 0 <= i < self.collections@.len() && self.collections@[i].0@ == name
    }

    /// Every resting collection is well formed.
    pub open spec fn wf(self) -> bool {
        forall|i: int| 0 <= i < self.collections@.len() ==> (#[trigger] self.collections@[i].1).wf()
    }

    /// A fresh engine instance rooted at `work_dir`, with nothing in it.
    pub fn create(work_dir: String) -> (e: Engine)
        ensures
            e.wf(),
            e.work_dir@ == work_dir@,
            e.collections@.len() == 0,
    {
        Engine { work_dir, collections: Vec::new() }
    }

    /// Check the collection named `name` out of the registry: the open
    /// request.  Nothing rests under an unknown name.
    #[verifier::loop_isolation(false)]
    pub fn take_collection(&mut self, name: &String) -> (r: Option<Collection>)
        requires
            old(self).wf(),
        ensures
            final(self).wf(),
            final(self).work_dir == old(self).work_dir,
            match r {
                Some(c) => {
                    &&& old(self).spec_has(name@)
                    &&& c.wf()
                    &&& exists|i: int|
                        {
                            &&& 0 <= i < old(self).collections@.len()
                            &&& old(self).collections@[i].0@ == name@
                            &&& (forall|j: int| 0 <= j < i ==> old(self).collections@[j].0@ != name@)
                            &&& old(self).collections@[i].1 == c
                            &&& final(self).collections@ == old(self).collections@.remove(i)
                        }
                },
                None => {
                    &&& !old(self).spec_has(name@)
                    &&& final(self).collections == old(self).collections
                },
            },
    {
        let mut i: usize = 0;
        while i < self.collections.len()
            invariant
                *self == *old(self),
                i <= self.collections@.len(),
                forall|j: int| 0 <= j < i ==> self.collections@[j].0@ != name@,
            decreases self.collections@.len() - i,
        {
            if self.collections[i].0 == *name {
                let ghost w = i as int;
                let ghost pre = self.collections@;
                let (_, c) = self.collections.remove(i);
                proof {
                    assert(self.collections@ == pre.remove(w));
                    pre.remove_ensures(w);
                    assert forall|j: int|
                        0 <= j < self.collections@.len() implies (
                    #[trigger] self.collections@[j].1).wf() by {
                        if j < w {
                            assert(pre.remove(w)[j] == pre[j]);
                        } else {
                            assert(pre.remove(w)[j] == pre[j + 1]);
                        }
                    }
                    assert({
                        &&& 0 <= w < old(self).collections@.len()
                        &&& old(self).collections@[w].0@ == name@
                        &&& (forall|j: int| 0 <= j < w ==> old(self).collections@[j].0@ != name@)
                        &&& old(self).collections@[w].1 == c
                        &&& self.collections@ == old(self).collections@.remove(w)
                    });
                }
                return Some(c);
            }
            i += 1;
        }
        None
    }

    /// Check a collection back into the registry under `name`: how a
    /// closing adapter returns what it owned to its engine.
    pub fn put_collection(&mut self, name: String, c: Collection)
        requires
            old(self).wf(),
            c.wf(),
        ensures
            final(self).wf(),
            final(self).work_dir == old(self).work_dir,
            final(self).spec_has(name@),
            final(self).collections@ == old(self).collections@.push((name, c)),
    {
        let ghost n = name@;
        self.collections.push((name, c));
        proof {
            assert(self.collections@.last().0@ == n);
        }
    }
}

/// One term of the engine's integer scoring: the metric decides the form.
/// Cosine ranks by the dot product here: the model scores over integer
/// components, where no normalization is available, and this layer never
/// re-orders what the engine returns.
pub open spec fn score_term(m: Distance, a: int, b: int) -> int {
    match m {
        Distance::Dot => a * b,
        Distance::Cosine => a * b,
        Distance::Euclid => (a - b) * (a - b),
        Distance::Manhattan => if a >= b {
            a - b
        } else {
            b - a
        },
    }
}

/// The score of the first `n` components.
pub open spec fn score_upto(
    m: Distance,
    q: Seq<VectorElem>,
    v: Seq<VectorElem>,
    n: int,
) -> int
    decreases n,
{
    if n <= 0 {
        0
    } else {
        score_upto(m, q, v, n - 1) + score_term(m, q[n - 1] as int, v[n - 1] as int)
    }
}

/// The score the engine gives a stored vector against a query.
pub open spec fn score_of(m: Distance, q: Seq<VectorElem>, v: Seq<VectorElem>) -> int {
    score_upto(m, q, v, q.len() as int)
}

/// Whether a stored record satisfies a filter: its payload is an object
/// whose entry under the filter key equals the match value.
pub open spec fn filter_matches(f: Filter, pt: SpecPoint) -> bool {
    match pt.payload {
        Some(SpecJson::Obj(es)) => obj_get(es, f.key@) == Some(f.value.spec_json()),
        _ => false,
    }
}

/// Whether a record enters a search result: it holds a vector, is not
/// tombstoned, and satisfies the filter when one is given.
pub open spec fn is_hit(pt: SpecPoint, f: Option<Filter>) -> bool {
    &&& pt.vector is Some
    &&& !pt.deleted
    &&& match f {
        Some(ff) => filter_matches(ff, pt),
        None => true,
    }
}

/// The scored hits among the first `n` records, in record order.
pub open spec fn hits_upto(
    m: Distance,
    s: Seq<(u64, SpecPoint)>,
    q: Seq<VectorElem>,
    f: Option<Filter>,
    n: int,
) -> Seq<(u64, int)>
    decreases n,
{
    if n <= 0 {
        Seq::empty()
    } else {
        let rest = hits_upto(m, s, q, f, n - 1);
        if is_hit(s[n - 1].1, f) {
            rest.push((s[n - 1].0, score_of(m, q, s[n - 1].1.vector->0)))
        } else {
            rest
        }
    }
}

/// The first `n` elements, or all of them when there are fewer.
pub open spec fn take_at_most<T>(s: Seq<T>, n: int) -> Seq<T> {
    if n <= s.len() {
        s.take(n)
    } else {
        s
    }
}

/// The exact integer score of a stored vector against a query.
#[verifier::loop_isolation(false)]
fn compute_score(metric: Distance, q: &Vec<VectorElem>, v: &Vec<VectorElem>) -> (r: i128)
    requires
        q@.len() == v@.len(),
        q@.len() <= u32::MAX,
    ensures
        r as int == score_of(metric, q@, v@),
{
    let mut acc: i128 = 0;
    let mut i: usize = 0;
    while i < q.len()
        invariant
            i <= q@.len(),
            acc as int == score_upto(metric, q@, v@, i as int),
            -(i as int) * 0x1_0000_0000_0000_0000 <= acc as int <= (i as int)
                * 0x1_0000_0000_0000_0000,
        decreases q@.len() - i,
    {
        let a = q[i] as i128;
        let b = v[i] as i128;
        proof {
            assert(-0x1_0000_0000_0000_0000 <= a * b <= 0x1_0000_0000_0000_0000)
                by (nonlinear_arith)
                requires
                    -0x8000_0000 <= a <= 0x7fff_ffff,
                    -0x8000_0000 <= b <= 0x7fff_ffff,
            ;
            assert(-0x1_0000_0000_0000_0000 <= (a - b) * (a - b) <= 0x1_0000_0000_0000_0000)
                by (nonlinear_arith)
                requires
                    -0x8000_0000 <= a <= 0x7fff_ffff,
                    -0x8000_0000 <= b <= 0x7fff_ffff,
            ;
        }
        let term: i128 = match metric {
            Distance::Dot => a * b,
            Distance::Cosine => a * b,
            Distance::Euclid => (a - b) * (a - b),
            Distance::Manhattan => if a >= b {
                a - b
            } else {
                b - a
            },
        };
        acc = acc + term;
        i += 1;
    }
    acc
}

/// Whether a stored record enters a search result.
fn point_matches(st: &PointState, filter: Option<&Filter>) -> (r: bool)
    ensures
        r == is_hit(
            st@,
            match filter {
                Some(f) => Some(*f),
                None => None::<Filter>,
            },
        ),
{
    if st.deleted {
        return false;
    }
    if st.vector.is_none() {
        return false;
    }
    match filter {
        None => true,
        Some(f) => match &st.payload {
            Some(j) => match j {
                JsonValue::Obj(es) => {
                    proof {
                        lemma_obj_view(es@);
                    }
                    match find_key(es, &f.key) {
                        Some(p) => {
                            proof {
                                lemma_obj_get_at(obj_view(es@), f.key@, p as int);
                            }
                            f.value.matches_json(&es[p].1)
                        },
                        None => {
                            proof {
                                lemma_obj_get_absent(obj_view(es@), f.key@);
                            }
                            false
                        },
                    }
                },
                _ => {
                    proof {
                        match j {
                            JsonValue::Null => assert(j@ is Null),
                            JsonValue::Bool(_) => assert(j@ is Bool),
                            JsonValue::Int(_) => assert(j@ is Int),
                            JsonValue::Str(_) => assert(j@ is Str),
                            JsonValue::Arr(_) => assert(j@ is Arr),
                            JsonValue::Obj(_) => assert(false),
                        }
                    }
                    false
                },
            },
            None => false,
        },
    }
}

impl Collection {
    /// Search: the first `top_k` records, in record order, that hold a
    /// vector, are not tombstoned and satisfy the filter, each scored
    /// against the query.  A query of the wrong dimension is refused with
    /// a non-zero code and an empty result.
    #[verifier::loop_isolation(false)]
    pub fn search(&mut self, query: &Vec<VectorElem>, top_k: usize, filter: Option<&Filter>) -> (r:
        (i32, Vec<(u64, i128)>))
        requires
            old(self).wf(),
        ensures
            final(self).wf(),
            final(self).config == old(self).config,
            final(self).calls == sat_inc(old(self).calls),
            final(self).snapshots == old(self).snapshots,
            final(self).flushes == old(self).flushes,
            final(self).points == old(self).points,
            ({
                let fo = match filter {
                    Some(f) => Some(*f),
                    None => None::<Filter>,
                };
                let hits = take_at_most(
                    hits_upto(
                        old(self).config.distance_metric,
                        old(self).pts(),
                        query@,
                        fo,
                        old(self).pts().len() as int,
                    ),
                    top_k as int,
                );
                if query@.len() != old(self).config.dimension {
                    &&& r.0 == CODE_DIMENSION_MISMATCH
                    &&& r.1@.len() == 0
                } else {
                    &&& r.0 == CODE_OK
                    &&& r.1@.len() == hits.len()
                    &&& forall|j: int|
                        0 <= j < hits.len() ==> (#[trigger] r.1@[j]).0 == hits[j].0 && r.1@[j].1
                            as int == hits[j].1
                }
            }),
    {
        self.calls = if self.calls == u64::MAX {
            self.calls
        } else {
            self.calls + 1
        };
        if query.len() as u64 != self.config.dimension as u64 {
            return (CODE_DIMENSION_MISMATCH, Vec::new());
        }
        let ghost fo: Option<Filter> = match filter {
            Some(f) => Some(*f),
            None => None::<Filter>,
        };
        let ghost m = self.config.distance_metric;
        let metric = self.config.distance_metric;
        let mut out: Vec<(u64, i128)> = Vec::new();
        let mut i: usize = 0;
        while i < self.points.len()
            invariant
                i <= self.points@.len(),
                out@.len() == take_at_most(
                    hits_upto(m, self.pts(), query@, fo, i as int),
                    top_k as int,
                ).len(),
                forall|j: int|
                    0 <= j < out@.len() ==> (#[trigger] out@[j]).0 == hits_upto(
                        m,
                        self.pts(),
                        query@,
                        fo,
                        i as int,
                    )[j].0 && out@[j].1 as int == hits_upto(m, self.pts(), query@, fo, i as int)[j].1,
            decreases self.points@.len() - i,
        {
            let ghost hits_i = hits_upto(m, self.pts(), query@, fo, i as int);
            let st = &self.points[i].1;
            proof {
                assert(self.pts()[i as int] == (self.points@[i as int].0, st@));
            }
            if point_matches(st, filter) && out.len() < top_k {
                proof {
                    assert(out@.len() == hits_i.len());
                }
                match &st.vector {
                    Some(v) => {
                        let sc = compute_score(metric, query, v);
                        out.push((self.points[i].0, sc));
                    },
                    None => {
                        proof {
                            assert(false);
                        }
                    },
                }
            }
            i += 1;
        }
        (CODE_OK, out)
    }
}

/// Pointwise shape of an upsert: every entry is kept as it was, or carries
/// the upserted identifier with the given vector (or the kept one).
pub proof fn lemma_upsert_pointwise(
    s: Seq<(u64, SpecPoint)>,
    id: u64,
    vector: Option<Seq<VectorElem>>,
    payload: Option<SpecJson>,
)
    ensures
        s.len() <= upsert_pt(s, id, vector, payload).len() <= s.len() + 1,
        forall|j: int|
            0 <= j < upsert_pt(s, id, vector, payload).len() ==> {
                ||| (j < s.len() && #[trigger] upsert_pt(s, id, vector, payload)[j] == s[j])
                ||| (upsert_pt(s, id, vector, payload)[j].0 == id && upsert_pt(
                    s,
                    id,
                    vector,
                    payload,
                )[j].1.vector == (match vector {
                    Some(vv) => Some(vv),
                    None => if j < s.len() {
                        s[j].1.vector
                    } else {
                        None
                    },
                }))
            },
    decreases s.len(),
{
    let r = upsert_pt(s, id, vector, payload);
    if s.len() == 0 {
    } else if s[0].0 == id {
        assert forall|j: int| 0 <= j < r.len() implies {
            ||| (j < s.len() && #[trigger] r[j] == s[j])
            ||| (r[j].0 == id && r[j].1.vector == (match vector {
                Some(vv) => Some(vv),
                None => if j < s.len() {
                    s[j].1.vector
                } else {
                    None
                },
            }))
        } by {
            if j > 0 {
                assert(r[j] == s.drop_first()[j - 1]);
                assert(s.drop_first()[j - 1] == s[j]);
            }
        }
    } else {
        lemma_upsert_pointwise(s.drop_first(), id, vector, payload);
        assert forall|j: int| 0 <= j < r.len() implies {
            ||| (j < s.len() && #[trigger] r[j] == s[j])
            ||| (r[j].0 == id && r[j].1.vector == (match vector {
                Some(vv) => Some(vv),
                None => if j < s.len() {
                    s[j].1.vector
                } else {
                    None
                },
            }))
        } by {
            if j > 0 {
                assert(r[j] == upsert_pt(s.drop_first(), id, vector, payload)[j - 1]);
                if j - 1 < s.drop_first().len() {
                    assert(s.drop_first()[j - 1] == s[j]);
                }
            }
        }
    }
}

/// Pointwise shape of a delete: identifiers and vectors are kept, and each
/// entry is unchanged or tombstoned.
pub proof fn lemma_delete_pointwise(s: Seq<(u64, SpecPoint)>, id: u64)
    ensures
        delete_pt(s, id).len() == s.len(),
        forall|j: int|
            0 <= j < s.len() ==> (#[trigger] delete_pt(s, id)[j]).0 == s[j].0 && delete_pt(
                s,
                id,
            )[j].1.vector == s[j].1.vector && (delete_pt(s, id)[j] == s[j] || delete_pt(s, id)[j].1
                == SpecPoint { deleted: true, ..s[j].1 }),
    decreases s.len(),
{
    let r = delete_pt(s, id);
    if s.len() == 0 {
    } else if s[0].0 == id {
        assert forall|j: int|
            0 <= j < s.len() implies (#[trigger] r[j]).0 == s[j].0 && r[j].1.vector
            == s[j].1.vector && (r[j] == s[j] || r[j].1 == SpecPoint {
            deleted: true,
            ..s[j].1
        }) by {
            if j > 0 {
                assert(r[j] == s.drop_first()[j - 1]);
                assert(s.drop_first()[j - 1] == s[j]);
            }
        }
    } else {
        lemma_delete_pointwise(s.drop_first(), id);
        assert forall|j: int|
            0 <= j < s.len() implies (#[trigger] r[j]).0 == s[j].0 && r[j].1.vector
            == s[j].1.vector && (r[j] == s[j] || r[j].1 == SpecPoint {
            deleted: true,
            ..s[j].1
        }) by {
            if j > 0 {
                assert(r[j] == delete_pt(s.drop_first(), id)[j - 1]);
                assert(s.drop_first()[j - 1] == s[j]);
            }
        }
    }
}

/// `live_count` never exceeds the length counted over.
pub proof fn lemma_live_count_le(s: Seq<(u64, SpecPoint)>)
    ensures
        live_count(s) <= s.len(),
    decreases s.len(),
{
    if s.len() > 0 {
        lemma_live_count_le(s.drop_last());
    }
}

/// What an upsert leaves under the upserted identifier: the merged record
/// where one was stored, a fresh one otherwise.
pub proof fn lemma_find_upsert_same(
    s: Seq<(u64, SpecPoint)>,
    id: u64,
    vector: Option<Seq<VectorElem>>,
    payload: Option<SpecJson>,
)
    ensures
        spec_find(upsert_pt(s, id, vector, payload), id) == Some(
            match spec_find(s, id) {
                Some(o) => upsert_merge(o, vector, payload),
                None => upsert_fresh(vector, payload),
            },
        ),
    decreases s.len(),
{
    if s.len() == 0 {
    } else if s[0].0 == id {
        assert((seq![(id, upsert_merge(s[0].1, vector, payload))] + s.drop_first())[0] == (
            id,
            upsert_merge(s[0].1, vector, payload),
        ));
    } else {
        lemma_find_upsert_same(s.drop_first(), id, vector, payload);
        assert((seq![s[0]] + upsert_pt(s.drop_first(), id, vector, payload)).drop_first()
            =~= upsert_pt(s.drop_first(), id, vector, payload));
    }
}

/// An upsert leaves every other identifier's record as it was.
pub proof fn lemma_find_upsert_other(
    s: Seq<(u64, SpecPoint)>,
    id: u64,
    vector: Option<Seq<VectorElem>>,
    payload: Option<SpecJson>,
    other: u64,
)
    requires
        other != id,
    ensures
        spec_find(upsert_pt(s, id, vector, payload), other) == spec_find(s, other),
    decreases s.len(),
{
    if s.len() == 0 {
        assert(seq![(id, upsert_fresh(vector, payload))].drop_first() =~= Seq::<(
            u64,
            SpecPoint,
        )>::empty());
        assert(spec_find(Seq::<(u64, SpecPoint)>::empty(), other) is None);
        assert(seq![(id, upsert_fresh(vector, payload))][0].0 == id);
        assert(spec_find(seq![(id, upsert_fresh(vector, payload))], other) is None);
    } else if s[0].0 == id {
        assert((seq![(id, upsert_merge(s[0].1, vector, payload))] + s.drop_first()).drop_first()
            =~= s.drop_first());
    } else {
        lemma_find_upsert_other(s.drop_first(), id, vector, payload, other);
        assert((seq![s[0]] + upsert_pt(s.drop_first(), id, vector, payload)).drop_first()
            =~= upsert_pt(s.drop_first(), id, vector, payload));
    }
}

impl Engine {
    /// Open-or-create: check out the collection resting under `name`, or
    /// create a fresh one from `config` when none does — the binding step
    /// every adapter takes at construction.
    pub fn open_or_create(&mut self, name: &String, config: CollectionConfig) -> (c: Collection)
        requires
            old(self).wf(),
        ensures
            final(self).wf(),
            final(self).work_dir == old(self).work_dir,
            c.wf(),
            !old(self).spec_has(name@) ==> {
                &&& c.config == config
                &&& c.pts().len() == 0
                &&& c.calls == 0
                &&& c.snapshots == 0
                &&& c.flushes == 0
                &&& final(self).collections == old(self).collections
            },
            old(self).spec_has(name@) ==> exists|i: int|
                {
                    &&& 0 <= i < old(self).collections@.len()
                    &&& old(self).collections@[i].0@ == name@
                    &&& (forall|j: int| 0 <= j < i ==> old(self).collections@[j].0@ != name@)
                    &&& old(self).collections@[i].1 == c
                    &&& final(self).collections@ == old(self).collections@.remove(i)
                },
    {
        match self.take_collection(name) {
            Some(c) => c,
            None => {
                let c = Collection::new(config);
                proof {
                    assert(c.pts() =~= Seq::<(u64, SpecPoint)>::empty());
                }
                c
            },
        }
    }
}

} // verus!
