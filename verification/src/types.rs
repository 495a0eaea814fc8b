//! Host-side data model: offsets, vectors, queries, filters, results.

use vstd::prelude::*;
use crate::json::JsonValue;
use crate::json::SpecJson;

verus! {

/// Dense, process-local identifier of a vector/payload pair, distinct from
/// any client-visible identifier.
pub type PointOffsetType = u32;

/// One component of a stored vector.
pub type VectorElem = i32;

/// Distance metric used for ranking within a collection.
#[derive(Clone, Copy, Debug, PartialEq, Eq, Structural)]
pub enum Distance {
    Cosine,
    Euclid,
    Dot,
    Manhattan,
}

impl Distance {
    /// The exact-match name of the metric in a collection config.
    pub open spec fn spec_name(self) -> Seq<char> {
        match self {
            Distance::Cosine => "cosine"@,
            Distance::Euclid => "euclidean"@,
            Distance::Dot => "dot"@,
            Distance::Manhattan => "manhattan"@,
        }
    }

    /// The exact-match name of the metric in a collection config.
    pub fn name(&self) -> (r: &'static str)
        ensures
            r@ == self.spec_name(),
    {
        match self {
            Distance::Cosine => "cosine",
            Distance::Euclid => "euclidean",
            Distance::Dot => "dot",
            Distance::Manhattan => "manhattan",
        }
    }
}

/// Data type of the stored vector components.
#[derive(Clone, Copy, Debug, PartialEq, Eq, Structural)]
pub enum VectorStorageDatatype {
    Float32,
}

/// A sparse vector: pairs of index and component.  This layer does not
/// support it; it exists to be rejected before any native call.
#[derive(Debug, PartialEq)]
pub struct SparseVector {
    pub indices: Vec<u32>,
    pub values: Vec<VectorElem>,
}

/// A vector as handed across the adapter interfaces.
#[derive(Debug, PartialEq)]
pub enum VectorInternal {
    Dense(Vec<VectorElem>),
    Sparse(SparseVector),
}

impl VectorInternal {
    /// The components when the vector is dense.
    pub open spec fn dense_view(self) -> Option<Seq<VectorElem>> {
        match self {
            VectorInternal::Dense(v) => Some(v@),
            VectorInternal::Sparse(_) => None,
        }
    }
}

/// A query vector for a search: this layer accepts nearest-neighbor queries.
#[derive(Debug, PartialEq)]
pub enum QueryVector {
    Nearest(VectorInternal),
}

/// One ranked search result: a point offset and the score the engine gave.
#[derive(Clone, Copy, Debug, PartialEq, Eq, Structural)]
pub struct ScoredPointOffset {
    pub idx: PointOffsetType,
    pub score: i128,
}

/// A match condition on one payload key: the filter grammar this layer
/// hands to the engine.
#[derive(Debug, PartialEq)]
pub struct Filter {
    pub key: String,
    pub value: MatchValue,
}

/// The value a filter matches against: a scalar.
#[derive(Debug, PartialEq)]
pub enum MatchValue {
    Bool(bool),
    Int(i64),
    Str(String),
}

impl MatchValue {
    /// The JSON shape a payload value must equal for the filter to match.
    pub open spec fn spec_json(self) -> SpecJson {
        match self {
            MatchValue::Bool(b) => SpecJson::Bool(b),
            MatchValue::Int(i) => SpecJson::Int(i as int),
            MatchValue::Str(s) => SpecJson::Str(s@),
        }
    }

    /// Whether `v` equals this match value.
    pub fn matches_json(&self, v: &JsonValue) -> (r: bool)
        ensures
            r == (v@ == self.spec_json()),
    {
        match (self, v) {
            (MatchValue::Bool(a), JsonValue::Bool(b)) => a == b,
            (MatchValue::Int(a), JsonValue::Int(b)) => a == b,
            (MatchValue::Str(a), JsonValue::Str(b)) => *a == *b,
            _ => {
                proof {
                    match self {
                        MatchValue::Bool(_) => assert(self.spec_json() is Bool),
                        MatchValue::Int(_) => assert(self.spec_json() is Int),
                        MatchValue::Str(_) => assert(self.spec_json() is Str),
                    }
                    match v {
                        JsonValue::Null => assert(v@ is Null),
                        JsonValue::Bool(_) => assert(v@ is Bool),
                        JsonValue::Int(_) => assert(v@ is Int),
                        JsonValue::Str(_) => assert(v@ is Str),
                        JsonValue::Arr(_) => assert(v@ is Arr),
                        JsonValue::Obj(_) => assert(v@ is Obj),
                    }
                }
                false
            },
        }
    }
}

/// Search counters of the vector index.  The engine exposes no live
/// telemetry, so every counter stays zero: a capability gap, not an error.
#[derive(Debug, PartialEq)]
pub struct VectorIndexSearchesTelemetry {
    pub index_name: Option<String>,
    pub unfiltered_plain: u64,
    pub filtered_plain: u64,
    pub unfiltered_hnsw: u64,
    pub filtered_small_cardinality: u64,
    pub filtered_large_cardinality: u64,
    pub filtered_exact: u64,
    pub filtered_sparse: u64,
    pub unfiltered_sparse: u64,
    pub unfiltered_exact: u64,
}

} // verus!
