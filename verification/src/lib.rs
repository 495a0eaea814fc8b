//! Adapter layer that maps a segment's storage abstractions — vector index,
//! raw vector storage and payload (metadata) storage — onto a single vector
//! engine.  The engine is modelled in `engine`; the three adapters drive it
//! through typed requests and keep their own bookkeeping: a deletion shadow
//! for the vector storage and a read cache for the payload storage.

pub mod bits;
pub mod codec;
pub mod engine;
pub mod errors;
pub mod index;
pub mod json;
pub mod payload;
pub mod storage;
pub mod types;
