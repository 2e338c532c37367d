//! Local support engine of a canvas application: text normalization and
//! tokenizing, lexical memory retrieval, context assembly for a model
//! conversation, upstream-input resolution on the canvas graph, naming and
//! size rules of the remote asset cache, and the decisions of the coalescing
//! snapshot writer.
use vstd::prelude::*;

pub mod text;
pub mod context;
pub mod graph;
pub mod retrieval;
pub mod digest;
pub mod asset;
pub mod persist;

verus! {

} // verus!
