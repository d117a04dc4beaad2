//! An approximate nearest-neighbour index over fixed-dimension integer
//! vectors: a vector store keyed by id, a bounded-degree proximity graph
//! built incrementally, best-first graph search, exact linear search, a
//! byte format for persistence, quantized companions searched through a
//! shortlist, and offline refinement and conversion of the graph.
//!
//! Coordinates are integers. `Uint8` payloads hold bytes; `Float` and
//! `Float16` payloads hold fixed-point values at a scale of the caller's
//! choosing, and every distance is computed exactly in those units (L2 as
//! the squared Euclidean distance).
use vstd::prelude::*;

pub mod codec;
pub mod distance;
pub mod error;
pub mod index;
pub mod laws;
pub mod optim;
pub mod persist;
pub mod properties;
pub mod qbg;
pub mod qbg_index;
pub mod qg;
pub mod results;

pub use crate::error::{Error, ErrorKind};
pub use crate::index::{NgtIndex, NgtQuery, EPSILON, EPSILON_EXHAUSTIVE};
pub use crate::properties::{NgtDistance, NgtObject, NgtProperties};
pub use crate::qbg::{
    QbgBuildParams, QbgClusteringInitMode, QbgConstructParams, QbgDistance, QbgObject, QbgObjectType,
};
pub use crate::qbg_index::{IndexMode, ModeRead, ModeWrite, QbgIndex, QbgQuery};
pub use crate::qg::{QgDistance, QgIndex, QgObject, QgQuantizationParams, QgQuery};
pub use crate::results::SearchResult;

verus! {

/// Identifier of a stored vector; never zero.
pub type VecId = u32;

} // verus!
