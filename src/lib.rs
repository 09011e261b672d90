//! Synchronises a listener's top tracks and artists from a catalog API into a
//! relational store: cache-backed batch resolution, fan-out assembly of a stats
//! snapshot, and the rows that snapshot becomes in the store.
use vstd::prelude::*;

pub mod error;
pub mod id_map;
pub mod persist;
pub mod resolver;
pub mod snapshot;
pub mod timeframe;

verus! {

} // verus!
