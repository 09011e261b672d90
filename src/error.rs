use vstd::prelude::*;

verus! {

/// The hard failures of a synchronisation. Each aborts the operation it occurs in.
#[derive(Clone, Copy, Debug, PartialEq, Eq, Structural)]
pub enum SyncError {
    /// The metadata cache could not be reached, or answered out of shape.
    CacheUnavailable,
    /// A cached value could not be encoded or decoded.
    Serialization,
    /// The catalog API could not be reached.
    UpstreamRequest,
    /// The catalog API answered with an error status or a malformed payload.
    UpstreamResponse,
    /// A write to the relational store failed.
    Persistence,
    /// An external id has no internal id in the mapping handed in.
    UnmappedId,
}

} // verus!
