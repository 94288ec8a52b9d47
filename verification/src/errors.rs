use vstd::prelude::*;

verus! {

/// Failure taxonomy shared by the persistence contract and the composition
/// engine. Every store-level failure surfaces as exactly one of these; the
/// engine performs no local recovery and propagates them unchanged.
#[derive(Clone, Copy, Debug, PartialEq, Eq, Structural)]
pub enum CmsError {
    /// Zero rows matched where exactly one was required.
    NotFound,
    /// The connection pool was exhausted or the connection failed.
    StoreUnavailable,
    /// Any other backing-store failure, including constraint violations
    /// not covered by the insert-or-ignore create semantics.
    StoreError,
    /// A mutating call was attempted without a verified identity.
    Unauthorized,
}

} // verus!
