use vstd::prelude::*;

verus! {

/// The closed set of failure kinds surfaced to callers.
///
/// Every operation of the library reports its failure as one of these,
/// together with a human-readable message.
#[derive(Clone, Copy, Debug, PartialEq, Eq, Structural)]
pub enum ErrorKind {
    /// A bad, expired or missing token, or bad login credentials.
    Authentication,
    /// The caller's role does not permit the operation.
    Authorization,
    /// Malformed input: short password, unknown role, or a reference
    /// that resolves to an account of the wrong role.
    Validation,
    /// A referenced account or card is absent.
    NotFound,
    /// A uniqueness constraint was violated.
    Conflict,
    /// The store is not connected.
    StoreUnavailable,
    /// Any other failure of the underlying machinery.
    Internal,
}

/// A failure: one of the closed kinds, carrying a human-readable message.
#[derive(Debug)]
pub struct AppError {
    pub kind: ErrorKind,
    pub message: String,
}

} // verus!
