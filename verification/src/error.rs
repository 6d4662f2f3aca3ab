use vstd::prelude::*;

verus! {

/// The error taxonomy of the engine.
///
/// `NotFound` covers an absent ticket, space, tariff or account;
/// `InvalidArgument` a malformed or out-of-range input; `NoFreeSpace` an
/// exhausted claim; `InsufficientBalance` a tripped transfer guard;
/// `Conflict` a ticket-code collision that survived every retry; and
/// `TransientStoreError` a retryable fault of a backing store, which the
/// in-memory store never raises itself.
#[derive(Clone, Copy, Debug, PartialEq, Eq, Structural)]
pub enum MyError {
    NotFound,
    InvalidArgument,
    NoFreeSpace,
    InsufficientBalance,
    Conflict,
    TransientStoreError,
}

} // verus!
