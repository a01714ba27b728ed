use vstd::prelude::*;

verus! {

/// The failure taxonomy of the ledger node.
///
/// `InvalidAmount` rejects a value outside the fixed-point decimal domain,
/// `EmptyChain` flags a violated genesis invariant (defensive only),
/// `PersistenceError` covers a snapshot that cannot be decoded, and
/// `BadRequest` covers a transaction request with a missing field.
#[derive(Clone, Copy, Debug, PartialEq, Eq, Structural)]
pub enum LedgerError {
    InvalidAmount,
    EmptyChain,
    PersistenceError,
    BadRequest,
}

} // verus!
