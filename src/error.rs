use vstd::prelude::*;

verus! {

/// The argument that a validation rejected.
#[derive(Debug, Clone, Copy, PartialEq, Eq, Structural)]
pub enum Field {
    Name,
    Symbol,
    BaseUri,
    MetadataUri,
    Address,
    Amount,
    Operator,
    Approved,
}

/// Why an operation on a ledger failed. A failed operation changes nothing.
#[derive(Debug, Clone, Copy, PartialEq, Eq, Structural)]
pub enum LedgerError {
    InvalidArgument(Field),
    Unauthorized,
    InsufficientBalance { required: u64, available: u64 },
    Overflow,
    Underflow,
    SerializationFailed,
    DeserializationFailed,
    CallDataUnavailable,
    PayloadTooLarge,
    NotInitialized,
    AlreadyInitialized,
    TokenNotFound,
    TokenExists,
    TokenBurned,
    NotTokenOwner,
    Reentrant,
}

} // verus!
