use vstd::prelude::*;
use crate::error::{Field, LedgerError};

verus! {

/// Largest call-data or return payload an invocation may carry, in bytes.
pub const MAX_PAYLOAD_BYTES: usize = 4096;

/// Rejects an empty address.
pub fn validate_address(s: &str) -> (r: Result<(), LedgerError>)
    ensures
        r == if s@.len() == 0 {
            Err::<(), LedgerError>(LedgerError::InvalidArgument(Field::Address))
        } else {
            Ok(())
        },
{
    if s.is_empty() {
        Err(LedgerError::InvalidArgument(Field::Address))
    } else {
        Ok(())
    }
}

/// Rejects a zero amount.
pub fn validate_positive_amount(n: u64) -> (r: Result<(), LedgerError>)
    ensures
        r == if n == 0 {
            Err::<(), LedgerError>(LedgerError::InvalidArgument(Field::Amount))
        } else {
            Ok(())
        },
{
    if n == 0 {
        Err(LedgerError::InvalidArgument(Field::Amount))
    } else {
        Ok(())
    }
}

/// Rejects an empty string, naming the field it was given for.
pub fn validate_non_empty(s: &str, field: Field) -> (r: Result<(), LedgerError>)
    ensures
        r == if s@.len() == 0 {
            Err::<(), LedgerError>(LedgerError::InvalidArgument(field))
        } else {
            Ok(())
        },
{
    if s.is_empty() {
        Err(LedgerError::InvalidArgument(field))
    } else {
        Ok(())
    }
}

/// Checks an encoded payload against the bounds of an invocation: it must be
/// present and at most `MAX_PAYLOAD_BYTES` long.
pub fn validate_payload(payload: &[u8]) -> (r: Result<(), LedgerError>)
    ensures
        r == if payload@.len() > MAX_PAYLOAD_BYTES {
            Err::<(), LedgerError>(LedgerError::PayloadTooLarge)
        } else if payload@.len() == 0 {
            Err(LedgerError::CallDataUnavailable)
        } else {
            Ok(())
        },
{
    if payload.len() > MAX_PAYLOAD_BYTES {
        Err(LedgerError::PayloadTooLarge)
    } else if payload.len() == 0 {
        Err(LedgerError::CallDataUnavailable)
    } else {
        Ok(())
    }
}

} // verus!
