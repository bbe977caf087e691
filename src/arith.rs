use vstd::prelude::*;
use crate::error::LedgerError;

verus! {

/// `a + b`, or `Overflow` when the sum does not fit in 64 bits.
pub fn add(a: u64, b: u64) -> (r: Result<u64, LedgerError>)
    ensures
        a + b <= u64::MAX ==> r == Ok::<u64, LedgerError>((a + b) as u64),
        a + b > u64::MAX ==> r == Err::<u64, LedgerError>(LedgerError::Overflow),
{
    match a.checked_add(b) {
        Some(s) => Ok(s),
        None => Err(LedgerError::Overflow),
    }
}

/// `a - b`, or `Underflow` when `b > a`.
pub fn sub(a: u64, b: u64) -> (r: Result<u64, LedgerError>)
    ensures
        b <= a ==> r == Ok::<u64, LedgerError>((a - b) as u64),
        b > a ==> r == Err::<u64, LedgerError>(LedgerError::Underflow),
{
    if b > a {
        Err(LedgerError::Underflow)
    } else {
        Ok(a - b)
    }
}

} // verus!
