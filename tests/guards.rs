use crc_tokens::arith;
use crc_tokens::error::{Field, LedgerError};
use crc_tokens::guard::ReentrancyGuard;
use crc_tokens::validation::{
    validate_address, validate_non_empty, validate_payload, validate_positive_amount,
};

#[test]
fn checked_add_and_sub() {
    assert_eq!(arith::add(2, 3), Ok(5));
    assert_eq!(arith::add(u64::MAX, 1), Err(LedgerError::Overflow));
    assert_eq!(arith::add(u64::MAX - 1, 1), Ok(u64::MAX));
    assert_eq!(arith::sub(5, 3), Ok(2));
    assert_eq!(arith::sub(3, 5), Err(LedgerError::Underflow));
    assert_eq!(arith::sub(3, 3), Ok(0));
}

#[test]
fn validation_rules() {
    assert_eq!(validate_address(""), Err(LedgerError::InvalidArgument(Field::Address)));
    assert_eq!(validate_address("0xabc"), Ok(()));
    assert_eq!(validate_positive_amount(0), Err(LedgerError::InvalidArgument(Field::Amount)));
    assert_eq!(validate_positive_amount(1), Ok(()));
    assert_eq!(validate_non_empty("", Field::Symbol), Err(LedgerError::InvalidArgument(Field::Symbol)));
    assert_eq!(validate_non_empty("x", Field::Symbol), Ok(()));
}

#[test]
fn payload_bounds() {
    assert_eq!(validate_payload(&[]), Err(LedgerError::CallDataUnavailable));
    assert_eq!(validate_payload(&[1u8; 4096]), Ok(()));
    assert_eq!(validate_payload(&[1u8; 4097]), Err(LedgerError::PayloadTooLarge));
}

#[test]
fn guard_refuses_nested_entry() {
    let mut guard = ReentrancyGuard::new();
    assert_eq!(guard.enter(), Ok(()));
    assert_eq!(guard.enter(), Err(LedgerError::Reentrant));
    guard.exit();
    assert_eq!(guard.enter(), Ok(()));
}
