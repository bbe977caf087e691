use crc_tokens::error::{Field, LedgerError};
use crc_tokens::event::{LedgerEvent, ZERO_ADDRESS};
use crc_tokens::fungible::FungibleLedger;

const ADDR_DEPLOYER: &str = "0x0000000000000000000000000000000000000d01";
const ADDR_BOB: &str = "0x0000000000000000000000000000000000000b02";
const ADDR_CAROL: &str = "0x0000000000000000000000000000000000000c03";
const ADDR_DAVE: &str = "0x0000000000000000000000000000000000000d04";
const ADDR_EVE: &str = "0x0000000000000000000000000000000000000e05";

fn init_default() -> FungibleLedger {
    let mut ledger = FungibleLedger::new();
    ledger
        .initialize(ADDR_DEPLOYER, "Chert Token", "CHT", 18, 1_000)
        .expect("initialize");
    ledger.take_events();
    ledger
}

#[test]
fn initialize_sets_metadata_and_balance() {
    let ledger = init_default();
    assert_eq!(ledger.name().expect("metadata exists"), "Chert Token");
    assert_eq!(ledger.symbol().expect("metadata exists"), "CHT");
    assert_eq!(ledger.total_supply().expect("metadata exists"), 1_000);
    let balance = ledger.balance_of(ADDR_DEPLOYER).expect("deployer balance");
    assert_eq!(balance, 1_000);
}

#[test]
fn transfer_moves_balance_and_emits_event() {
    let mut ledger = init_default();
    ledger.transfer(ADDR_DEPLOYER, ADDR_BOB, 200).expect("transfer");
    let deployer_balance = ledger.balance_of(ADDR_DEPLOYER).expect("sender balance");
    let bob_balance = ledger.balance_of(ADDR_BOB).expect("recipient balance");
    assert_eq!(deployer_balance, 800);
    assert_eq!(bob_balance, 200);
    let events = ledger.take_events();
    assert!(!events.is_empty(), "transfer should emit event");
}

#[test]
fn approve_and_transfer_from_decrements_allowance() {
    let mut ledger = init_default();
    ledger.approve(ADDR_DEPLOYER, ADDR_CAROL, 300).expect("approve");
    ledger
        .transfer_from(ADDR_CAROL, ADDR_DEPLOYER, ADDR_DAVE, 150)
        .expect("transfer_from");
    let allowance = ledger.allowance(ADDR_DEPLOYER, ADDR_CAROL).expect("allowance read");
    let dave_balance = ledger.balance_of(ADDR_DAVE).expect("recipient balance");
    assert_eq!(allowance, 150);
    assert_eq!(dave_balance, 150);
}

#[test]
fn mint_increases_supply_and_balance() {
    let mut ledger = init_default();
    ledger.mint(ADDR_DEPLOYER, ADDR_EVE, 250).expect("mint");
    let supply = ledger.total_supply().expect("metadata");
    let eve_balance = ledger.balance_of(ADDR_EVE).expect("eve balance");
    assert_eq!(supply, 1_250);
    assert_eq!(eve_balance, 250);
}

#[test]
fn metadata_queries_return_values() {
    let ledger = init_default();
    let balance = ledger.balance_of(ADDR_DEPLOYER).expect("decode balance");
    assert_eq!(balance, 1_000);
    let decoded_balance = ledger.balance_of(ADDR_DEPLOYER).expect("decode balance");
    assert_eq!(decoded_balance, 1_000);
    assert_eq!(ledger.total_supply().expect("decode supply"), 1_000);
    assert_eq!(ledger.decimals().expect("decode decimals"), 18);
    assert_eq!(ledger.name().expect("decode name"), "Chert Token");
    assert_eq!(ledger.symbol().expect("decode symbol"), "CHT");
}

#[test]
fn fungible_scenario_end_to_end() {
    let mut ledger = FungibleLedger::new();
    ledger
        .initialize(ADDR_DEPLOYER, "Chert Token", "CHT", 18, 1_000)
        .unwrap();
    assert_eq!(ledger.balance_of(ADDR_DEPLOYER), Ok(1_000));
    assert_eq!(ledger.total_supply(), Ok(1_000));
    ledger.transfer(ADDR_DEPLOYER, ADDR_BOB, 200).unwrap();
    assert_eq!(ledger.balance_of(ADDR_DEPLOYER), Ok(800));
    assert_eq!(ledger.balance_of(ADDR_BOB), Ok(200));
    ledger.approve(ADDR_DEPLOYER, ADDR_CAROL, 300).unwrap();
    ledger
        .transfer_from(ADDR_CAROL, ADDR_DEPLOYER, ADDR_DAVE, 150)
        .unwrap();
    assert_eq!(ledger.allowance(ADDR_DEPLOYER, ADDR_CAROL), Ok(150));
    assert_eq!(ledger.balance_of(ADDR_DAVE), Ok(150));
    assert_eq!(ledger.balance_of(ADDR_DEPLOYER), Ok(650));
    ledger.mint(ADDR_DEPLOYER, ADDR_EVE, 250).unwrap();
    assert_eq!(ledger.total_supply(), Ok(1_250));
    assert_eq!(ledger.balance_of(ADDR_EVE), Ok(250));
    assert_eq!(ledger.mint(ADDR_BOB, ADDR_EVE, 10), Err(LedgerError::Unauthorized));
    assert_eq!(ledger.total_supply(), Ok(1_250));
    assert_eq!(ledger.balance_of(ADDR_EVE), Ok(250));
    assert_eq!(ledger.balance_of(ADDR_BOB), Ok(200));
}

#[test]
fn balances_sum_to_supply_after_transfers() {
    let mut ledger = init_default();
    ledger.transfer(ADDR_DEPLOYER, ADDR_BOB, 300).unwrap();
    ledger.transfer(ADDR_BOB, ADDR_CAROL, 100).unwrap();
    ledger.approve(ADDR_CAROL, ADDR_DAVE, 50).unwrap();
    ledger.transfer_from(ADDR_DAVE, ADDR_CAROL, ADDR_EVE, 50).unwrap();
    ledger.mint(ADDR_DEPLOYER, ADDR_BOB, 5).unwrap();
    let sum: u64 = [ADDR_DEPLOYER, ADDR_BOB, ADDR_CAROL, ADDR_DAVE, ADDR_EVE]
        .iter()
        .map(|a| ledger.balance_of(a).unwrap())
        .sum();
    assert_eq!(sum, ledger.total_supply().unwrap());
    assert_eq!(sum, 1_005);
}

#[test]
fn approve_overwrites_rather_than_adds() {
    let mut ledger = init_default();
    ledger.approve(ADDR_DEPLOYER, ADDR_CAROL, 300).unwrap();
    ledger.approve(ADDR_DEPLOYER, ADDR_CAROL, 40).unwrap();
    assert_eq!(ledger.allowance(ADDR_DEPLOYER, ADDR_CAROL), Ok(40));
    ledger.approve(ADDR_DEPLOYER, ADDR_CAROL, 0).unwrap();
    assert_eq!(ledger.allowance(ADDR_DEPLOYER, ADDR_CAROL), Ok(0));
}

#[test]
fn transfer_from_beyond_allowance_fails_unchanged() {
    let mut ledger = init_default();
    ledger.approve(ADDR_DEPLOYER, ADDR_CAROL, 100).unwrap();
    ledger.take_events();
    let r = ledger.transfer_from(ADDR_CAROL, ADDR_DEPLOYER, ADDR_DAVE, 101);
    assert_eq!(r, Err(LedgerError::InsufficientBalance { required: 101, available: 100 }));
    assert_eq!(ledger.allowance(ADDR_DEPLOYER, ADDR_CAROL), Ok(100));
    assert_eq!(ledger.balance_of(ADDR_DEPLOYER), Ok(1_000));
    assert_eq!(ledger.balance_of(ADDR_DAVE), Ok(0));
    assert!(ledger.take_events().is_empty());
}

#[test]
fn transfer_from_without_allowance_fails() {
    let mut ledger = init_default();
    let r = ledger.transfer_from(ADDR_CAROL, ADDR_DEPLOYER, ADDR_DAVE, 1);
    assert_eq!(r, Err(LedgerError::InsufficientBalance { required: 1, available: 0 }));
}

#[test]
fn transfer_beyond_balance_fails() {
    let mut ledger = init_default();
    let r = ledger.transfer(ADDR_DEPLOYER, ADDR_BOB, 1_001);
    assert_eq!(r, Err(LedgerError::InsufficientBalance { required: 1_001, available: 1_000 }));
    assert_eq!(ledger.balance_of(ADDR_DEPLOYER), Ok(1_000));
}

#[test]
fn self_transfer_keeps_balance() {
    let mut ledger = init_default();
    ledger.transfer(ADDR_DEPLOYER, ADDR_DEPLOYER, 400).unwrap();
    assert_eq!(ledger.balance_of(ADDR_DEPLOYER), Ok(1_000));
    assert_eq!(ledger.total_supply(), Ok(1_000));
}

#[test]
fn zero_amount_and_empty_address_are_rejected() {
    let mut ledger = init_default();
    assert_eq!(
        ledger.transfer(ADDR_DEPLOYER, ADDR_BOB, 0),
        Err(LedgerError::InvalidArgument(Field::Amount))
    );
    assert_eq!(
        ledger.transfer(ADDR_DEPLOYER, "", 5),
        Err(LedgerError::InvalidArgument(Field::Address))
    );
    assert_eq!(ledger.balance_of(""), Err(LedgerError::InvalidArgument(Field::Address)));
}

#[test]
fn operations_before_initialize_fail() {
    let mut ledger = FungibleLedger::new();
    assert_eq!(ledger.transfer(ADDR_DEPLOYER, ADDR_BOB, 1), Err(LedgerError::NotInitialized));
    assert_eq!(ledger.balance_of(ADDR_DEPLOYER), Err(LedgerError::NotInitialized));
    assert_eq!(ledger.total_supply(), Err(LedgerError::NotInitialized));
    assert_eq!(ledger.decimals(), Err(LedgerError::NotInitialized));
    assert_eq!(ledger.name(), Err(LedgerError::NotInitialized));
    assert_eq!(ledger.approve(ADDR_DEPLOYER, ADDR_BOB, 1), Err(LedgerError::NotInitialized));
}

#[test]
fn initialize_twice_fails_and_keeps_state() {
    let mut ledger = init_default();
    assert_eq!(
        ledger.initialize(ADDR_BOB, "Other", "OTH", 2, 5),
        Err(LedgerError::AlreadyInitialized)
    );
    assert_eq!(ledger.name(), Ok("Chert Token".to_string()));
    assert_eq!(ledger.balance_of(ADDR_DEPLOYER), Ok(1_000));
    assert_eq!(ledger.balance_of(ADDR_BOB), Ok(0));
}

#[test]
fn initialize_rejects_empty_fields() {
    let mut ledger = FungibleLedger::new();
    assert_eq!(
        ledger.initialize(ADDR_DEPLOYER, "", "CHT", 18, 1),
        Err(LedgerError::InvalidArgument(Field::Name))
    );
    assert_eq!(
        ledger.initialize(ADDR_DEPLOYER, "Chert Token", "", 18, 1),
        Err(LedgerError::InvalidArgument(Field::Symbol))
    );
    assert_eq!(ledger.total_supply(), Err(LedgerError::NotInitialized));
}

#[test]
fn mint_overflow_fails() {
    let mut ledger = FungibleLedger::new();
    ledger
        .initialize(ADDR_DEPLOYER, "Chert Token", "CHT", 18, u64::MAX - 1)
        .unwrap();
    assert_eq!(ledger.mint(ADDR_DEPLOYER, ADDR_BOB, 2), Err(LedgerError::Overflow));
    ledger.mint(ADDR_DEPLOYER, ADDR_BOB, 1).unwrap();
    assert_eq!(ledger.total_supply(), Ok(u64::MAX));
}

#[test]
fn events_record_each_change() {
    let mut ledger = FungibleLedger::new();
    ledger
        .initialize(ADDR_DEPLOYER, "Chert Token", "CHT", 18, 1_000)
        .unwrap();
    ledger.transfer(ADDR_DEPLOYER, ADDR_BOB, 7).unwrap();
    ledger.approve(ADDR_DEPLOYER, ADDR_CAROL, 9).unwrap();
    let events = ledger.take_events();
    assert_eq!(
        events,
        vec![
            LedgerEvent::Transfer {
                from: ZERO_ADDRESS.to_string(),
                to: ADDR_DEPLOYER.to_string(),
                amount: 1_000
            },
            LedgerEvent::Transfer {
                from: ADDR_DEPLOYER.to_string(),
                to: ADDR_BOB.to_string(),
                amount: 7
            },
            LedgerEvent::Approval {
                owner: ADDR_DEPLOYER.to_string(),
                spender: ADDR_CAROL.to_string(),
                amount: 9
            },
        ]
    );
    assert!(ledger.take_events().is_empty());
}
