use crc_tokens::error::{Field, LedgerError};
use crc_tokens::event::{LedgerEvent, ZERO_ADDRESS};
use crc_tokens::registry::Registry;

const OWNER: &str = "0xowner";
const X: &str = "0xx";
const Y: &str = "0xy";
const Z: &str = "0xz";

fn collection() -> Registry {
    let mut r = Registry::new();
    r.initialize(OWNER, "Chert Punks", "CPUNK", "ipfs://base/").unwrap();
    r.take_events();
    r
}

#[test]
fn registry_scenario_end_to_end() {
    let mut r = collection();
    r.mint(OWNER, X, 1, "a").unwrap();
    assert_eq!(r.owner_of(1), X);
    assert_eq!(r.balance_of(X), 1);
    assert_eq!(r.token_by_index(0), 1);
    r.approve(X, Y, 1).unwrap();
    r.transfer_from(Y, X, Z, 1).unwrap();
    assert_eq!(r.owner_of(1), Z);
    assert_eq!(r.balance_of(X), 0);
    assert_eq!(r.balance_of(Z), 1);
    assert_eq!(r.get_approved(1), "");
    r.burn(Z, 1).unwrap();
    assert_eq!(r.owner_of(1), "0x0");
    assert_eq!(r.balance_of(Z), 0);
    assert_eq!(r.token_uri(1), "");
}

#[test]
fn mint_same_id_twice_fails_unchanged() {
    let mut r = collection();
    r.mint(OWNER, X, 7, "seven").unwrap();
    assert_eq!(r.mint(OWNER, Y, 7, "other"), Err(LedgerError::TokenExists));
    assert_eq!(r.owner_of(7), X);
    assert_eq!(r.balance_of(Y), 0);
    assert_eq!(r.total_supply(), 1);
    assert_eq!(r.token_uri(7), "ipfs://base/seven");
}

#[test]
fn only_collection_owner_mints() {
    let mut r = collection();
    assert_eq!(r.mint(X, X, 1, "a"), Err(LedgerError::Unauthorized));
    assert_eq!(r.total_supply(), 0);
    assert_eq!(r.mint(OWNER, "", 1, "a"), Err(LedgerError::InvalidArgument(Field::Address)));
    assert_eq!(r.mint(OWNER, X, 1, ""), Err(LedgerError::InvalidArgument(Field::MetadataUri)));
}

#[test]
fn mint_before_initialize_fails() {
    let mut r = Registry::new();
    assert_eq!(r.mint(OWNER, X, 1, "a"), Err(LedgerError::NotInitialized));
}

#[test]
fn unauthorized_caller_cannot_move_or_burn() {
    let mut r = collection();
    r.mint(OWNER, X, 1, "a").unwrap();
    r.take_events();
    assert_eq!(r.transfer_from(Y, X, Z, 1), Err(LedgerError::Unauthorized));
    assert_eq!(r.burn(Y, 1), Err(LedgerError::Unauthorized));
    assert_eq!(r.owner_of(1), X);
    assert_eq!(r.balance_of(X), 1);
    assert!(r.take_events().is_empty());
}

#[test]
fn operator_may_move_and_burn() {
    let mut r = collection();
    r.mint(OWNER, X, 1, "a").unwrap();
    r.mint(OWNER, X, 2, "b").unwrap();
    r.set_approval_for_all(X, Y, true).unwrap();
    assert!(r.is_approved_for_all(X, Y));
    r.transfer_from(Y, X, Z, 1).unwrap();
    assert_eq!(r.owner_of(1), Z);
    r.burn(Y, 2).unwrap();
    assert_eq!(r.owner_of(2), ZERO_ADDRESS);
    assert_eq!(r.balance_of(X), 0);
    r.set_approval_for_all(X, Y, false).unwrap();
    assert!(!r.is_approved_for_all(X, Y));
}

#[test]
fn transfer_requires_recorded_owner() {
    let mut r = collection();
    r.mint(OWNER, X, 1, "a").unwrap();
    assert_eq!(r.transfer_from(X, Y, Z, 1), Err(LedgerError::NotTokenOwner));
    assert_eq!(r.transfer_from(X, X, Z, 9), Err(LedgerError::TokenNotFound));
    assert_eq!(r.transfer_from(X, "", Z, 1), Err(LedgerError::InvalidArgument(Field::Address)));
}

#[test]
fn burned_token_is_terminal() {
    let mut r = collection();
    r.mint(OWNER, X, 1, "a").unwrap();
    r.burn(X, 1).unwrap();
    assert_eq!(r.burn(X, 1), Err(LedgerError::TokenBurned));
    assert_eq!(r.transfer_from(ZERO_ADDRESS, ZERO_ADDRESS, Z, 1), Err(LedgerError::TokenBurned));
    assert_eq!(r.approve(ZERO_ADDRESS, Z, 1), Err(LedgerError::TokenBurned));
    assert_eq!(r.total_supply(), 1);
    assert_eq!(r.token_by_index(0), 1);
    assert_eq!(r.token_of_owner_by_index(X, 0), 0);
}

#[test]
fn approve_rules() {
    let mut r = collection();
    r.mint(OWNER, X, 1, "a").unwrap();
    assert_eq!(r.get_approved(1), "0x0");
    assert_eq!(r.approve(Y, Z, 1), Err(LedgerError::Unauthorized));
    assert_eq!(r.approve(X, X, 1), Err(LedgerError::InvalidArgument(Field::Approved)));
    assert_eq!(r.approve(X, Y, 2), Err(LedgerError::TokenNotFound));
    r.approve(X, Y, 1).unwrap();
    assert_eq!(r.get_approved(1), Y);
    r.approve(X, Z, 1).unwrap();
    assert_eq!(r.get_approved(1), Z);
}

#[test]
fn operator_rules() {
    let mut r = Registry::new();
    assert_eq!(r.set_approval_for_all(X, Y, true), Err(LedgerError::NotInitialized));
    let mut r2 = collection();
    assert_eq!(r2.set_approval_for_all(X, X, true), Err(LedgerError::InvalidArgument(Field::Operator)));
    assert_eq!(r2.set_approval_for_all(X, "", true), Err(LedgerError::InvalidArgument(Field::Operator)));
    assert!(!r2.is_approved_for_all(X, Y));
    assert!(!r2.is_approved_for_all("", Y));
    assert!(r.take_events().is_empty());
}

#[test]
fn owner_index_follows_transfers() {
    let mut r = collection();
    r.mint(OWNER, X, 10, "a").unwrap();
    r.mint(OWNER, X, 20, "b").unwrap();
    r.mint(OWNER, X, 30, "c").unwrap();
    r.transfer_from(X, X, Y, 20).unwrap();
    assert_eq!(r.token_of_owner_by_index(X, 0), 10);
    assert_eq!(r.token_of_owner_by_index(X, 1), 30);
    assert_eq!(r.token_of_owner_by_index(X, 2), 0);
    assert_eq!(r.token_of_owner_by_index(Y, 0), 20);
    assert_eq!(r.token_of_owner_by_index("", 0), 0);
    assert_eq!(r.balance_of(X), 2);
    assert_eq!(r.balance_of(Y), 1);
    assert_eq!(r.token_by_index(1), 20);
    assert_eq!(r.token_by_index(3), 0);
}

#[test]
fn self_transfer_keeps_count() {
    let mut r = collection();
    r.mint(OWNER, X, 1, "a").unwrap();
    r.transfer_from(X, X, X, 1).unwrap();
    assert_eq!(r.owner_of(1), X);
    assert_eq!(r.balance_of(X), 1);
    assert_eq!(r.token_of_owner_by_index(X, 0), 1);
}

#[test]
fn safe_transfer_behaves_like_transfer() {
    let mut r = collection();
    r.mint(OWNER, X, 1, "a").unwrap();
    r.safe_transfer_from(X, X, Y, 1, &[1, 2, 3]).unwrap();
    assert_eq!(r.owner_of(1), Y);
    assert_eq!(r.safe_transfer_from(X, X, Y, 1, &[]), Err(LedgerError::NotTokenOwner));
}

#[test]
fn queries_repeat_identically() {
    let mut r = collection();
    r.mint(OWNER, X, 1, "a").unwrap();
    assert_eq!(r.owner_of(1), r.owner_of(1));
    assert_eq!(r.balance_of(X), r.balance_of(X));
    assert_eq!(r.owner_of(99), "0x0");
    assert_eq!(r.balance_of(""), 0);
}

#[test]
fn collection_info_and_uri() {
    let mut r = Registry::new();
    assert_eq!(r.get_collection_info(), "");
    assert_eq!(r.total_supply(), 0);
    r.initialize(OWNER, "Chert Punks", "CPUNK", "ipfs://base/").unwrap();
    assert_eq!(
        r.initialize(OWNER, "Again", "AG", "x"),
        Err(LedgerError::AlreadyInitialized)
    );
    for id in 0..12u64 {
        r.mint(OWNER, X, id, "m").unwrap();
    }
    assert_eq!(r.get_collection_info(), "Chert Punks|CPUNK|ipfs://base/|12");
    assert_eq!(r.token_uri(3), "ipfs://base/m");
    assert_eq!(r.token_uri(40), "");
}

#[test]
fn collection_initialize_rejects_empty_fields() {
    let mut r = Registry::new();
    assert_eq!(r.initialize(OWNER, "", "S", "u"), Err(LedgerError::InvalidArgument(Field::Name)));
    assert_eq!(r.initialize(OWNER, "N", "", "u"), Err(LedgerError::InvalidArgument(Field::Symbol)));
    assert_eq!(r.initialize(OWNER, "N", "S", ""), Err(LedgerError::InvalidArgument(Field::BaseUri)));
    assert_eq!(r.get_collection_info(), "");
}

#[test]
fn registry_events() {
    let mut r = Registry::new();
    r.initialize(OWNER, "N", "S", "u/").unwrap();
    r.mint(OWNER, X, 5, "a").unwrap();
    r.approve(X, Y, 5).unwrap();
    r.set_approval_for_all(X, Z, true).unwrap();
    r.transfer_from(Y, X, Z, 5).unwrap();
    r.burn(Z, 5).unwrap();
    let events = r.take_events();
    assert_eq!(
        events,
        vec![
            LedgerEvent::CollectionInitialized {
                name: "N".to_string(),
                symbol: "S".to_string(),
                base_uri: "u/".to_string(),
                owner: OWNER.to_string()
            },
            LedgerEvent::TokenTransfer { from: "0x0".to_string(), to: X.to_string(), token_id: 5 },
            LedgerEvent::TokenApproval {
                owner: X.to_string(),
                approved_address: Y.to_string(),
                token_id: 5
            },
            LedgerEvent::ApprovalForAll {
                owner: X.to_string(),
                operator: Z.to_string(),
                approved: true
            },
            LedgerEvent::TokenTransfer { from: X.to_string(), to: Z.to_string(), token_id: 5 },
            LedgerEvent::TokenTransfer { from: Z.to_string(), to: "0x0".to_string(), token_id: 5 },
        ]
    );
}
