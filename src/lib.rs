//! Two ledgers with verified contracts: a fungible value ledger whose balances
//! always add up to its total supply, and a registry of unique tokens with one
//! owner each, per-token approvals, operators and enumeration indexes.

pub mod arith;
pub mod error;
pub mod event;
pub mod fungible;
pub mod guard;
pub mod ids;
pub mod registry;
pub mod table;
pub mod validation;
