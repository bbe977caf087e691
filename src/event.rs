use vstd::prelude::*;

verus! {

/// The address that owns nothing: the source of minted value and the owner
/// of a burned token.
pub const ZERO_ADDRESS: &'static str = "0x0";

/// A notification of a committed change, for off-chain indexers.
#[derive(Debug, PartialEq, Eq)]
pub enum LedgerEvent {
    Transfer { from: String, to: String, amount: u64 },
    Approval { owner: String, spender: String, amount: u64 },
    TokenTransfer { from: String, to: String, token_id: u64 },
    TokenApproval { owner: String, approved_address: String, token_id: u64 },
    ApprovalForAll { owner: String, operator: String, approved: bool },
    CollectionInitialized { name: String, symbol: String, base_uri: String, owner: String },
}

pub open spec fn is_transfer(e: LedgerEvent, from: Seq<char>, to: Seq<char>, amount: u64) -> bool {
    e matches LedgerEvent::Transfer { from: f, to: t, amount: a } && f@ == from && t@ == to && a
        == amount
}

pub open spec fn is_approval(e: LedgerEvent, owner: Seq<char>, spender: Seq<char>, amount: u64) -> bool {
    e matches LedgerEvent::Approval { owner: o, spender: s, amount: a } && o@ == owner && s@
        == spender && a == amount
}

pub open spec fn is_token_transfer(e: LedgerEvent, from: Seq<char>, to: Seq<char>, token_id: u64) -> bool {
    e matches LedgerEvent::TokenTransfer { from: f, to: t, token_id: i } && f@ == from && t@ == to
        && i == token_id
}

pub open spec fn is_token_approval(
    e: LedgerEvent,
    owner: Seq<char>,
    approved: Seq<char>,
    token_id: u64,
) -> bool {
    e matches LedgerEvent::TokenApproval { owner: o, approved_address: a, token_id: i } && o@ == owner
        && a@ == approved && i == token_id
}

pub open spec fn is_approval_for_all(
    e: LedgerEvent,
    owner: Seq<char>,
    operator: Seq<char>,
    approved: bool,
) -> bool {
    e matches LedgerEvent::ApprovalForAll { owner: o, operator: p, approved: a } && o@ == owner
        && p@ == operator && a == approved
}

pub open spec fn is_collection_initialized(
    e: LedgerEvent,
    name: Seq<char>,
    symbol: Seq<char>,
    base_uri: Seq<char>,
    owner: Seq<char>,
) -> bool {
    e matches LedgerEvent::CollectionInitialized { name: n, symbol: s, base_uri: b, owner: o }
        && n@ == name && s@ == symbol && b@ == base_uri && o@ == owner
}

/// `after` is `before` with one more event at its end.
pub open spec fn one_more(after: Seq<LedgerEvent>, before: Seq<LedgerEvent>) -> bool {
    after.len() > 0 && after == before.push(after.last())
}

} // verus!
