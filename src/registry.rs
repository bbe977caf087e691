use vstd::prelude::*;
use vstd::string::StringExecFns;
use crate::arith;
use crate::error::{Field, LedgerError};
use crate::event::{
    is_approval_for_all, is_collection_initialized, is_token_approval, is_token_transfer, one_more,
    LedgerEvent, ZERO_ADDRESS,
};
use crate::guard::ReentrancyGuard;
use crate::ids::{lemma_push_fresh, lemma_remove_value, remove_id};
use crate::table::Table;
use crate::validation::{validate_address, validate_non_empty};

verus! {


/// Metadata of the collection, set once by `initialize`.
pub struct CollectionMetadata {
    pub name: String,
    pub symbol: String,
    pub base_uri: String,
    pub total_supply: u64,
    pub owner: String,
    pub initialized: bool,
}

/// The record of one minted token. It is kept after the token is burned.
pub struct TokenInfo {
    pub token_id: u64,
    pub owner: String,
    pub metadata_uri: String,
    pub burned: bool,
}

/// A registry of unique assets: one owner per token, per-token approvals,
/// per-owner operators, and enumeration indexes.
///
/// Burned tokens stay in the global index of all tokens ever minted, and
/// leave the index of the owner who held them.
pub struct Registry {
    collection: Option<CollectionMetadata>,
    tokens: Table<u64, TokenInfo>,
    token_approvals: Table<u64, String>,
    operator_approvals: Table<(String, String), bool>,
    balances: Table<String, u64>,
    all_tokens: Vec<u64>,
    owner_tokens: Table<String, Vec<u64>>,
    guard: ReentrancyGuard,
    events: Vec<LedgerEvent>,
}

/// Decimal digits of `n`, most significant first.
pub open spec fn decimal(n: nat) -> Seq<char>
    decreases n,
{
    if n < 10 {
        seq![digit(n)]
    } else {
        decimal(n / 10).push(digit(n % 10))
    }
}

pub open spec fn digit(d: nat) -> char {
    if d == 0 {
        '0'
    } else if d == 1 {
        '1'
    } else if d == 2 {
        '2'
    } else if d == 3 {
        '3'
    } else if d == 4 {
        '4'
    } else if d == 5 {
        '5'
    } else if d == 6 {
        '6'
    } else if d == 7 {
        '7'
    } else if d == 8 {
        '8'
    } else {
        '9'
    }
}

/// Relies on `ToString` for `u64` (its `Display` impl): the decimal digits of
/// the number, without sign or padding.
#[verifier::external_body]
fn decimal_string(n: u64) -> (r: String)
    ensures
        r@ == decimal(n as nat),
{
    n.to_string()
}

impl Registry {
    pub closed spec fn meta(&self) -> Option<CollectionMetadata> {
        self.collection
    }

    /// Every token ever minted, by id.
    pub closed spec fn tokens(&self) -> Map<u64, TokenInfo> {
        self.tokens@
    }

    /// The per-token approvals on record; an empty address means none.
    pub closed spec fn approvals(&self) -> Map<u64, Seq<char>> {
        self.token_approvals@.map_values(|s: String| s@)
    }

    /// The operator flags on record, keyed by (owner, operator).
    pub closed spec fn operators(&self) -> Map<(Seq<char>, Seq<char>), bool> {
        self.operator_approvals@
    }

    /// The token counts on record, by owner.
    pub closed spec fn counts(&self) -> Map<Seq<char>, u64> {
        self.balances@
    }

    /// Every token id ever minted, in the order of minting.
    pub closed spec fn all_tokens(&self) -> Seq<u64> {
        self.all_tokens@
    }

    /// The tokens that `a` holds, in the order in which they came to it.
    pub closed spec fn owner_index(&self, a: Seq<char>) -> Seq<u64> {
        if self.owner_tokens@.contains_key(a) {
            self.owner_tokens@[a]@
        } else {
            Seq::empty()
        }
    }

    /// The events emitted and not yet taken, oldest first.
    pub closed spec fn events(&self) -> Seq<LedgerEvent> {
        self.events@
    }

    pub closed spec fn guard_held(&self) -> bool {
        self.guard.is_held()
    }

    pub open spec fn is_initialized(&self) -> bool {
        self.meta() is Some
    }

    pub open spec fn supply(&self) -> u64 {
        match self.meta() {
            Some(m) => m.total_supply,
            None => 0,
        }
    }

    pub open spec fn collection_owner(&self) -> Seq<char> {
        match self.meta() {
            Some(m) => m.owner@,
            None => Seq::empty(),
        }
    }

    /// The number of tokens that `a` holds.
    pub open spec fn spec_balance(&self, a: Seq<char>) -> u64 {
        if self.counts().contains_key(a) {
            self.counts()[a]
        } else {
            0
        }
    }

    pub open spec fn is_active(&self, id: u64) -> bool {
        self.tokens().contains_key(id) && !self.tokens()[id].burned
    }

    /// `a` holds the live token `id`.
    pub open spec fn owns(&self, a: Seq<char>, id: u64) -> bool {
        self.is_active(id) && self.tokens()[id].owner@ == a
    }

    pub open spec fn is_operator(&self, owner: Seq<char>, operator: Seq<char>) -> bool {
        self.operators().contains_key((owner, operator)) && self.operators()[(owner, operator)]
    }

    /// `caller` may move or burn the token `id`: it is the owner, the address
    /// approved for the token, or an operator of the owner.
    pub open spec fn is_authorized(&self, id: u64, caller: Seq<char>) -> bool {
        let owner = self.tokens()[id].owner@;
        caller == owner || (self.approvals().contains_key(id) && self.approvals()[id] == caller)
            || self.is_operator(owner, caller)
    }

    pub open spec fn spec_owner_of(&self, id: u64) -> Seq<char> {
        if self.is_active(id) {
            self.tokens()[id].owner@
        } else {
            ZERO_ADDRESS@
        }
    }

    pub open spec fn spec_approved(&self, id: u64) -> Seq<char> {
        if self.approvals().contains_key(id) {
            self.approvals()[id]
        } else {
            ZERO_ADDRESS@
        }
    }

    pub open spec fn spec_token_uri(&self, id: u64) -> Seq<char> {
        match self.meta() {
            Some(m) => if self.is_active(id) {
                m.base_uri@ + self.tokens()[id].metadata_uri@
            } else {
                Seq::empty()
            },
            None => Seq::empty(),
        }
    }

    pub closed spec fn wf(&self) -> bool {
        &&& self.tokens.wf()
        &&& self.token_approvals.wf()
        &&& self.operator_approvals.wf()
        &&& self.balances.wf()
        &&& self.owner_tokens.wf()
        &&& forall|id: u64| #[trigger]
            self.tokens@.contains_key(id) ==> self.tokens@[id].token_id == id
                && (self.tokens@[id].burned ==> self.tokens@[id].owner@ == ZERO_ADDRESS@)
        &&& forall|a: Seq<char>, id: u64|
            #![trigger self.owner_index(a).contains(id)]
            #![trigger self.owns(a, id)]
            self.owner_index(a).contains(id) <==> self.owns(a, id)
        &&& forall|a: Seq<char>| #[trigger] self.owner_index(a).no_duplicates()
        &&& forall|a: Seq<char>| #[trigger] self.spec_balance(a) == self.owner_index(a).len()
        &&& self.all_tokens@.no_duplicates()
        &&& forall|id: u64| #[trigger]
            self.all_tokens@.contains(id) <==> self.tokens@.contains_key(id)
        &&& match self.collection {
            Some(m) => m.total_supply == self.all_tokens@.len(),
            None => self.tokens@ == Map::<u64, TokenInfo>::empty(),
        }
    }

    /// Well-formedness does not depend on the guard or on the approvals.
    proof fn lemma_wf_without_guard(pre: &Registry, post: &Registry)
        requires
            pre.wf(),
            post.token_approvals.wf(),
            post.operator_approvals.wf(),
            post.collection == pre.collection,
            post.tokens == pre.tokens,
            post.balances == pre.balances,
            post.all_tokens == pre.all_tokens,
            post.owner_tokens == pre.owner_tokens,
        ensures
            post.wf(),
    {
        assert forall|a: Seq<char>, id: u64|
            #![trigger post.owner_index(a).contains(id)]
            #![trigger post.owns(a, id)]
            post.owner_index(a).contains(id) <==> post.owns(a, id) by {
            assert(pre.owner_index(a).contains(id) <==> pre.owns(a, id));
        }
        assert forall|a: Seq<char>| #[trigger] post.owner_index(a).no_duplicates() by {
            assert(pre.owner_index(a).no_duplicates());
        }
        assert forall|a: Seq<char>| #[trigger]
            post.spec_balance(a) == post.owner_index(a).len() by {
            assert(pre.spec_balance(a) == pre.owner_index(a).len());
        }
    }

    /// Everything but the tokens, counts and indexes is as in `other`.
    pub open spec fn same_settings(&self, other: &Registry) -> bool {
        &&& self.meta() == other.meta()
        &&& self.operators() == other.operators()
        &&& self.all_tokens() == other.all_tokens()
        &&& self.guard_held() == other.guard_held()
    }

    /// An empty, uninitialized registry.
    pub fn new() -> (r: Self)
        ensures
            r.wf(),
            !r.is_initialized(),
            !r.guard_held(),
            r.tokens() == Map::<u64, TokenInfo>::empty(),
            r.approvals() == Map::<u64, Seq<char>>::empty(),
            r.operators() == Map::<(Seq<char>, Seq<char>), bool>::empty(),
            r.counts() == Map::<Seq<char>, u64>::empty(),
            r.all_tokens() == Seq::<u64>::empty(),
            forall|a: Seq<char>| #[trigger] r.owner_index(a) == Seq::<u64>::empty(),
            r.events() == Seq::<LedgerEvent>::empty(),
    {
        let r = Registry {
            collection: None,
            tokens: Table::new(),
            token_approvals: Table::new(),
            operator_approvals: Table::new(),
            balances: Table::new(),
            all_tokens: Vec::new(),
            owner_tokens: Table::new(),
            guard: ReentrancyGuard::new(),
            events: Vec::new(),
        };
        assert(r.approvals() =~= Map::<u64, Seq<char>>::empty());
        r
    }

    pub open spec fn initialize_error(
        &self,
        caller: Seq<char>,
        name: Seq<char>,
        symbol: Seq<char>,
        base_uri: Seq<char>,
    ) -> Option<LedgerError> {
        if name.len() == 0 {
            Some(LedgerError::InvalidArgument(Field::Name))
        } else if symbol.len() == 0 {
            Some(LedgerError::InvalidArgument(Field::Symbol))
        } else if base_uri.len() == 0 {
            Some(LedgerError::InvalidArgument(Field::BaseUri))
        } else if self.is_initialized() {
            Some(LedgerError::AlreadyInitialized)
        } else if caller.len() == 0 {
            Some(LedgerError::InvalidArgument(Field::Address))
        } else {
            None
        }
    }

    /// Sets up the collection, owned by the caller, with no token yet.
    pub fn initialize(&mut self, caller: &str, name: &str, symbol: &str, base_uri: &str) -> (r:
        Result<(), LedgerError>)
        requires
            old(self).wf(),
        ensures
            final(self).wf(),
            r == match old(self).initialize_error(caller@, name@, symbol@, base_uri@) {
                Some(e) => Err(e),
                None => Ok(()),
            },
            r is Err ==> *final(self) == *old(self),
            r is Ok ==> {
                &&& final(self).meta() matches Some(m) && m.name@ == name@ && m.symbol@ == symbol@
                    && m.base_uri@ == base_uri@ && m.total_supply == 0 && m.owner@ == caller@
                    && m.initialized
                &&& final(self).tokens() == old(self).tokens()
                &&& final(self).approvals() == old(self).approvals()
                &&& final(self).operators() == old(self).operators()
                &&& one_more(final(self).events(), old(self).events())
                &&& is_collection_initialized(final(self).events().last(), name@, symbol@, base_uri@, caller@)
                &&& final(self).counts() == old(self).counts()
                &&& final(self).all_tokens() == old(self).all_tokens()
                &&& forall|a: Seq<char>| #[trigger]
                    final(self).owner_index(a) == old(self).owner_index(a)
            },
    {
        validate_non_empty(name, Field::Name)?;
        validate_non_empty(symbol, Field::Symbol)?;
        validate_non_empty(base_uri, Field::BaseUri)?;
        if self.collection.is_some() {
            return Err(LedgerError::AlreadyInitialized);
        }
        validate_address(caller)?;
        proof {
            if self.all_tokens@.len() > 0 {
                assert(self.all_tokens@.contains(self.all_tokens@[0]));
                assert(self.tokens@.contains_key(self.all_tokens@[0]));
            }
            assert(self.all_tokens@.len() == 0);
        }
        self.collection = Some(
            CollectionMetadata {
                name: name.to_owned(),
                symbol: symbol.to_owned(),
                base_uri: base_uri.to_owned(),
                total_supply: 0,
                owner: caller.to_owned(),
                initialized: true,
            },
        );
        self.events.push(
            LedgerEvent::CollectionInitialized {
                name: name.to_owned(),
                symbol: symbol.to_owned(),
                base_uri: base_uri.to_owned(),
                owner: caller.to_owned(),
            },
        );
        proof {
            let pre = old(self);
            assert forall|a: Seq<char>, id: u64|
                #![trigger self.owner_index(a).contains(id)]
                #![trigger self.owns(a, id)]
                self.owner_index(a).contains(id) <==> self.owns(a, id) by {
                assert(pre.owner_index(a).contains(id) <==> pre.owns(a, id));
            }
            assert forall|a: Seq<char>| #[trigger] self.owner_index(a).no_duplicates() by {
                assert(pre.owner_index(a).no_duplicates());
            }
            assert forall|a: Seq<char>| #[trigger]
                self.spec_balance(a) == self.owner_index(a).len() by {
                assert(pre.spec_balance(a) == pre.owner_index(a).len());
            }
        }
        Ok(())
    }

    pub open spec fn mint_error(
        &self,
        caller: Seq<char>,
        to: Seq<char>,
        token_id: u64,
        metadata_uri: Seq<char>,
    ) -> Option<LedgerError> {
        if self.guard_held() {
            Some(LedgerError::Reentrant)
        } else {
            self.mint_check(caller, to, token_id, metadata_uri)
        }
    }

    /// Why `mint` fails once the guard is taken, if it does.
    pub open spec fn mint_check(
        &self,
        caller: Seq<char>,
        to: Seq<char>,
        token_id: u64,
        metadata_uri: Seq<char>,
    ) -> Option<LedgerError> {
        if !self.is_initialized() {
            Some(LedgerError::NotInitialized)
        } else if caller != self.collection_owner() {
            Some(LedgerError::Unauthorized)
        } else if to.len() == 0 {
            Some(LedgerError::InvalidArgument(Field::Address))
        } else if metadata_uri.len() == 0 {
            Some(LedgerError::InvalidArgument(Field::MetadataUri))
        } else if self.tokens().contains_key(token_id) {
            Some(LedgerError::TokenExists)
        } else if self.spec_balance(to) == u64::MAX || self.supply() == u64::MAX {
            Some(LedgerError::Overflow)
        } else {
            None
        }
    }

    /// Adds `id` to the index of `to`, which must not hold it yet.
    fn append_to_index(&mut self, to: &String, id: u64)
        requires
            old(self).owner_tokens.wf(),
        ensures
            final(self).owner_tokens.wf(),
            final(self).owner_tokens@ == old(self).owner_tokens@.insert(
                to@,
                final(self).owner_tokens@[to@],
            ),
            final(self).owner_index(to@) == old(self).owner_index(to@).push(id),
            final(self).collection == old(self).collection,
            final(self).tokens == old(self).tokens,
            final(self).token_approvals == old(self).token_approvals,
            final(self).operator_approvals == old(self).operator_approvals,
            final(self).balances == old(self).balances,
            final(self).all_tokens == old(self).all_tokens,
            final(self).guard == old(self).guard,
            final(self).events == old(self).events,
    {
        let mut list = match self.owner_tokens.take(to) {
            Some(v) => v,
            None => Vec::new(),
        };
        list.push(id);
        self.owner_tokens.set(to.clone(), list);
    }

    /// Takes `id` out of the index of `from`.
    fn remove_from_index(&mut self, from: &String, id: u64)
        requires
            old(self).owner_tokens.wf(),
        ensures
            final(self).owner_tokens.wf(),
            final(self).owner_tokens@ == old(self).owner_tokens@.insert(
                from@,
                final(self).owner_tokens@[from@],
            ),
            final(self).owner_index(from@) == old(self).owner_index(from@).remove_value(id),
            final(self).collection == old(self).collection,
            final(self).tokens == old(self).tokens,
            final(self).token_approvals == old(self).token_approvals,
            final(self).operator_approvals == old(self).operator_approvals,
            final(self).balances == old(self).balances,
            final(self).all_tokens == old(self).all_tokens,
            final(self).guard == old(self).guard,
            final(self).events == old(self).events,
    {
        let mut list = match self.owner_tokens.take(from) {
            Some(v) => v,
            None => Vec::new(),
        };
        remove_id(&mut list, id);
        self.owner_tokens.set(from.clone(), list);
        proof {
            if !old(self).owner_tokens@.contains_key(from@) {
                assert(Seq::<u64>::empty().remove_value(id) == Seq::<u64>::empty()) by {
                    Seq::<u64>::empty().index_of_first_ensures(id);
                }
            }
        }
    }

    /// Creates the token `token_id` for `to`. Only the collection owner may
    /// mint, and an id is minted at most once.
    pub fn mint(&mut self, caller: &str, to: &str, token_id: u64, metadata_uri: &str) -> (r: Result<
        (),
        LedgerError,
    >)
        requires
            old(self).wf(),
        ensures
            final(self).wf(),
            r == match old(self).mint_error(caller@, to@, token_id, metadata_uri@) {
                Some(e) => Err(e),
                None => Ok(()),
            },
            r is Err ==> *final(self) == *old(self),
            r is Ok ==> {
                &&& final(self).tokens().contains_key(token_id)
                &&& final(self).tokens()[token_id].token_id == token_id
                &&& final(self).tokens()[token_id].owner@ == to@
                &&& final(self).tokens()[token_id].metadata_uri@ == metadata_uri@
                &&& !final(self).tokens()[token_id].burned
                &&& final(self).tokens().remove(token_id) == old(self).tokens()
                &&& final(self).counts() == old(self).counts().insert(
                    to@,
                    (old(self).spec_balance(to@) + 1) as u64,
                )
                &&& final(self).all_tokens() == old(self).all_tokens().push(token_id)
                &&& forall|a: Seq<char>| #[trigger]
                    final(self).owner_index(a) == if a == to@ {
                        old(self).owner_index(a).push(token_id)
                    } else {
                        old(self).owner_index(a)
                    }
                &&& final(self).supply() == old(self).supply() + 1
                &&& final(self).approvals() == old(self).approvals()
                &&& final(self).operators() == old(self).operators()
                &&& one_more(final(self).events(), old(self).events())
                &&& is_token_transfer(final(self).events().last(), ZERO_ADDRESS@, to@, token_id)
                &&& !final(self).guard_held()
            },
    {
        self.guard.enter()?;
        proof {
            Registry::lemma_wf_without_guard(old(self), self);
        }
        let r = self.mint_unguarded(caller, to, token_id, metadata_uri);
        let ghost inner = *self;
        self.guard.exit();
        proof {
            Registry::lemma_wf_without_guard(&inner, self);
            ReentrancyGuard::lemma_same_state(&self.guard, &old(self).guard);
            assert forall|a: Seq<char>| #[trigger] self.owner_index(a) == inner.owner_index(a) by {}
        }
        r
    }

    fn mint_unguarded(&mut self, caller: &str, to: &str, token_id: u64, metadata_uri: &str) -> (r:
        Result<(), LedgerError>)
        requires
            old(self).wf(),
        ensures
            final(self).wf(),
            final(self).guard == old(self).guard,
            r == match old(self).mint_check(caller@, to@, token_id, metadata_uri@) {
                Some(e) => Err(e),
                None => Ok(()),
            },
            r is Err ==> *final(self) == *old(self),
            r is Ok ==> {
                &&& final(self).tokens().contains_key(token_id)
                &&& final(self).tokens()[token_id].token_id == token_id
                &&& final(self).tokens()[token_id].owner@ == to@
                &&& final(self).tokens()[token_id].metadata_uri@ == metadata_uri@
                &&& !final(self).tokens()[token_id].burned
                &&& final(self).tokens().remove(token_id) == old(self).tokens()
                &&& final(self).counts() == old(self).counts().insert(
                    to@,
                    (old(self).spec_balance(to@) + 1) as u64,
                )
                &&& final(self).all_tokens() == old(self).all_tokens().push(token_id)
                &&& forall|a: Seq<char>| #[trigger]
                    final(self).owner_index(a) == if a == to@ {
                        old(self).owner_index(a).push(token_id)
                    } else {
                        old(self).owner_index(a)
                    }
                &&& final(self).supply() == old(self).supply() + 1
                &&& final(self).approvals() == old(self).approvals()
                &&& final(self).operators() == old(self).operators()
                &&& one_more(final(self).events(), old(self).events())
                &&& is_token_transfer(final(self).events().last(), ZERO_ADDRESS@, to@, token_id)
            },
    {
        let caller_key = caller.to_owned();
        let supply = match &self.collection {
            Some(m) => {
                if !(caller_key == m.owner) {
                    return Err(LedgerError::Unauthorized);
                }
                m.total_supply
            },
            None => {
                return Err(LedgerError::NotInitialized);
            },
        };
        validate_address(to)?;
        validate_non_empty(metadata_uri, Field::MetadataUri)?;
        if self.tokens.get(&token_id).is_some() {
            return Err(LedgerError::TokenExists);
        }
        let count = self.read_count(to);
        let new_count = arith::add(count, 1)?;
        let new_supply = arith::add(supply, 1)?;
        let to_key = to.to_owned();
        let ghost pre = *self;
        proof {
            assert(!self.all_tokens@.contains(token_id));
            assert(!pre.owner_index(to@).contains(token_id));
            lemma_push_fresh(pre.owner_index(to@), token_id);
            lemma_push_fresh(pre.all_tokens@, token_id);
        }
        self.tokens.set(
            token_id,
            TokenInfo {
                token_id,
                owner: to_key.clone(),
                metadata_uri: metadata_uri.to_owned(),
                burned: false,
            },
        );
        self.balances.set(to_key.clone(), new_count);
        self.all_tokens.push(token_id);
        self.append_to_index(&to_key, token_id);
        match &mut self.collection {
            Some(m) => {
                m.total_supply = new_supply;
            },
            None => {},
        }
        self.events.push(
            LedgerEvent::TokenTransfer { from: ZERO_ADDRESS.to_owned(), to: to_key, token_id },
        );
        proof {
            assert(self.tokens().remove(token_id) =~= pre.tokens());
            assert forall|a: Seq<char>| #[trigger]
                self.owner_index(a) == if a == to@ {
                    pre.owner_index(a).push(token_id)
                } else {
                    pre.owner_index(a)
                } by {
                if a != to@ {
                    assert(self.owner_tokens@.contains_key(a) == pre.owner_tokens@.contains_key(a));
                }
            }
            assert forall|a: Seq<char>, id: u64|
                #![trigger self.owner_index(a).contains(id)]
                #![trigger self.owns(a, id)]
                self.owner_index(a).contains(id) <==> self.owns(a, id) by {
                assert(pre.owner_index(a).contains(id) <==> pre.owns(a, id));
                assert(pre.owner_index(to@).push(token_id).contains(id) <==> (pre.owner_index(to@).contains(id) || id == token_id));
            }
            assert forall|a: Seq<char>| #[trigger] self.owner_index(a).no_duplicates() by {
                assert(pre.owner_index(a).no_duplicates());
            }
            assert forall|a: Seq<char>| #[trigger]
                self.spec_balance(a) == self.owner_index(a).len() by {
                assert(pre.spec_balance(a) == pre.owner_index(a).len());
            }
            assert forall|id: u64| #[trigger]
                self.all_tokens@.contains(id) <==> self.tokens@.contains_key(id) by {
                assert(pre.all_tokens@.contains(id) <==> pre.tokens@.contains_key(id));
            }
        }
        Ok(())
    }

    /// Whether `caller` holds a token approval for `token_id`, or is an
    /// operator of `owner`.
    fn is_approved_for_token(&self, token_id: u64, owner: &String, caller: &String) -> (r: bool)
        requires
            self.wf(),
        ensures
            r == ((self.approvals().contains_key(token_id) && self.approvals()[token_id]
                == caller@) || self.is_operator(owner@, caller@)),
    {
        let operator = match self.operator_approvals.get(&(owner.clone(), caller.clone())) {
            Some(b) => *b,
            None => false,
        };
        if operator {
            return true;
        }
        match self.token_approvals.get(&token_id) {
            Some(a) => *a == *caller,
            None => false,
        }
    }

    /// The index of `a` after `id` moves from `from` to `to`.
    pub open spec fn index_after_move(
        &self,
        from: Seq<char>,
        to: Seq<char>,
        id: u64,
        a: Seq<char>,
    ) -> Seq<u64> {
        let removed = if a == from {
            self.owner_index(a).remove_value(id)
        } else {
            self.owner_index(a)
        };
        if a == to {
            removed.push(id)
        } else {
            removed
        }
    }

    /// The counts after one token moves from `from` to `to`.
    pub open spec fn counts_after_move(&self, from: Seq<char>, to: Seq<char>) -> Map<
        Seq<char>,
        u64,
    > {
        if from == to {
            self.counts()
        } else {
            self.counts().insert(from, (self.spec_balance(from) - 1) as u64).insert(
                to,
                (self.spec_balance(to) + 1) as u64,
            )
        }
    }

    pub open spec fn transfer_error(
        &self,
        caller: Seq<char>,
        from: Seq<char>,
        to: Seq<char>,
        token_id: u64,
    ) -> Option<LedgerError> {
        if self.guard_held() {
            Some(LedgerError::Reentrant)
        } else {
            self.transfer_check(caller, from, to, token_id)
        }
    }

    /// Why `transfer_from` fails once the guard is taken, if it does.
    pub open spec fn transfer_check(
        &self,
        caller: Seq<char>,
        from: Seq<char>,
        to: Seq<char>,
        token_id: u64,
    ) -> Option<LedgerError> {
        if from.len() == 0 || to.len() == 0 || caller.len() == 0 {
            Some(LedgerError::InvalidArgument(Field::Address))
        } else if !self.tokens().contains_key(token_id) {
            Some(LedgerError::TokenNotFound)
        } else if self.tokens()[token_id].burned {
            Some(LedgerError::TokenBurned)
        } else if self.tokens()[token_id].owner@ != from {
            Some(LedgerError::NotTokenOwner)
        } else if !self.is_authorized(token_id, caller) {
            Some(LedgerError::Unauthorized)
        } else if from != to && self.spec_balance(to) == u64::MAX {
            Some(LedgerError::Overflow)
        } else {
            None
        }
    }

    /// Moves the token `token_id` from its owner `from` to `to`, on behalf of
    /// the owner, the address approved for the token, or an operator of the
    /// owner. The token approval is cleared.
    pub fn transfer_from(&mut self, caller: &str, from: &str, to: &str, token_id: u64) -> (r:
        Result<(), LedgerError>)
        requires
            old(self).wf(),
        ensures
            final(self).wf(),
            r == match old(self).transfer_error(caller@, from@, to@, token_id) {
                Some(e) => Err(e),
                None => Ok(()),
            },
            r is Err ==> *final(self) == *old(self),
            r is Ok ==> {
                &&& final(self).tokens().contains_key(token_id)
                &&& final(self).tokens()[token_id].token_id == token_id
                &&& final(self).tokens()[token_id].owner@ == to@
                &&& final(self).tokens()[token_id].metadata_uri@ == old(
                    self,
                ).tokens()[token_id].metadata_uri@
                &&& !final(self).tokens()[token_id].burned
                &&& final(self).tokens().remove(token_id) == old(self).tokens().remove(token_id)
                &&& final(self).counts() == old(self).counts_after_move(from@, to@)
                &&& final(self).approvals() == old(self).approvals().insert(token_id, Seq::empty())
                &&& forall|a: Seq<char>| #[trigger]
                    final(self).owner_index(a) == old(self).index_after_move(from@, to@, token_id, a)
                &&& final(self).same_settings(old(self))
                &&& one_more(final(self).events(), old(self).events())
                &&& is_token_transfer(final(self).events().last(), from@, to@, token_id)
            },
    {
        self.guard.enter()?;
        proof {
            Registry::lemma_wf_without_guard(old(self), self);
        }
        let r = self.transfer_unguarded(caller, from, to, token_id);
        let ghost inner = *self;
        self.guard.exit();
        proof {
            Registry::lemma_wf_without_guard(&inner, self);
            ReentrancyGuard::lemma_same_state(&self.guard, &old(self).guard);
            assert forall|a: Seq<char>| #[trigger] self.owner_index(a) == inner.owner_index(a) by {}
        }
        r
    }

    /// Same as `transfer_from`; `data` is accepted and not interpreted.
    pub fn safe_transfer_from(
        &mut self,
        caller: &str,
        from: &str,
        to: &str,
        token_id: u64,
        data: &[u8],
    ) -> (r: Result<(), LedgerError>)
        requires
            old(self).wf(),
        ensures
            final(self).wf(),
            r == match old(self).transfer_error(caller@, from@, to@, token_id) {
                Some(e) => Err(e),
                None => Ok(()),
            },
            r is Err ==> *final(self) == *old(self),
            r is Ok ==> {
                &&& final(self).tokens().contains_key(token_id)
                &&& final(self).tokens()[token_id].token_id == token_id
                &&& final(self).tokens()[token_id].owner@ == to@
                &&& final(self).tokens()[token_id].metadata_uri@ == old(
                    self,
                ).tokens()[token_id].metadata_uri@
                &&& !final(self).tokens()[token_id].burned
                &&& final(self).tokens().remove(token_id) == old(self).tokens().remove(token_id)
                &&& final(self).counts() == old(self).counts_after_move(from@, to@)
                &&& final(self).approvals() == old(self).approvals().insert(token_id, Seq::empty())
                &&& forall|a: Seq<char>| #[trigger]
                    final(self).owner_index(a) == old(self).index_after_move(from@, to@, token_id, a)
                &&& final(self).same_settings(old(self))
                &&& one_more(final(self).events(), old(self).events())
                &&& is_token_transfer(final(self).events().last(), from@, to@, token_id)
            },
    {
        self.transfer_from(caller, from, to, token_id)
    }

    fn transfer_unguarded(&mut self, caller: &str, from: &str, to: &str, token_id: u64) -> (r:
        Result<(), LedgerError>)
        requires
            old(self).wf(),
        ensures
            final(self).wf(),
            final(self).guard == old(self).guard,
            r == match old(self).transfer_check(caller@, from@, to@, token_id) {
                Some(e) => Err(e),
                None => Ok(()),
            },
            r is Err ==> *final(self) == *old(self),
            r is Ok ==> {
                &&& final(self).tokens().contains_key(token_id)
                &&& final(self).tokens()[token_id].token_id == token_id
                &&& final(self).tokens()[token_id].owner@ == to@
                &&& final(self).tokens()[token_id].metadata_uri@ == old(
                    self,
                ).tokens()[token_id].metadata_uri@
                &&& !final(self).tokens()[token_id].burned
                &&& final(self).tokens().remove(token_id) == old(self).tokens().remove(token_id)
                &&& final(self).counts() == old(self).counts_after_move(from@, to@)
                &&& final(self).approvals() == old(self).approvals().insert(token_id, Seq::empty())
                &&& forall|a: Seq<char>| #[trigger]
                    final(self).owner_index(a) == old(self).index_after_move(from@, to@, token_id, a)
                &&& final(self).same_settings(old(self))
                &&& one_more(final(self).events(), old(self).events())
                &&& is_token_transfer(final(self).events().last(), from@, to@, token_id)
            },
    {
        validate_address(from)?;
        validate_address(to)?;
        validate_address(caller)?;
        let (uri, authorized) = match self.tokens.get(&token_id) {
            Some(info) => {
                if info.burned {
                    return Err(LedgerError::TokenBurned);
                }
                if !(info.owner == from.to_owned()) {
                    return Err(LedgerError::NotTokenOwner);
                }
                let caller_key = caller.to_owned();
                let authorized = info.owner == caller_key || self.is_approved_for_token(
                    token_id,
                    &info.owner,
                    &caller_key,
                );
                (info.metadata_uri.clone(), authorized)
            },
            None => {
                return Err(LedgerError::TokenNotFound);
            },
        };
        if !authorized {
            return Err(LedgerError::Unauthorized);
        }
        let from_key = from.to_owned();
        let to_key = to.to_owned();
        let from_count = self.read_count(from);
        proof {
            assert(self.owns(from@, token_id));
            assert(self.owner_index(from@).contains(token_id));
        }
        let new_from_count = arith::sub(from_count, 1)?;
        let same = from_key == to_key;
        let to_count = self.read_count(to);
        let new_to_count = if same {
            to_count
        } else {
            arith::add(to_count, 1)?
        };
        let ghost pre = *self;
        proof {
            lemma_remove_value(pre.owner_index(from@), token_id);
            let removed = if to@ == from@ {
                pre.owner_index(from@).remove_value(token_id)
            } else {
                pre.owner_index(to@)
            };
            if to@ != from@ {
                assert(!pre.owns(to@, token_id));
            }
            assert(!removed.contains(token_id));
            lemma_push_fresh(removed, token_id);
        }
        self.tokens.set(
            token_id,
            TokenInfo { token_id, owner: to_key.clone(), metadata_uri: uri, burned: false },
        );
        if !same {
            self.balances.set(from_key.clone(), new_from_count);
            self.balances.set(to_key.clone(), new_to_count);
        }
        self.token_approvals.set(token_id, String::new());
        self.remove_from_index(&from_key, token_id);
        self.append_to_index(&to_key, token_id);
        self.events.push(
            LedgerEvent::TokenTransfer { from: from_key, to: to_key, token_id },
        );
        proof {
            assert(self.tokens().remove(token_id) =~= pre.tokens().remove(token_id));
            assert(self.approvals() =~= pre.approvals().insert(token_id, Seq::empty()));
            if same {
                assert(self.counts() =~= pre.counts());
            } else {
                assert(self.counts() =~= pre.counts_after_move(from@, to@));
            }
            assert forall|a: Seq<char>| #[trigger]
                self.owner_index(a) == pre.index_after_move(from@, to@, token_id, a) by {
                if a != to@ && a != from@ {
                    assert(self.owner_tokens@.contains_key(a) == pre.owner_tokens@.contains_key(a));
                }
            }
            assert forall|a: Seq<char>, id: u64|
                #![trigger self.owner_index(a).contains(id)]
                #![trigger self.owns(a, id)]
                self.owner_index(a).contains(id) <==> self.owns(a, id) by {
                assert(pre.owner_index(a).contains(id) <==> pre.owns(a, id));
                let removed = if a == from@ {
                    pre.owner_index(a).remove_value(token_id)
                } else {
                    pre.owner_index(a)
                };
                if a == to@ {
                    lemma_remove_value(pre.owner_index(a), token_id);
                    assert(!removed.contains(token_id));
                    lemma_push_fresh(removed, token_id);
                }
            }
            assert forall|a: Seq<char>| #[trigger] self.owner_index(a).no_duplicates() by {
                assert(pre.owner_index(a).no_duplicates());
                lemma_remove_value(pre.owner_index(a), token_id);
                let removed = if a == from@ {
                    pre.owner_index(a).remove_value(token_id)
                } else {
                    pre.owner_index(a)
                };
                if a == to@ {
                    assert(!removed.contains(token_id));
                    lemma_push_fresh(removed, token_id);
                }
            }
            assert forall|a: Seq<char>| #[trigger]
                self.spec_balance(a) == self.owner_index(a).len() by {
                assert(pre.spec_balance(a) == pre.owner_index(a).len());
                lemma_remove_value(pre.owner_index(a), token_id);
            }
            assert forall|id: u64| #[trigger]
                self.all_tokens@.contains(id) <==> self.tokens@.contains_key(id) by {
                assert(pre.all_tokens@.contains(id) <==> pre.tokens@.contains_key(id));
            }
        }
        Ok(())
    }

    pub open spec fn burn_error(&self, caller: Seq<char>, token_id: u64) -> Option<LedgerError> {
        if self.guard_held() {
            Some(LedgerError::Reentrant)
        } else {
            self.burn_check(caller, token_id)
        }
    }

    /// Why `burn` fails once the guard is taken, if it does.
    pub open spec fn burn_check(&self, caller: Seq<char>, token_id: u64) -> Option<LedgerError> {
        if caller.len() == 0 {
            Some(LedgerError::InvalidArgument(Field::Address))
        } else if !self.tokens().contains_key(token_id) {
            Some(LedgerError::TokenNotFound)
        } else if self.tokens()[token_id].burned {
            Some(LedgerError::TokenBurned)
        } else if !self.is_authorized(token_id, caller) {
            Some(LedgerError::Unauthorized)
        } else {
            None
        }
    }

    /// Burns the token `token_id`, on behalf of its owner, the address
    /// approved for it, or an operator of the owner. The record stays, marked
    /// burned and owned by the zero address; the prior owner's count and index
    /// lose the token; the token approval is cleared. The total supply and
    /// the global index are left as they are.
    pub fn burn(&mut self, caller: &str, token_id: u64) -> (r: Result<(), LedgerError>)
        requires
            old(self).wf(),
        ensures
            final(self).wf(),
            r == match old(self).burn_error(caller@, token_id) {
                Some(e) => Err(e),
                None => Ok(()),
            },
            r is Err ==> *final(self) == *old(self),
            r is Ok ==> {
                let prior = old(self).tokens()[token_id].owner@;
                &&& final(self).tokens().contains_key(token_id)
                &&& final(self).tokens()[token_id].token_id == token_id
                &&& final(self).tokens()[token_id].owner@ == ZERO_ADDRESS@
                &&& final(self).tokens()[token_id].metadata_uri@ == old(
                    self,
                ).tokens()[token_id].metadata_uri@
                &&& final(self).tokens()[token_id].burned
                &&& final(self).tokens().remove(token_id) == old(self).tokens().remove(token_id)
                &&& final(self).counts() == old(self).counts().insert(
                    prior,
                    (old(self).spec_balance(prior) - 1) as u64,
                )
                &&& final(self).approvals() == old(self).approvals().insert(token_id, Seq::empty())
                &&& forall|a: Seq<char>| #[trigger]
                    final(self).owner_index(a) == if a == prior {
                        old(self).owner_index(a).remove_value(token_id)
                    } else {
                        old(self).owner_index(a)
                    }
                &&& final(self).same_settings(old(self))
                &&& one_more(final(self).events(), old(self).events())
                &&& is_token_transfer(final(self).events().last(), prior, ZERO_ADDRESS@, token_id)
            },
    {
        self.guard.enter()?;
        proof {
            Registry::lemma_wf_without_guard(old(self), self);
        }
        let r = self.burn_unguarded(caller, token_id);
        let ghost inner = *self;
        self.guard.exit();
        proof {
            Registry::lemma_wf_without_guard(&inner, self);
            ReentrancyGuard::lemma_same_state(&self.guard, &old(self).guard);
            assert forall|a: Seq<char>| #[trigger] self.owner_index(a) == inner.owner_index(a) by {}
        }
        r
    }

    fn burn_unguarded(&mut self, caller: &str, token_id: u64) -> (r: Result<(), LedgerError>)
        requires
            old(self).wf(),
        ensures
            final(self).wf(),
            final(self).guard == old(self).guard,
            r == match old(self).burn_check(caller@, token_id) {
                Some(e) => Err(e),
                None => Ok(()),
            },
            r is Err ==> *final(self) == *old(self),
            r is Ok ==> {
                let prior = old(self).tokens()[token_id].owner@;
                &&& final(self).tokens().contains_key(token_id)
                &&& final(self).tokens()[token_id].token_id == token_id
                &&& final(self).tokens()[token_id].owner@ == ZERO_ADDRESS@
                &&& final(self).tokens()[token_id].metadata_uri@ == old(
                    self,
                ).tokens()[token_id].metadata_uri@
                &&& final(self).tokens()[token_id].burned
                &&& final(self).tokens().remove(token_id) == old(self).tokens().remove(token_id)
                &&& final(self).counts() == old(self).counts().insert(
                    prior,
                    (old(self).spec_balance(prior) - 1) as u64,
                )
                &&& final(self).approvals() == old(self).approvals().insert(token_id, Seq::empty())
                &&& forall|a: Seq<char>| #[trigger]
                    final(self).owner_index(a) == if a == prior {
                        old(self).owner_index(a).remove_value(token_id)
                    } else {
                        old(self).owner_index(a)
                    }
                &&& final(self).same_settings(old(self))
                &&& one_more(final(self).events(), old(self).events())
                &&& is_token_transfer(final(self).events().last(), prior, ZERO_ADDRESS@, token_id)
            },
    {
        validate_address(caller)?;
        let (prior, uri, authorized) = match self.tokens.get(&token_id) {
            Some(info) => {
                if info.burned {
                    return Err(LedgerError::TokenBurned);
                }
                let caller_key = caller.to_owned();
                let authorized = info.owner == caller_key || self.is_approved_for_token(
                    token_id,
                    &info.owner,
                    &caller_key,
                );
                (info.owner.clone(), info.metadata_uri.clone(), authorized)
            },
            None => {
                return Err(LedgerError::TokenNotFound);
            },
        };
        if !authorized {
            return Err(LedgerError::Unauthorized);
        }
        let count = self.read_count(prior.as_str());
        proof {
            assert(self.owns(prior@, token_id));
            assert(self.owner_index(prior@).contains(token_id));
        }
        let new_count = arith::sub(count, 1)?;
        let ghost pre = *self;
        proof {
            lemma_remove_value(pre.owner_index(prior@), token_id);
        }
        self.tokens.set(
            token_id,
            TokenInfo {
                token_id,
                owner: ZERO_ADDRESS.to_owned(),
                metadata_uri: uri,
                burned: true,
            },
        );
        self.balances.set(prior.clone(), new_count);
        self.token_approvals.set(token_id, String::new());
        self.remove_from_index(&prior, token_id);
        self.events.push(
            LedgerEvent::TokenTransfer { from: prior, to: ZERO_ADDRESS.to_owned(), token_id },
        );
        proof {
            assert(self.tokens().remove(token_id) =~= pre.tokens().remove(token_id));
            assert(self.approvals() =~= pre.approvals().insert(token_id, Seq::empty()));
            assert forall|a: Seq<char>| #[trigger]
                self.owner_index(a) == if a == prior@ {
                    pre.owner_index(a).remove_value(token_id)
                } else {
                    pre.owner_index(a)
                } by {
                if a != prior@ {
                    assert(self.owner_tokens@.contains_key(a) == pre.owner_tokens@.contains_key(a));
                }
            }
            assert forall|a: Seq<char>, id: u64|
                #![trigger self.owner_index(a).contains(id)]
                #![trigger self.owns(a, id)]
                self.owner_index(a).contains(id) <==> self.owns(a, id) by {
                assert(pre.owner_index(a).contains(id) <==> pre.owns(a, id));
            }
            assert forall|a: Seq<char>| #[trigger] self.owner_index(a).no_duplicates() by {
                assert(pre.owner_index(a).no_duplicates());
                lemma_remove_value(pre.owner_index(a), token_id);
            }
            assert forall|a: Seq<char>| #[trigger]
                self.spec_balance(a) == self.owner_index(a).len() by {
                assert(pre.spec_balance(a) == pre.owner_index(a).len());
                lemma_remove_value(pre.owner_index(a), token_id);
            }
            assert forall|id: u64| #[trigger]
                self.all_tokens@.contains(id) <==> self.tokens@.contains_key(id) by {
                assert(pre.all_tokens@.contains(id) <==> pre.tokens@.contains_key(id));
            }
        }
        Ok(())
    }

    pub open spec fn approve_error(&self, caller: Seq<char>, to: Seq<char>, token_id: u64) -> Option<
        LedgerError,
    > {
        if !self.tokens().contains_key(token_id) {
            Some(LedgerError::TokenNotFound)
        } else if self.tokens()[token_id].burned {
            Some(LedgerError::TokenBurned)
        } else if self.tokens()[token_id].owner@ != caller {
            Some(LedgerError::Unauthorized)
        } else if to == caller {
            Some(LedgerError::InvalidArgument(Field::Approved))
        } else {
            None
        }
    }

    /// Lets `to` move the caller's token `token_id`, replacing any earlier
    /// approval for it. Only the owner may approve, and not itself.
    pub fn approve(&mut self, caller: &str, to: &str, token_id: u64) -> (r: Result<(), LedgerError>)
        requires
            old(self).wf(),
        ensures
            final(self).wf(),
            r == match old(self).approve_error(caller@, to@, token_id) {
                Some(e) => Err(e),
                None => Ok(()),
            },
            r is Err ==> *final(self) == *old(self),
            r is Ok ==> {
                &&& final(self).approvals() == old(self).approvals().insert(token_id, to@)
                &&& final(self).tokens() == old(self).tokens()
                &&& final(self).counts() == old(self).counts()
                &&& forall|a: Seq<char>| #[trigger]
                    final(self).owner_index(a) == old(self).owner_index(a)
                &&& final(self).same_settings(old(self))
                &&& one_more(final(self).events(), old(self).events())
                &&& is_token_approval(final(self).events().last(), caller@, to@, token_id)
            },
    {
        match self.tokens.get(&token_id) {
            Some(info) => {
                if info.burned {
                    return Err(LedgerError::TokenBurned);
                }
                let caller_key = caller.to_owned();
                if !(info.owner == caller_key) {
                    return Err(LedgerError::Unauthorized);
                }
                if to.to_owned() == caller_key {
                    return Err(LedgerError::InvalidArgument(Field::Approved));
                }
            },
            None => {
                return Err(LedgerError::TokenNotFound);
            },
        }
        let ghost pre = *self;
        self.token_approvals.set(token_id, to.to_owned());
        self.events.push(
            LedgerEvent::TokenApproval { owner: caller.to_owned(), approved_address: to.to_owned(), token_id },
        );
        proof {
            Registry::lemma_wf_without_guard(&pre, self);
            assert(self.approvals() =~= pre.approvals().insert(token_id, to@));
            assert forall|a: Seq<char>| #[trigger] self.owner_index(a) == pre.owner_index(a) by {}
        }
        Ok(())
    }

    pub open spec fn operator_error(&self, caller: Seq<char>, operator: Seq<char>) -> Option<
        LedgerError,
    > {
        if operator.len() == 0 {
            Some(LedgerError::InvalidArgument(Field::Operator))
        } else if caller.len() == 0 {
            Some(LedgerError::InvalidArgument(Field::Address))
        } else if operator == caller {
            Some(LedgerError::InvalidArgument(Field::Operator))
        } else if !self.is_initialized() {
            Some(LedgerError::NotInitialized)
        } else {
            None
        }
    }

    /// Grants (`approved`) or revokes the right of `operator` to manage every
    /// token of the caller. Nobody can name itself.
    pub fn set_approval_for_all(&mut self, caller: &str, operator: &str, approved: bool) -> (r:
        Result<(), LedgerError>)
        requires
            old(self).wf(),
        ensures
            final(self).wf(),
            r == match old(self).operator_error(caller@, operator@) {
                Some(e) => Err(e),
                None => Ok(()),
            },
            r is Err ==> *final(self) == *old(self),
            r is Ok ==> {
                &&& final(self).operators() == old(self).operators().insert(
                    (caller@, operator@),
                    approved,
                )
                &&& final(self).approvals() == old(self).approvals()
                &&& final(self).tokens() == old(self).tokens()
                &&& final(self).counts() == old(self).counts()
                &&& forall|a: Seq<char>| #[trigger]
                    final(self).owner_index(a) == old(self).owner_index(a)
                &&& final(self).meta() == old(self).meta()
                &&& final(self).all_tokens() == old(self).all_tokens()
                &&& final(self).guard_held() == old(self).guard_held()
                &&& one_more(final(self).events(), old(self).events())
                &&& is_approval_for_all(final(self).events().last(), caller@, operator@, approved)
            },
    {
        validate_non_empty(operator, Field::Operator)?;
        validate_address(caller)?;
        let caller_key = caller.to_owned();
        let operator_key = operator.to_owned();
        if operator_key == caller_key {
            return Err(LedgerError::InvalidArgument(Field::Operator));
        }
        if self.collection.is_none() {
            return Err(LedgerError::NotInitialized);
        }
        let ghost pre = *self;
        self.operator_approvals.set((caller_key, operator_key), approved);
        self.events.push(
            LedgerEvent::ApprovalForAll { owner: caller.to_owned(), operator: operator.to_owned(), approved },
        );
        proof {
            Registry::lemma_wf_without_guard(&pre, self);
            assert forall|a: Seq<char>| #[trigger] self.owner_index(a) == pre.owner_index(a) by {}
        }
        Ok(())
    }

    /// Hands over the events emitted so far and forgets them.
    pub fn take_events(&mut self) -> (r: Vec<LedgerEvent>)
        requires
            old(self).wf(),
        ensures
            final(self).wf(),
            r@ == old(self).events(),
            final(self).events() == Seq::<LedgerEvent>::empty(),
            final(self).tokens() == old(self).tokens(),
            final(self).approvals() == old(self).approvals(),
            final(self).counts() == old(self).counts(),
            forall|a: Seq<char>| #[trigger] final(self).owner_index(a) == old(self).owner_index(a),
            final(self).same_settings(old(self)),
    {
        let mut taken = Vec::new();
        std::mem::swap(&mut taken, &mut self.events);
        proof {
            Registry::lemma_wf_without_guard(old(self), self);
            assert forall|a: Seq<char>| #[trigger] self.owner_index(a) == old(self).owner_index(a) by {}
        }
        taken
    }

    /// The owner of a live token; the zero address for a burned or unknown one.
    pub fn owner_of(&self, token_id: u64) -> (r: String)
        requires
            self.wf(),
        ensures
            r@ == self.spec_owner_of(token_id),
    {
        match self.tokens.get(&token_id) {
            Some(info) => {
                if info.burned {
                    ZERO_ADDRESS.to_owned()
                } else {
                    info.owner.clone()
                }
            },
            None => ZERO_ADDRESS.to_owned(),
        }
    }

    fn read_count(&self, owner: &str) -> (r: u64)
        requires
            self.wf(),
        ensures
            r == self.spec_balance(owner@),
    {
        match self.balances.get(&owner.to_owned()) {
            Some(c) => *c,
            None => 0,
        }
    }

    /// The number of live tokens that `owner` holds; zero for an empty address.
    pub fn balance_of(&self, owner: &str) -> (r: u64)
        requires
            self.wf(),
        ensures
            r == if owner@.len() == 0 {
                0
            } else {
                self.spec_balance(owner@)
            },
    {
        if owner.is_empty() {
            return 0;
        }
        self.read_count(owner)
    }

    /// The address approved for `token_id`: empty once cleared, the zero
    /// address if none was ever recorded.
    pub fn get_approved(&self, token_id: u64) -> (r: String)
        requires
            self.wf(),
        ensures
            r@ == self.spec_approved(token_id),
    {
        match self.token_approvals.get(&token_id) {
            Some(a) => a.clone(),
            None => ZERO_ADDRESS.to_owned(),
        }
    }

    /// Whether `operator` may manage every token of `owner`.
    pub fn is_approved_for_all(&self, owner: &str, operator: &str) -> (r: bool)
        requires
            self.wf(),
        ensures
            r == (owner@.len() > 0 && operator@.len() > 0 && self.is_operator(owner@, operator@)),
    {
        if owner.is_empty() || operator.is_empty() {
            return false;
        }
        match self.operator_approvals.get(&(owner.to_owned(), operator.to_owned())) {
            Some(b) => *b,
            None => false,
        }
    }

    /// The base URI followed by the token's own suffix; empty for a burned or
    /// unknown token.
    pub fn token_uri(&self, token_id: u64) -> (r: String)
        requires
            self.wf(),
        ensures
            r@ == self.spec_token_uri(token_id),
    {
        match self.tokens.get(&token_id) {
            Some(info) => match &self.collection {
                Some(m) => {
                    if info.burned {
                        String::new()
                    } else {
                        m.base_uri.clone().concat(info.metadata_uri.as_str())
                    }
                },
                None => String::new(),
            },
            None => String::new(),
        }
    }

    /// The number of tokens ever minted; burning does not lower it.
    pub fn total_supply(&self) -> (r: u64)
        requires
            self.wf(),
        ensures
            r == self.supply(),
    {
        match &self.collection {
            Some(m) => m.total_supply,
            None => 0,
        }
    }

    /// The `index`-th token ever minted; 0 past the end.
    pub fn token_by_index(&self, index: u64) -> (r: u64)
        requires
            self.wf(),
        ensures
            r == if index < self.all_tokens().len() {
                self.all_tokens()[index as int]
            } else {
                0
            },
    {
        if index < self.all_tokens.len() as u64 {
            self.all_tokens[index as usize]
        } else {
            0
        }
    }

    /// The `index`-th token that `owner` holds; 0 past the end or for an
    /// empty address.
    pub fn token_of_owner_by_index(&self, owner: &str, index: u64) -> (r: u64)
        requires
            self.wf(),
        ensures
            r == if owner@.len() > 0 && index < self.owner_index(owner@).len() {
                self.owner_index(owner@)[index as int]
            } else {
                0
            },
    {
        if owner.is_empty() {
            return 0;
        }
        match self.owner_tokens.get(&owner.to_owned()) {
            Some(list) => {
                if index < list.len() as u64 {
                    list[index as usize]
                } else {
                    0
                }
            },
            None => 0,
        }
    }

    /// `name|symbol|base_uri|total_supply`; empty before initialization.
    pub fn get_collection_info(&self) -> (r: String)
        requires
            self.wf(),
        ensures
            r@ == match self.meta() {
                Some(m) => m.name@ + "|"@ + m.symbol@ + "|"@ + m.base_uri@ + "|"@ + decimal(
                    m.total_supply as nat,
                ),
                None => Seq::empty(),
            },
    {
        match &self.collection {
            Some(m) => {
                let supply = decimal_string(m.total_supply);
                m.name.clone().concat("|").concat(m.symbol.as_str()).concat("|").concat(
                    m.base_uri.as_str(),
                ).concat("|").concat(supply.as_str())
            },
            None => String::new(),
        }
    }
}

/// A token id is minted at most once: once it has a record, every later
/// `mint` of it fails (and a failed `mint` changes nothing).
pub proof fn lemma_mint_at_most_once(
    r: &Registry,
    caller: Seq<char>,
    to: Seq<char>,
    token_id: u64,
    metadata_uri: Seq<char>,
)
    requires
        r.wf(),
        r.tokens().contains_key(token_id),
    ensures
        r.mint_error(caller, to, token_id, metadata_uri) is Some,
{
}

/// A live token has exactly one owner, and that owner's index holds it
/// exactly once; no other index holds it.
pub proof fn lemma_ownership_exclusive(r: &Registry, token_id: u64)
    requires
        r.wf(),
        r.is_active(token_id),
    ensures
        ({
            let owner = r.tokens()[token_id].owner@;
            &&& r.owner_index(owner).contains(token_id)
            &&& forall|i: int, j: int|
                0 <= i < r.owner_index(owner).len() && 0 <= j < r.owner_index(owner).len()
                    && r.owner_index(owner)[i] == token_id && r.owner_index(owner)[j] == token_id
                    ==> i == j
            &&& forall|a: Seq<char>| #[trigger] r.owner_index(a).contains(token_id) ==> a == owner
        }),
{
    let owner = r.tokens()[token_id].owner@;
    assert(r.owns(owner, token_id));
    assert(r.owner_index(owner).no_duplicates());
    assert forall|a: Seq<char>| #[trigger] r.owner_index(a).contains(token_id) implies a
        == owner by {
        assert(r.owns(a, token_id));
    }
}

/// Only the owner, the address approved for the token, or an operator of the
/// owner can move or burn a token: for any other caller both fail.
pub proof fn lemma_only_authorized(
    r: &Registry,
    caller: Seq<char>,
    from: Seq<char>,
    to: Seq<char>,
    token_id: u64,
)
    requires
        r.wf(),
        r.tokens().contains_key(token_id),
        !r.is_authorized(token_id, caller),
    ensures
        r.transfer_error(caller, from, to, token_id) is Some,
        r.burn_error(caller, token_id) is Some,
{
}

} // verus!
