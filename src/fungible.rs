use vstd::prelude::*;
use crate::arith;
use crate::error::{Field, LedgerError};
use crate::event::{is_approval, is_transfer, one_more, LedgerEvent, ZERO_ADDRESS};
use crate::table::Table;
use crate::validation::{validate_address, validate_non_empty, validate_positive_amount};

verus! {

/// Metadata of the fungible token, set once by `initialize`.
pub struct TokenMetadata {
    pub name: String,
    pub symbol: String,
    pub decimals: u8,
    pub total_supply: u64,
    pub owner: String,
}

/// A fungible value ledger: balances with a conserved total supply, and
/// spending allowances that one account grants another.
pub struct FungibleLedger {
    metadata: Option<TokenMetadata>,
    balances: Table<String, u64>,
    allowances: Table<(String, String), u64>,
    events: Vec<LedgerEvent>,
}

impl FungibleLedger {
    /// The token metadata, once initialized.
    pub closed spec fn meta(&self) -> Option<TokenMetadata> {
        self.metadata
    }

    /// Every account that was ever credited, with its balance.
    pub closed spec fn balances(&self) -> Map<Seq<char>, u64> {
        self.balances@
    }

    /// Every allowance ever set, keyed by (owner, spender).
    pub closed spec fn allowances(&self) -> Map<(Seq<char>, Seq<char>), u64> {
        self.allowances@
    }

    /// The events emitted and not yet taken, oldest first.
    pub closed spec fn events(&self) -> Seq<LedgerEvent> {
        self.events@
    }

    /// Sum of the balances of all accounts.
    pub closed spec fn balance_sum(&self) -> int {
        self.balances.total()
    }

    pub closed spec fn wf(&self) -> bool {
        &&& self.balances.wf()
        &&& self.allowances.wf()
        &&& self.balance_sum() == self.supply()
        &&& self.metadata is None ==> self.balances@ == Map::<Seq<char>, u64>::empty()
            && self.allowances@ == Map::<(Seq<char>, Seq<char>), u64>::empty()
    }

    pub open spec fn is_initialized(&self) -> bool {
        self.meta() is Some
    }

    pub open spec fn supply(&self) -> u64 {
        match self.meta() {
            Some(m) => m.total_supply,
            None => 0,
        }
    }

    pub open spec fn owner(&self) -> Seq<char> {
        match self.meta() {
            Some(m) => m.owner@,
            None => Seq::empty(),
        }
    }

    /// The balance of `a`; an account never credited holds zero.
    pub open spec fn spec_balance(&self, a: Seq<char>) -> u64 {
        if self.balances().contains_key(a) {
            self.balances()[a]
        } else {
            0
        }
    }

    /// What `spender` may still move out of `owner`'s balance.
    pub open spec fn spec_allowance(&self, owner: Seq<char>, spender: Seq<char>) -> u64 {
        if self.allowances().contains_key((owner, spender)) {
            self.allowances()[(owner, spender)]
        } else {
            0
        }
    }

    /// The balance of `a` after `amount` moves from `from` to `to`.
    pub open spec fn balance_after_move(
        &self,
        from: Seq<char>,
        to: Seq<char>,
        amount: u64,
        a: Seq<char>,
    ) -> int {
        if from != to && a == from {
            self.spec_balance(a) - amount
        } else if from != to && a == to {
            self.spec_balance(a) + amount
        } else {
            self.spec_balance(a) as int
        }
    }

    /// Why moving `amount` from `from` to `to` fails, if it does.
    pub open spec fn move_error(&self, from: Seq<char>, to: Seq<char>, amount: u64) -> Option<
        LedgerError,
    > {
        if from.len() == 0 || to.len() == 0 {
            Some(LedgerError::InvalidArgument(Field::Address))
        } else if amount == 0 {
            Some(LedgerError::InvalidArgument(Field::Amount))
        } else if self.spec_balance(from) < amount {
            Some(
                LedgerError::InsufficientBalance {
                    required: amount,
                    available: self.spec_balance(from),
                },
            )
        } else if from != to && self.spec_balance(to) + amount > u64::MAX {
            Some(LedgerError::Overflow)
        } else {
            None
        }
    }

    pub open spec fn transfer_error(&self, caller: Seq<char>, to: Seq<char>, amount: u64) -> Option<
        LedgerError,
    > {
        if !self.is_initialized() {
            Some(LedgerError::NotInitialized)
        } else if amount == 0 {
            Some(LedgerError::InvalidArgument(Field::Amount))
        } else {
            self.move_error(caller, to, amount)
        }
    }

    pub open spec fn transfer_from_error(
        &self,
        spender: Seq<char>,
        from: Seq<char>,
        to: Seq<char>,
        amount: u64,
    ) -> Option<LedgerError> {
        if !self.is_initialized() {
            Some(LedgerError::NotInitialized)
        } else if amount == 0 {
            Some(LedgerError::InvalidArgument(Field::Amount))
        } else if from.len() == 0 || spender.len() == 0 {
            Some(LedgerError::InvalidArgument(Field::Address))
        } else if self.spec_allowance(from, spender) < amount {
            Some(
                LedgerError::InsufficientBalance {
                    required: amount,
                    available: self.spec_allowance(from, spender),
                },
            )
        } else {
            self.move_error(from, to, amount)
        }
    }

    pub open spec fn initialize_error(
        &self,
        caller: Seq<char>,
        name: Seq<char>,
        symbol: Seq<char>,
    ) -> Option<LedgerError> {
        if name.len() == 0 {
            Some(LedgerError::InvalidArgument(Field::Name))
        } else if symbol.len() == 0 {
            Some(LedgerError::InvalidArgument(Field::Symbol))
        } else if self.is_initialized() {
            Some(LedgerError::AlreadyInitialized)
        } else if caller.len() == 0 {
            Some(LedgerError::InvalidArgument(Field::Address))
        } else {
            None
        }
    }

    pub open spec fn approve_error(&self, caller: Seq<char>, spender: Seq<char>) -> Option<
        LedgerError,
    > {
        if !self.is_initialized() {
            Some(LedgerError::NotInitialized)
        } else if caller.len() == 0 || spender.len() == 0 {
            Some(LedgerError::InvalidArgument(Field::Address))
        } else {
            None
        }
    }

    pub open spec fn mint_error(&self, caller: Seq<char>, to: Seq<char>, amount: u64) -> Option<
        LedgerError,
    > {
        if !self.is_initialized() {
            Some(LedgerError::NotInitialized)
        } else if amount == 0 {
            Some(LedgerError::InvalidArgument(Field::Amount))
        } else if to.len() == 0 {
            Some(LedgerError::InvalidArgument(Field::Address))
        } else if caller != self.owner() {
            Some(LedgerError::Unauthorized)
        } else if self.supply() + amount > u64::MAX {
            Some(LedgerError::Overflow)
        } else {
            None
        }
    }

    /// Metadata other than the total supply is the same in both ledgers.
    pub open spec fn same_descriptor(&self, other: &FungibleLedger) -> bool {
        self.is_initialized() == other.is_initialized() && match (self.meta(), other.meta()) {
            (Some(a), Some(b)) => a.name@ == b.name@ && a.symbol@ == b.symbol@ && a.decimals
                == b.decimals && a.owner@ == b.owner@,
            _ => true,
        }
    }

    /// An uninitialized ledger.
    pub fn new() -> (r: Self)
        ensures
            r.wf(),
            !r.is_initialized(),
            r.balances() == Map::<Seq<char>, u64>::empty(),
            r.allowances() == Map::<(Seq<char>, Seq<char>), u64>::empty(),
            r.events() == Seq::<LedgerEvent>::empty(),
    {
        let r = FungibleLedger {
            metadata: None,
            balances: Table::new(),
            allowances: Table::new(),
            events: Vec::new(),
        };
        proof {
            r.balances.lemma_empty_total();
        }
        r
    }

    fn read_balance(&self, a: &str) -> (r: u64)
        requires
            self.wf(),
        ensures
            r == self.spec_balance(a@),
    {
        let key = a.to_owned();
        match self.balances.get(&key) {
            Some(b) => *b,
            None => 0,
        }
    }

    fn read_allowance(&self, owner: &str, spender: &str) -> (r: u64)
        requires
            self.wf(),
        ensures
            r == self.spec_allowance(owner@, spender@),
    {
        let key = (owner.to_owned(), spender.to_owned());
        match self.allowances.get(&key) {
            Some(b) => *b,
            None => 0,
        }
    }

    /// Moves `amount` from `from` to `to`; the supply, the metadata and the
    /// allowances stay as they are.
    fn move_balance(&mut self, from: &str, to: &str, amount: u64) -> (r: Result<(), LedgerError>)
        requires
            old(self).wf(),
            old(self).is_initialized(),
        ensures
            final(self).wf(),
            r == match old(self).move_error(from@, to@, amount) {
                Some(e) => Err(e),
                None => Ok(()),
            },
            r is Err ==> *final(self) == *old(self),
            r is Ok ==> {
                &&& forall|a: Seq<char>|
                    #![auto]
                    final(self).spec_balance(a) == old(self).balance_after_move(from@, to@, amount, a)
                &&& final(self).meta() == old(self).meta()
                &&& final(self).allowances() == old(self).allowances()
                &&& final(self).events() == old(self).events()
            },
    {
        validate_address(from)?;
        validate_address(to)?;
        validate_positive_amount(amount)?;
        let from_balance = self.read_balance(from);
        if from_balance < amount {
            return Err(LedgerError::InsufficientBalance { required: amount, available: from_balance });
        }
        let new_from_balance = arith::sub(from_balance, amount)?;
        let from_key = from.to_owned();
        let to_key = to.to_owned();
        if from_key == to_key {
            return Ok(());
        }
        let to_balance = self.read_balance(to);
        let new_to_balance = arith::add(to_balance, amount)?;
        self.balances.set_amount(from_key, new_from_balance);
        self.balances.set_amount(to_key, new_to_balance);
        Ok(())
    }

    /// Sets up the token: the caller becomes its owner and holds the whole
    /// initial supply. Fails, changing nothing, when a name or symbol is
    /// empty or the ledger is already initialized.
    pub fn initialize(
        &mut self,
        caller: &str,
        name: &str,
        symbol: &str,
        decimals: u8,
        initial_supply: u64,
    ) -> (r: Result<(), LedgerError>)
        requires
            old(self).wf(),
        ensures
            final(self).wf(),
            r == match old(self).initialize_error(caller@, name@, symbol@) {
                Some(e) => Err(e),
                None => Ok(()),
            },
            r is Err ==> *final(self) == *old(self),
            r is Ok ==> {
                &&& final(self).meta() matches Some(m) && m.name@ == name@ && m.symbol@ == symbol@
                    && m.decimals == decimals && m.total_supply == initial_supply && m.owner@
                    == caller@
                &&& final(self).balances() == map![caller@ => initial_supply]
                &&& final(self).allowances() == old(self).allowances()
                &&& one_more(final(self).events(), old(self).events())
                &&& is_transfer(final(self).events().last(), ZERO_ADDRESS@, caller@, initial_supply)
            },
    {
        validate_non_empty(name, Field::Name)?;
        validate_non_empty(symbol, Field::Symbol)?;
        if self.metadata.is_some() {
            return Err(LedgerError::AlreadyInitialized);
        }
        validate_address(caller)?;
        self.metadata = Some(
            TokenMetadata {
                name: name.to_owned(),
                symbol: symbol.to_owned(),
                decimals,
                total_supply: initial_supply,
                owner: caller.to_owned(),
            },
        );
        proof {
            self.balances.lemma_empty_total();
        }
        self.balances.set_amount(caller.to_owned(), initial_supply);
        proof {
            assert(self.balances@ =~= map![caller@ => initial_supply]);
        }
        self.events.push(
            LedgerEvent::Transfer {
                from: ZERO_ADDRESS.to_owned(),
                to: caller.to_owned(),
                amount: initial_supply,
            },
        );
        Ok(())
    }

    /// Moves `amount` from the caller to `to`. A transfer to oneself leaves
    /// every balance as it was.
    pub fn transfer(&mut self, caller: &str, to: &str, amount: u64) -> (r: Result<(), LedgerError>)
        requires
            old(self).wf(),
        ensures
            final(self).wf(),
            r == match old(self).transfer_error(caller@, to@, amount) {
                Some(e) => Err(e),
                None => Ok(()),
            },
            r is Err ==> *final(self) == *old(self),
            r is Ok ==> {
                &&& forall|a: Seq<char>|
                    #![auto]
                    final(self).spec_balance(a) == old(self).balance_after_move(caller@, to@, amount, a)
                &&& final(self).meta() == old(self).meta()
                &&& final(self).allowances() == old(self).allowances()
                &&& one_more(final(self).events(), old(self).events())
                &&& is_transfer(final(self).events().last(), caller@, to@, amount)
            },
    {
        if self.metadata.is_none() {
            return Err(LedgerError::NotInitialized);
        }
        validate_positive_amount(amount)?;
        self.move_balance(caller, to, amount)?;
        let ghost moved = *self;
        self.events.push(
            LedgerEvent::Transfer { from: caller.to_owned(), to: to.to_owned(), amount },
        );
        assert(forall|a: Seq<char>| #[trigger] self.spec_balance(a) == moved.spec_balance(a));
        Ok(())
    }

    /// Sets the caller's allowance for `spender` to exactly `amount`,
    /// whatever it was before; zero revokes it.
    pub fn approve(&mut self, caller: &str, spender: &str, amount: u64) -> (r: Result<(), LedgerError>)
        requires
            old(self).wf(),
        ensures
            final(self).wf(),
            r == match old(self).approve_error(caller@, spender@) {
                Some(e) => Err(e),
                None => Ok(()),
            },
            r is Err ==> *final(self) == *old(self),
            r is Ok ==> {
                &&& final(self).allowances() == old(self).allowances().insert((caller@, spender@), amount)
                &&& final(self).balances() == old(self).balances()
                &&& final(self).meta() == old(self).meta()
                &&& one_more(final(self).events(), old(self).events())
                &&& is_approval(final(self).events().last(), caller@, spender@, amount)
            },
    {
        if self.metadata.is_none() {
            return Err(LedgerError::NotInitialized);
        }
        validate_address(caller)?;
        validate_address(spender)?;
        self.allowances.set((caller.to_owned(), spender.to_owned()), amount);
        self.events.push(
            LedgerEvent::Approval { owner: caller.to_owned(), spender: spender.to_owned(), amount },
        );
        Ok(())
    }

    /// Moves `amount` from `from` to `to` on the caller's allowance, which
    /// shrinks by `amount`. Both the allowance and the balance must suffice.
    pub fn transfer_from(&mut self, caller: &str, from: &str, to: &str, amount: u64) -> (r: Result<
        (),
        LedgerError,
    >)
        requires
            old(self).wf(),
        ensures
            final(self).wf(),
            r == match old(self).transfer_from_error(caller@, from@, to@, amount) {
                Some(e) => Err(e),
                None => Ok(()),
            },
            r is Err ==> *final(self) == *old(self),
            r is Ok ==> {
                &&& forall|a: Seq<char>|
                    #![auto]
                    final(self).spec_balance(a) == old(self).balance_after_move(from@, to@, amount, a)
                &&& final(self).allowances() == old(self).allowances().insert(
                    (from@, caller@),
                    (old(self).spec_allowance(from@, caller@) - amount) as u64,
                )
                &&& final(self).meta() == old(self).meta()
                &&& one_more(final(self).events(), old(self).events())
                &&& is_transfer(final(self).events().last(), from@, to@, amount)
            },
    {
        if self.metadata.is_none() {
            return Err(LedgerError::NotInitialized);
        }
        validate_positive_amount(amount)?;
        validate_address(from)?;
        validate_address(caller)?;
        let allowance = self.read_allowance(from, caller);
        if allowance < amount {
            return Err(LedgerError::InsufficientBalance { required: amount, available: allowance });
        }
        let new_allowance = arith::sub(allowance, amount)?;
        self.move_balance(from, to, amount)?;
        let ghost moved = *self;
        let key = (from.to_owned(), caller.to_owned());
        assert(key@ == (from@, caller@));
        self.allowances.set(key, new_allowance);
        self.events.push(
            LedgerEvent::Transfer { from: from.to_owned(), to: to.to_owned(), amount },
        );
        assert(self.balances() == moved.balances());
        assert(forall|a: Seq<char>| #[trigger] self.spec_balance(a) == moved.spec_balance(a));
        assert(self.allowances() == old(self).allowances().insert((from@, caller@), new_allowance));
        Ok(())
    }

    /// Creates `amount` new units for `to`; only the token owner may mint.
    pub fn mint(&mut self, caller: &str, to: &str, amount: u64) -> (r: Result<(), LedgerError>)
        requires
            old(self).wf(),
        ensures
            final(self).wf(),
            r == match old(self).mint_error(caller@, to@, amount) {
                Some(e) => Err(e),
                None => Ok(()),
            },
            r is Err ==> *final(self) == *old(self),
            r is Ok ==> {
                &&& final(self).supply() == old(self).supply() + amount
                &&& final(self).balances() == old(self).balances().insert(
                    to@,
                    (old(self).spec_balance(to@) + amount) as u64,
                )
                &&& final(self).same_descriptor(old(self))
                &&& final(self).allowances() == old(self).allowances()
                &&& one_more(final(self).events(), old(self).events())
                &&& is_transfer(final(self).events().last(), ZERO_ADDRESS@, to@, amount)
            },
    {
        if self.metadata.is_none() {
            return Err(LedgerError::NotInitialized);
        }
        validate_positive_amount(amount)?;
        validate_address(to)?;
        let current_balance = self.read_balance(to);
        let meta = match &mut self.metadata {
            Some(m) => m,
            None => {
                return Err(LedgerError::NotInitialized);
            },
        };
        let caller_key = caller.to_owned();
        if !(caller_key == meta.owner) {
            return Err(LedgerError::Unauthorized);
        }
        let new_total = arith::add(meta.total_supply, amount)?;
        proof {
            if self.balances@.contains_key(to@) {
                self.balances.lemma_value_le_total(to@);
            }
        }
        let new_balance = arith::add(current_balance, amount)?;
        meta.total_supply = new_total;
        self.balances.set_amount(to.to_owned(), new_balance);
        self.events.push(
            LedgerEvent::Transfer { from: ZERO_ADDRESS.to_owned(), to: to.to_owned(), amount },
        );
        Ok(())
    }

    /// Hands over the events emitted so far and forgets them.
    pub fn take_events(&mut self) -> (r: Vec<LedgerEvent>)
        requires
            old(self).wf(),
        ensures
            final(self).wf(),
            r@ == old(self).events(),
            final(self).events() == Seq::<LedgerEvent>::empty(),
            final(self).meta() == old(self).meta(),
            final(self).balances() == old(self).balances(),
            final(self).allowances() == old(self).allowances(),
    {
        let mut taken = Vec::new();
        std::mem::swap(&mut taken, &mut self.events);
        taken
    }

    /// The balance of `account`.
    pub fn balance_of(&self, account: &str) -> (r: Result<u64, LedgerError>)
        requires
            self.wf(),
        ensures
            r == if !self.is_initialized() {
                Err(LedgerError::NotInitialized)
            } else if account@.len() == 0 {
                Err(LedgerError::InvalidArgument(Field::Address))
            } else {
                Ok::<u64, LedgerError>(self.spec_balance(account@))
            },
    {
        if self.metadata.is_none() {
            return Err(LedgerError::NotInitialized);
        }
        validate_address(account)?;
        Ok(self.read_balance(account))
    }

    /// What `spender` may still move out of `owner`'s balance.
    pub fn allowance(&self, owner: &str, spender: &str) -> (r: Result<u64, LedgerError>)
        requires
            self.wf(),
        ensures
            r == if !self.is_initialized() {
                Err(LedgerError::NotInitialized)
            } else if owner@.len() == 0 || spender@.len() == 0 {
                Err(LedgerError::InvalidArgument(Field::Address))
            } else {
                Ok::<u64, LedgerError>(self.spec_allowance(owner@, spender@))
            },
    {
        if self.metadata.is_none() {
            return Err(LedgerError::NotInitialized);
        }
        validate_address(owner)?;
        validate_address(spender)?;
        Ok(self.read_allowance(owner, spender))
    }

    pub fn total_supply(&self) -> (r: Result<u64, LedgerError>)
        requires
            self.wf(),
        ensures
            r == if self.is_initialized() {
                Ok::<u64, LedgerError>(self.supply())
            } else {
                Err(LedgerError::NotInitialized)
            },
    {
        match &self.metadata {
            Some(m) => Ok(m.total_supply),
            None => Err(LedgerError::NotInitialized),
        }
    }

    pub fn decimals(&self) -> (r: Result<u8, LedgerError>)
        requires
            self.wf(),
        ensures
            match self.meta() {
                Some(m) => r == Ok::<u8, LedgerError>(m.decimals),
                None => r == Err::<u8, LedgerError>(LedgerError::NotInitialized),
            },
    {
        match &self.metadata {
            Some(m) => Ok(m.decimals),
            None => Err(LedgerError::NotInitialized),
        }
    }

    pub fn name(&self) -> (r: Result<String, LedgerError>)
        requires
            self.wf(),
        ensures
            match self.meta() {
                Some(m) => r matches Ok(s) && s@ == m.name@,
                None => r == Err::<String, LedgerError>(LedgerError::NotInitialized),
            },
    {
        match &self.metadata {
            Some(m) => Ok(m.name.clone()),
            None => Err(LedgerError::NotInitialized),
        }
    }

    pub fn symbol(&self) -> (r: Result<String, LedgerError>)
        requires
            self.wf(),
        ensures
            match self.meta() {
                Some(m) => r matches Ok(s) && s@ == m.symbol@,
                None => r == Err::<String, LedgerError>(LedgerError::NotInitialized),
            },
    {
        match &self.metadata {
            Some(m) => Ok(m.symbol.clone()),
            None => Err(LedgerError::NotInitialized),
        }
    }
}

/// Conservation: in every well-formed ledger the balances of all accounts
/// add up to the total supply. Every operation keeps the ledger well formed;
/// `transfer` and `transfer_from` leave the supply as it is, and `mint` raises
/// the supply and one balance by the same amount.
pub proof fn lemma_conservation(l: &FungibleLedger)
    requires
        l.wf(),
    ensures
        l.balance_sum() == l.supply(),
{
}

/// A spend beyond the allowance fails with `InsufficientBalance` rather than
/// driving the allowance below zero.
pub proof fn lemma_allowance_never_underflows(
    l: &FungibleLedger,
    spender: Seq<char>,
    from: Seq<char>,
    to: Seq<char>,
    amount: u64,
)
    requires
        l.is_initialized(),
        amount > 0,
        from.len() > 0,
        spender.len() > 0,
        l.spec_allowance(from, spender) < amount,
    ensures
        l.transfer_from_error(spender, from, to, amount) == Some(
            LedgerError::InsufficientBalance {
                required: amount,
                available: l.spec_allowance(from, spender),
            },
        ),
{
}

} // verus!
