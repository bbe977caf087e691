use vstd::prelude::*;
use crate::error::LedgerError;

verus! {

/// A one-shot lock: at most one guarded operation is in flight at a time.
pub struct ReentrancyGuard {
    held: bool,
}

impl ReentrancyGuard {
    pub closed spec fn is_held(&self) -> bool {
        self.held
    }

    pub fn new() -> (r: Self)
        ensures
            !r.is_held(),
    {
        ReentrancyGuard { held: false }
    }

    /// Takes the lock; fails with `Reentrant`, changing nothing, when it is
    /// already held.
    pub fn enter(&mut self) -> (r: Result<(), LedgerError>)
        ensures
            old(self).is_held() ==> r == Err::<(), LedgerError>(LedgerError::Reentrant)
                && *final(self) == *old(self),
            !old(self).is_held() ==> r is Ok && final(self).is_held(),
    {
        if self.held {
            Err(LedgerError::Reentrant)
        } else {
            self.held = true;
            Ok(())
        }
    }

    /// Two guards in the same state are equal.
    pub proof fn lemma_same_state(a: &Self, b: &Self)
        requires
            a.is_held() == b.is_held(),
        ensures
            *a == *b,
    {
    }

    /// Releases the lock.
    pub fn exit(&mut self)
        ensures
            !final(self).is_held(),
    {
        self.held = false;
    }
}

} // verus!
