//! The ledger of a single client: its balances, its lock flag and the
//! transactions it has accepted.

use std::collections::{HashMap, HashSet};
use vstd::prelude::*;
use vstd::set_lib::*;

use crate::amount::{Amount, Balance};
use crate::error::TransactionError;
use crate::transaction::{TransactionId, TransactionType};

verus! {

broadcast use vstd::std_specs::hash::group_hash_axioms;

/// The largest magnitude a recorded amount can have.
#[verifier::inline]
pub open spec fn amount_limit() -> int {
    0x8000_0000_0000_0000
}

/// A ledger as a mathematical value.
pub struct LedgerView {
    /// Funds the client can withdraw or have disputed.
    pub available: int,
    /// Funds frozen by disputes that are still open.
    pub held: int,
    /// The client's full balance.
    pub total: int,
    /// Whether a chargeback has frozen the account.
    pub locked: bool,
    /// Every accepted deposit (positive) and withdrawal (negative), by identifier.
    pub history: Map<u32, Amount>,
    /// The transactions whose dispute is still open.
    pub in_dispute: Set<u32>,
    /// The transactions whose dispute was resolved or charged back.
    pub settled: Set<u32>,
}

impl LedgerView {
    /// The ledger of a client that has not transacted yet.
    pub open spec fn empty() -> LedgerView {
        LedgerView {
            available: 0,
            held: 0,
            total: 0,
            locked: false,
            history: Map::empty(),
            in_dispute: Set::empty(),
            settled: Set::empty(),
        }
    }

    /// The number of balance changes the ledger can have gone through: one
    /// for each recorded transaction, one for each open dispute and two for
    /// each closed one.
    pub open spec fn steps(self) -> nat {
        self.history.dom().len() + self.in_dispute.len() + 2 * self.settled.len()
    }

    /// What holds of every ledger the engine can reach: the total is the
    /// sum of the available and held funds; the available funds are never
    /// below zero; only recorded transactions are disputed or settled, and
    /// none is both; and the held funds and the total have moved by at most
    /// one amount at each step.
    pub open spec fn wf(self) -> bool {
        &&& self.total == self.available + self.held
        &&& self.available >= 0
        &&& self.history.dom().finite()
        &&& self.in_dispute.subset_of(self.history.dom())
        &&& self.settled.subset_of(self.history.dom())
        &&& self.in_dispute.disjoint(self.settled)
        &&& -amount_limit() * self.steps() <= self.held <= amount_limit() * self.steps()
        &&& -amount_limit() * self.steps() <= self.total <= amount_limit() * self.steps()
    }

    /// The outcome of depositing `amount` under the identifier `id`.
    pub open spec fn deposit(self, id: u32, amount: Amount) -> Result<
        LedgerView,
        TransactionError,
    > {
        if self.locked {
            Err(TransactionError::AccountLocked)
        } else if self.history.contains_key(id) {
            Err(TransactionError::DuplicateTransaction)
        } else {
            Ok(
                LedgerView {
                    available: self.available + amount,
                    total: self.total + amount,
                    history: self.history.insert(id, amount),
                    ..self
                },
            )
        }
    }

    /// The outcome of withdrawing `amount` under the identifier `id`. The
    /// withdrawal is recorded with its amount negated.
    pub open spec fn withdraw(self, id: u32, amount: Amount) -> Result<
        LedgerView,
        TransactionError,
    > {
        if self.locked {
            Err(TransactionError::AccountLocked)
        } else if self.history.contains_key(id) {
            Err(TransactionError::DuplicateTransaction)
        } else if amount > self.available {
            Err(TransactionError::InsufficientFunds)
        } else {
            Ok(
                LedgerView {
                    available: self.available - amount,
                    total: self.total - amount,
                    history: self.history.insert(id, (-amount) as Amount),
                    ..self
                },
            )
        }
    }

    /// The outcome of disputing the transaction `id`. Disputing a
    /// transaction the ledger never recorded succeeds and changes nothing.
    /// A transaction goes through one dispute at most: while its dispute is
    /// open, and once it has been resolved or charged back, disputing it
    /// again is refused.
    pub open spec fn dispute(self, id: u32) -> Result<LedgerView, TransactionError> {
        if self.locked {
            Err(TransactionError::AccountLocked)
        } else if self.in_dispute.contains(id) {
            Err(TransactionError::AlreadyDisputed)
        } else if self.settled.contains(id) {
            Err(TransactionError::AlreadySettled)
        } else if !self.history.contains_key(id) {
            Ok(self)
        } else if self.available < self.history[id] {
            Err(TransactionError::InsufficientFunds)
        } else {
            Ok(
                LedgerView {
                    available: self.available - self.history[id],
                    held: self.held + self.history[id],
                    in_dispute: self.in_dispute.insert(id),
                    ..self
                },
            )
        }
    }

    /// The outcome of resolving the open dispute of the transaction `id`:
    /// the inverse of the dispute, after which the transaction counts as
    /// settled.
    pub open spec fn resolve(self, id: u32) -> Result<LedgerView, TransactionError> {
        if self.locked {
            Err(TransactionError::AccountLocked)
        } else if !self.in_dispute.contains(id) {
            Err(TransactionError::NotDisputed)
        } else if self.available < -self.history[id] {
            Err(TransactionError::InsufficientFunds)
        } else {
            Ok(
                LedgerView {
                    available: self.available + self.history[id],
                    held: self.held - self.history[id],
                    in_dispute: self.in_dispute.remove(id),
                    settled: self.settled.insert(id),
                    ..self
                },
            )
        }
    }

    /// The outcome of charging back the disputed transaction `id`: the
    /// recorded amount leaves the ledger for good and the account is locked.
    /// For a disputed withdrawal the recorded amount is negative, so the
    /// chargeback gives it back to the total.
    pub open spec fn chargeback(self, id: u32) -> Result<LedgerView, TransactionError> {
        if self.locked {
            Err(TransactionError::AccountLocked)
        } else if !self.in_dispute.contains(id) {
            Err(TransactionError::NotDisputed)
        } else {
            Ok(
                LedgerView {
                    held: self.held - self.history[id],
                    total: self.total - self.history[id],
                    locked: true,
                    in_dispute: self.in_dispute.remove(id),
                    settled: self.settled.insert(id),
                    ..self
                },
            )
        }
    }

    /// The outcome of the operation `ty` on the transaction `id`. The amount
    /// matters to deposits and withdrawals only.
    pub open spec fn apply(self, ty: TransactionType, id: u32, amount: Amount) -> Result<
        LedgerView,
        TransactionError,
    > {
        match ty {
            TransactionType::Deposit => self.deposit(id, amount),
            TransactionType::Withdrawal => self.withdraw(id, amount),
            TransactionType::Dispute => self.dispute(id),
            TransactionType::Resolve => self.resolve(id),
            TransactionType::Chargeback => self.chargeback(id),
        }
    }

    /// The ledger once the operation has been attempted: changed as the
    /// operation says where it succeeds, untouched where it is refused.
    pub open spec fn after(self, ty: TransactionType, id: u32, amount: Amount) -> LedgerView {
        match self.apply(ty, id, amount) {
            Ok(next) => next,
            Err(_) => self,
        }
    }

    /// Every well-formed ledger has balances far inside the range of
    /// [`Balance`].
    pub proof fn lemma_balances_fit(self)
        requires
            self.wf(),
        ensures
            self.steps() <= 0x3_0000_0000,
            -0x1_8000_0000_0000_0000_0000_0000 <= self.held <= 0x1_8000_0000_0000_0000_0000_0000,
            -0x1_8000_0000_0000_0000_0000_0000 <= self.total <= 0x1_8000_0000_0000_0000_0000_0000,
            0 <= self.available <= 0x3_0000_0000_0000_0000_0000_0000,
    {
        let ids = self.history.dom();
        let all = Set::<u32>::full();
        u32::full_properties();
        u32::range_properties(u32::MIN, u32::MAX);
        assert(all == Set::<u32>::range_inclusive(u32::MIN, u32::MAX));
        assert(all.len() == 0x1_0000_0000);
        lemma_len_subset(ids, all);
        lemma_set_disjoint_lens(self.in_dispute, self.settled);
        lemma_len_subset(self.in_dispute + self.settled, ids);
    }
}

/// No operation breaks a ledger: whatever is attempted on a well-formed
/// ledger, the ledger that results is well-formed, and in particular its
/// total is the sum of its available and held funds.
pub proof fn lemma_operations_keep_the_balance(
    ledger: LedgerView,
    ty: TransactionType,
    id: u32,
    amount: Amount,
)
    requires
        ledger.wf(),
        ty.is_transfer() ==> amount >= 0,
    ensures
        ledger.after(ty, id, amount).wf(),
        ledger.after(ty, id, amount).total == ledger.after(ty, id, amount).available
            + ledger.after(ty, id, amount).held,
{
}

/// A locked account is frozen: every operation on it is refused with
/// [`TransactionError::AccountLocked`] and leaves the ledger as it was.
pub proof fn lemma_locked_is_frozen(
    ledger: LedgerView,
    ty: TransactionType,
    id: u32,
    amount: Amount,
)
    requires
        ledger.locked,
    ensures
        ledger.apply(ty, id, amount) == Err::<LedgerView, TransactionError>(
            TransactionError::AccountLocked,
        ),
        ledger.after(ty, id, amount) == ledger,
{
}

/// An account never unlocks: whatever is attempted on a locked ledger, the
/// ledger that results is locked.
pub proof fn lemma_lock_is_permanent(
    ledger: LedgerView,
    ty: TransactionType,
    id: u32,
    amount: Amount,
)
    ensures
        ledger.locked ==> ledger.after(ty, id, amount).locked,
{
}

/// Nothing recorded is forgotten: whatever is attempted, every transaction
/// the ledger has recorded stays recorded with its amount, and every
/// settled transaction stays settled.
pub proof fn lemma_records_are_kept(
    ledger: LedgerView,
    ty: TransactionType,
    id: u32,
    amount: Amount,
)
    ensures
        forall|known: u32| #[trigger]
            ledger.history.contains_key(known) ==> {
                let next = ledger.after(ty, id, amount);
                next.history.contains_key(known) && next.history[known] == ledger.history[known]
            },
        ledger.settled.subset_of(ledger.after(ty, id, amount).settled),
{
}

/// A settled dispute is final: a transaction whose dispute was resolved or
/// charged back is never under dispute again.
pub proof fn lemma_settled_is_final(
    ledger: LedgerView,
    ty: TransactionType,
    id: u32,
    amount: Amount,
    settled: u32,
)
    requires
        ledger.wf(),
        ledger.settled.contains(settled),
    ensures
        ledger.after(ty, id, amount).settled.contains(settled),
        !ledger.after(ty, id, amount).in_dispute.contains(settled),
{
}

/// An identifier is accepted once: after a deposit or withdrawal under `id`
/// has been accepted, every further deposit or withdrawal under `id`,
/// whatever its amount, is refused as a duplicate and changes nothing.
pub proof fn lemma_identifier_accepted_once(
    ledger: LedgerView,
    first: TransactionType,
    amount: Amount,
    second: TransactionType,
    again: Amount,
    id: u32,
)
    requires
        first.is_transfer(),
        second.is_transfer(),
        ledger.apply(first, id, amount) is Ok,
    ensures
        ledger.after(first, id, amount).apply(second, id, again) == Err::<
            LedgerView,
            TransactionError,
        >(TransactionError::DuplicateTransaction),
        ledger.after(first, id, amount).after(second, id, again) == ledger.after(
            first,
            id,
            amount,
        ),
{
}

/// Attempting the same deposit or withdrawal twice leaves the ledger as
/// attempting it once does.
pub proof fn lemma_repetition_changes_nothing(
    ledger: LedgerView,
    ty: TransactionType,
    id: u32,
    amount: Amount,
)
    requires
        ty.is_transfer(),
    ensures
        ledger.after(ty, id, amount).after(ty, id, amount) == ledger.after(ty, id, amount),
{
}

/// A dispute that is resolved leaves no trace in the balances: where a
/// dispute of `id` is accepted on a well-formed ledger, resolving it brings
/// the available, held and total funds back to what they were before the
/// dispute. Where the ledger has recorded `id`, the resolution is accepted.
pub proof fn lemma_dispute_then_resolve_restores(ledger: LedgerView, id: u32)
    requires
        ledger.wf(),
        ledger.dispute(id) is Ok,
    ensures
        ledger.history.contains_key(id) ==> ledger.dispute(id)->Ok_0.resolve(id) is Ok,
        ledger.dispute(id)->Ok_0.after(TransactionType::Resolve, id, 0).available
            == ledger.available,
        ledger.dispute(id)->Ok_0.after(TransactionType::Resolve, id, 0).held == ledger.held,
        ledger.dispute(id)->Ok_0.after(TransactionType::Resolve, id, 0).total == ledger.total,
{
}

/// One client's ledger.
#[derive(Debug, PartialEq)]
pub struct ClientData {
    available: Balance,
    held: Balance,
    total: Balance,
    locked: bool,
    transactions: HashMap<u32, Amount>,
    in_dispute: HashSet<u32>,
    disputed: HashSet<u32>,
}

impl View for ClientData {
    type V = LedgerView;

    closed spec fn view(&self) -> LedgerView {
        LedgerView {
            available: self.available as int,
            held: self.held as int,
            total: self.total as int,
            locked: self.locked,
            history: self.transactions@,
            in_dispute: self.in_dispute@,
            settled: self.disputed@,
        }
    }
}

impl Default for ClientData {
    fn default() -> (ledger: Self)
        ensures
            ledger.wf(),
            ledger@ == LedgerView::empty(),
    {
        ClientData {
            available: 0,
            held: 0,
            total: 0,
            locked: false,
            transactions: HashMap::new(),
            in_dispute: HashSet::new(),
            disputed: HashSet::new(),
        }
    }
}

impl ClientData {
    /// Whether the ledger is one the engine can reach.
    pub open spec fn wf(&self) -> bool {
        self@.wf()
    }

    /// The funds the client can withdraw or have disputed.
    pub fn available(&self) -> (amount: Balance)
        ensures
            amount == self@.available,
    {
        self.available
    }

    /// The funds frozen by open disputes.
    pub fn held(&self) -> (amount: Balance)
        ensures
            amount == self@.held,
    {
        self.held
    }

    /// The client's full balance.
    pub fn total(&self) -> (amount: Balance)
        ensures
            amount == self@.total,
    {
        self.total
    }

    /// Whether a chargeback has frozen the account.
    pub fn is_locked(&self) -> (locked: bool)
        ensures
            locked == self@.locked,
    {
        self.locked
    }

    /// Adds `amount` to the available funds and records it under `id`.
    /// Refused where the account is locked or `id` is already recorded.
    pub fn deposit(&mut self, id: TransactionId, amount: Amount) -> (outcome: Result<
        (),
        TransactionError,
    >)
        requires
            old(self).wf(),
            amount >= 0,
        ensures
            final(self).wf(),
            match old(self)@.deposit(id@, amount) {
                Ok(next) => outcome is Ok && final(self)@ == next,
                Err(e) => outcome == Err::<(), TransactionError>(e) && final(self)@ == old(self)@,
            },
    {
        if self.locked {
            return Err(TransactionError::AccountLocked);
        }
        let key: u32 = *id;
        if self.transactions.contains_key(&key) {
            return Err(TransactionError::DuplicateTransaction);
        }
        proof {
            self@.lemma_balances_fit();
        }
        self.available = self.available + (amount as Balance);
        self.total = self.total + (amount as Balance);
        self.transactions.insert(key, amount);
        Ok(())
    }

    /// Takes `amount` out of the available funds and records it, negated,
    /// under `id`. Refused where the account is locked, `id` is already
    /// recorded, or the available funds are below `amount`.
    pub fn withdraw(&mut self, id: TransactionId, amount: Amount) -> (outcome: Result<
        (),
        TransactionError,
    >)
        requires
            old(self).wf(),
            amount >= 0,
        ensures
            final(self).wf(),
            match old(self)@.withdraw(id@, amount) {
                Ok(next) => outcome is Ok && final(self)@ == next,
                Err(e) => outcome == Err::<(), TransactionError>(e) && final(self)@ == old(self)@,
            },
    {
        if self.locked {
            return Err(TransactionError::AccountLocked);
        }
        let key: u32 = *id;
        if self.transactions.contains_key(&key) {
            return Err(TransactionError::DuplicateTransaction);
        }
        if (amount as Balance) > self.available {
            return Err(TransactionError::InsufficientFunds);
        }
        proof {
            self@.lemma_balances_fit();
        }
        self.available = self.available - (amount as Balance);
        self.total = self.total - (amount as Balance);
        self.transactions.insert(key, -amount);
        Ok(())
    }

    /// Freezes the funds of the transaction `id`: its recorded amount moves
    /// from the available funds to the held funds. For a withdrawal that
    /// amount is negative, so the held funds go below zero. Disputing an
    /// identifier the ledger never recorded succeeds and changes nothing.
    /// Refused where the account is locked, the transaction is under
    /// dispute or has been through one, or the available funds are below
    /// the recorded amount.
    pub fn dispute(&mut self, id: TransactionId) -> (outcome: Result<(), TransactionError>)
        requires
            old(self).wf(),
        ensures
            final(self).wf(),
            match old(self)@.dispute(id@) {
                Ok(next) => outcome is Ok && final(self)@ == next,
                Err(e) => outcome == Err::<(), TransactionError>(e) && final(self)@ == old(self)@,
            },
    {
        if self.locked {
            return Err(TransactionError::AccountLocked);
        }
        let key: u32 = *id;
        if self.in_dispute.contains(&key) {
            return Err(TransactionError::AlreadyDisputed);
        }
        if self.disputed.contains(&key) {
            return Err(TransactionError::AlreadySettled);
        }
        let amount: Balance = match self.transactions.get(&key) {
            Some(recorded) => *recorded as Balance,
            None => {
                return Ok(());
            },
        };
        if self.available < amount {
            return Err(TransactionError::InsufficientFunds);
        }
        proof {
            self@.lemma_balances_fit();
        }
        self.available = self.available - amount;
        self.held = self.held + amount;
        self.in_dispute.insert(key);
        Ok(())
    }

    /// Closes the dispute of the transaction `id` in the client's favour:
    /// its recorded amount moves back from the held funds to the available
    /// funds. Refused where the account is locked, the transaction is not
    /// under dispute, or taking a disputed withdrawal back out would leave
    /// the available funds below zero.
    pub fn resolve(&mut self, id: TransactionId) -> (outcome: Result<(), TransactionError>)
        requires
            old(self).wf(),
        ensures
            final(self).wf(),
            match old(self)@.resolve(id@) {
                Ok(next) => outcome is Ok && final(self)@ == next,
                Err(e) => outcome == Err::<(), TransactionError>(e) && final(self)@ == old(self)@,
            },
    {
        if self.locked {
            return Err(TransactionError::AccountLocked);
        }
        let key: u32 = *id;
        if !self.in_dispute.contains(&key) {
            return Err(TransactionError::NotDisputed);
        }
        let amount: Balance = match self.transactions.get(&key) {
            Some(recorded) => *recorded as Balance,
            None => unreached(),
        };
        if self.available < -amount {
            return Err(TransactionError::InsufficientFunds);
        }
        proof {
            self@.lemma_balances_fit();
        }
        self.held = self.held - amount;
        self.available = self.available + amount;
        self.in_dispute.remove(&key);
        self.disputed.insert(key);
        Ok(())
    }

    /// Closes the dispute of the transaction `id` against the client: its
    /// recorded amount leaves the held funds and the total, and the account
    /// is locked. Refused where the account is already locked or the
    /// transaction is not under dispute.
    pub fn chargeback(&mut self, id: TransactionId) -> (outcome: Result<(), TransactionError>)
        requires
            old(self).wf(),
        ensures
            final(self).wf(),
            match old(self)@.chargeback(id@) {
                Ok(next) => outcome is Ok && final(self)@ == next,
                Err(e) => outcome == Err::<(), TransactionError>(e) && final(self)@ == old(self)@,
            },
    {
        if self.locked {
            return Err(TransactionError::AccountLocked);
        }
        let key: u32 = *id;
        if !self.in_dispute.contains(&key) {
            return Err(TransactionError::NotDisputed);
        }
        let amount: Balance = match self.transactions.get(&key) {
            Some(recorded) => *recorded as Balance,
            None => unreached(),
        };
        proof {
            self@.lemma_balances_fit();
        }
        self.held = self.held - amount;
        self.total = self.total - amount;
        self.locked = true;
        self.in_dispute.remove(&key);
        self.disputed.insert(key);
        Ok(())
    }
}

} // verus!
