//! The Client struct, represents the state of the funds of an individual client's account.

use crate::account::lemma_after_is_valid;
use crate::account::lemma_claims_cover;
use crate::account::lemma_fresh_is_valid;
use crate::account::Account;
use crate::cents::Cents;
use crate::err::TransactionError;
use crate::transaction::DisputableTransaction;
use crate::transaction::DisputableTransactionType;
use crate::transaction::Transaction;
use crate::transaction::TransactionId;
use crate::transaction::TransactionType;
use std::collections::HashMap;
use std::collections::HashSet;
use vstd::prelude::*;

verus! {

broadcast use vstd::std_specs::hash::group_hash_axioms;

pub type ClientId = u16;

/// The account of one client: its funds, and the deposits and withdrawals
/// that can still be disputed.
pub struct Client {
    available: Cents,
    held: Cents,
    frozen: bool,
    transactions: HashMap<TransactionId, DisputableTransaction>,
    disputes: HashSet<TransactionId>,
    chargebacks: HashSet<TransactionId>,
}

impl View for Client {
    type V = Account;

    closed spec fn view(&self) -> Account {
        Account {
            available: self.available.0 as int,
            held: self.held.0 as int,
            frozen: self.frozen,
            history: self.transactions@,
            disputed: self.disputes@,
            charged_back: self.chargebacks@,
        }
    }
}

impl Client {
    /// The account obeys its invariant.
    pub open spec fn wf(&self) -> bool {
        self@.valid()
    }

    /// An account without funds or history, not frozen.
    pub fn new() -> (client: Self)
        ensures
            client@ == Account::fresh(),
            client.wf(),
    {
        proof {
            lemma_fresh_is_valid();
        }
        Self {
            available: Cents::new(0),
            held: Cents::new(0),
            frozen: false,
            transactions: HashMap::new(),
            disputes: HashSet::new(),
            chargebacks: HashSet::new(),
        }
    }

    /// The funds that the client may withdraw.
    pub fn available(&self) -> (available: Cents)
        ensures
            available.0 == self@.available,
    {
        self.available
    }

    /// The funds set aside by open disputes.
    pub fn held(&self) -> (held: Cents)
        ensures
            held.0 == self@.held,
    {
        self.held
    }

    /// Available and held funds together.
    pub fn total(&self) -> (total: Cents)
        requires
            self.wf(),
        ensures
            total.0 == self@.total(),
    {
        (self.available + self.held).unwrap()
    }

    /// Whether a chargeback has frozen the account.
    pub fn frozen(&self) -> (frozen: bool)
        ensures
            frozen == self@.frozen,
    {
        self.frozen
    }

    /// Whether applying `tx` would take the total of the account out of 64
    /// bits: then `handle_tx` must not be called.
    pub fn overflows(&self, tx: &Transaction) -> (b: bool)
        requires
            self.wf(),
        ensures
            b == self@.overflows(*tx),
    {
        let total = self.total();
        match tx.transaction_type {
            TransactionType::Deposit => match tx.amount {
                Some(amount) => !self.transactions.contains_key(&tx.tx) && (total + amount).is_none(),
                None => false,
            },
            TransactionType::Dispute => match self.transactions.get(&tx.tx) {
                Some(disputed) => match disputed.transaction_type {
                    DisputableTransactionType::Deposit => false,
                    DisputableTransactionType::Withdrawal => !self.disputes.contains(&tx.tx)
                        && !self.chargebacks.contains(&tx.tx) && (total + disputed.amount).is_none(),
                },
                None => false,
            },
            _ => {
                proof {
                    if self@.disputed.contains(tx.tx) {
                        lemma_claims_cover(self@, tx.tx);
                    }
                }
                false
            },
        }
    }

    /// Applies one record to the account and tells whether it was applied. A
    /// record that is rejected changes nothing. The record must not take the
    /// total out of 64 bits, which `overflows` tells beforehand.
    pub fn handle_tx(&mut self, tx: Transaction) -> (r: Result<(), TransactionError>)
        requires
            old(self).wf(),
            !old(self)@.overflows(tx),
        ensures
            final(self).wf(),
            r == old(self)@.verdict(tx),
            final(self)@ == old(self)@.after(tx),
    {
        proof {
            lemma_after_is_valid(self@, tx);
        }
        match tx.transaction_type {
            TransactionType::Deposit => self.handle_deposit(tx),
            TransactionType::Withdrawal => self.handle_withdrawal(tx),
            TransactionType::Dispute => self.handle_dispute(tx),
            TransactionType::Resolve => self.handle_resolve(tx),
            TransactionType::Chargeback => self.handle_chargeback(tx),
        }
    }

    fn handle_deposit(&mut self, tx: Transaction) -> (r: Result<(), TransactionError>)
        requires
            old(self).wf(),
            tx.transaction_type == TransactionType::Deposit,
            !old(self)@.overflows(tx),
        ensures
            r == old(self)@.verdict(tx),
            final(self)@ == old(self)@.after(tx),
    {
        let id = tx.tx;
        let tx: DisputableTransaction = tx.try_into()?;
        let amount = tx.amount;
        // update below must be atomic
        self.insert_disputable_tx(id, tx)?;
        self.available = (self.available + amount).unwrap();
        Ok(())
    }

    fn handle_withdrawal(&mut self, tx: Transaction) -> (r: Result<(), TransactionError>)
        requires
            old(self).wf(),
            tx.transaction_type == TransactionType::Withdrawal,
        ensures
            r == old(self)@.verdict(tx),
            final(self)@ == old(self)@.after(tx),
    {
        if self.frozen {
            return Err(TransactionError::AccountFrozen);
        }
        let id = tx.tx;
        let tx: DisputableTransaction = tx.try_into()?;
        let new_available = self.available_after_debit(tx.amount)?;
        // update below must be atomic
        self.insert_disputable_tx(id, tx)?;
        self.available = new_available;
        Ok(())
    }

    fn handle_dispute(&mut self, tx: Transaction) -> (r: Result<(), TransactionError>)
        requires
            old(self).wf(),
            tx.transaction_type == TransactionType::Dispute,
            !old(self)@.overflows(tx),
        ensures
            r == old(self)@.verdict(tx),
            final(self)@ == old(self)@.after(tx),
    {
        let id = tx.tx;
        let disputed = self.get_disputable_transaction(id)?;
        let amount = disputed.amount;
        match disputed.transaction_type {
            DisputableTransactionType::Deposit => self.handle_deposit_dispute(id, amount),
            DisputableTransactionType::Withdrawal => self.handle_withdrawal_dispute(id, amount),
        }
    }

    fn handle_deposit_dispute(&mut self, deposit_id: TransactionId, amount: Cents) -> (r: Result<
        (),
        TransactionError,
    >)
        requires
            old(self).wf(),
            old(self)@.history.contains_key(deposit_id),
            old(self)@.is_deposit(deposit_id),
            old(self)@.history[deposit_id].amount == amount,
        ensures
            r == old(self)@.dispute_verdict(deposit_id),
            final(self)@ == if r is Ok {
                old(self)@.after_dispute(deposit_id)
            } else {
                old(self)@
            },
    {
        self.check_disputable(deposit_id)?;
        let new_available = self.available_after_debit(amount)?;
        // update below must be atomic
        self.disputes.insert(deposit_id);
        self.available = new_available;
        self.held = (self.held + amount).unwrap();
        Ok(())
    }

    fn handle_withdrawal_dispute(
        &mut self,
        withdrawal_id: TransactionId,
        amount: Cents,
    ) -> (r: Result<(), TransactionError>)
        requires
            old(self).wf(),
            old(self)@.history.contains_key(withdrawal_id),
            !old(self)@.is_deposit(withdrawal_id),
            old(self)@.history[withdrawal_id].amount == amount,
            old(self)@.dispute_verdict(withdrawal_id) is Ok ==> old(self)@.after_dispute(
                withdrawal_id,
            ).total() <= u64::MAX,
        ensures
            r == old(self)@.dispute_verdict(withdrawal_id),
            final(self)@ == if r is Ok {
                old(self)@.after_dispute(withdrawal_id)
            } else {
                old(self)@
            },
    {
        self.insert_dispute(withdrawal_id)?;
        self.held = (self.held + amount).unwrap();
        Ok(())
    }

    fn handle_resolve(&mut self, tx: Transaction) -> (r: Result<(), TransactionError>)
        requires
            old(self).wf(),
            tx.transaction_type == TransactionType::Resolve,
        ensures
            r == old(self)@.verdict(tx),
            final(self)@ == old(self)@.after(tx),
    {
        let id = tx.tx;
        let disputed = self.get_disputable_transaction(id)?;
        let amount = disputed.amount;
        if !self.disputes.contains(&id) {
            return Err(TransactionError::TransactionNotUnderDispute(id));
        }
        match disputed.transaction_type {
            DisputableTransactionType::Deposit => self.handle_deposit_resolve(id, amount),
            DisputableTransactionType::Withdrawal => self.handle_withdrawal_resolve(id, amount),
        }
        Ok(())
    }

    fn handle_deposit_resolve(&mut self, deposit_id: TransactionId, amount: Cents)
        requires
            old(self).wf(),
            old(self)@.disputed.contains(deposit_id),
            old(self)@.is_deposit(deposit_id),
            old(self)@.history[deposit_id].amount == amount,
        ensures
            final(self)@ == old(self)@.after_resolve(deposit_id),
    {
        proof {
            lemma_claims_cover(self@, deposit_id);
        }
        self.held = (self.held - amount).unwrap();
        self.available = (self.available + amount).unwrap();
        self.disputes.remove(&deposit_id);
    }

    fn handle_withdrawal_resolve(&mut self, withdrawal_id: TransactionId, amount: Cents)
        requires
            old(self).wf(),
            old(self)@.disputed.contains(withdrawal_id),
            !old(self)@.is_deposit(withdrawal_id),
            old(self)@.history[withdrawal_id].amount == amount,
        ensures
            final(self)@ == old(self)@.after_resolve(withdrawal_id),
    {
        proof {
            lemma_claims_cover(self@, withdrawal_id);
        }
        self.held = (self.held - amount).unwrap();
        self.disputes.remove(&withdrawal_id);
    }

    fn handle_chargeback(&mut self, tx: Transaction) -> (r: Result<(), TransactionError>)
        requires
            old(self).wf(),
            tx.transaction_type == TransactionType::Chargeback,
        ensures
            r == old(self)@.verdict(tx),
            final(self)@ == old(self)@.after(tx),
    {
        let id = tx.tx;
        let disputed = self.get_disputable_transaction(id)?;
        let amount = disputed.amount;
        if !self.disputes.contains(&id) {
            return Err(TransactionError::TransactionNotUnderDispute(id));
        }
        match disputed.transaction_type {
            DisputableTransactionType::Deposit => self.handle_deposit_chargeback(id, amount),
            DisputableTransactionType::Withdrawal => self.handle_withdrawal_chargeback(id, amount),
        }
        self.frozen = true;
        Ok(())
    }

    fn handle_deposit_chargeback(&mut self, deposit_id: TransactionId, amount: Cents)
        requires
            old(self).wf(),
            old(self)@.disputed.contains(deposit_id),
            old(self)@.is_deposit(deposit_id),
            old(self)@.history[deposit_id].amount == amount,
        ensures
            final(self)@ == (Account { frozen: old(self)@.frozen, ..old(self)@.after_chargeback(deposit_id) }),
    {
        // Frozen accounts are not allowed to withdraw via deposit dispute chargeback
        if !self.frozen {
            proof {
                lemma_claims_cover(self@, deposit_id);
            }
            self.held = (self.held - amount).unwrap();
        }
        self.disputes.remove(&deposit_id);
        self.chargebacks.insert(deposit_id);
    }

    fn handle_withdrawal_chargeback(&mut self, withdrawal_id: TransactionId, amount: Cents)
        requires
            old(self).wf(),
            old(self)@.disputed.contains(withdrawal_id),
            !old(self)@.is_deposit(withdrawal_id),
            old(self)@.history[withdrawal_id].amount == amount,
        ensures
            final(self)@ == (Account {
                frozen: old(self)@.frozen,
                ..old(self)@.after_chargeback(withdrawal_id)
            }),
    {
        proof {
            lemma_claims_cover(self@, withdrawal_id);
        }
        self.available = (self.available + amount).unwrap();
        self.held = (self.held - amount).unwrap();
        self.disputes.remove(&withdrawal_id);
        self.chargebacks.insert(withdrawal_id);
    }

    fn insert_disputable_tx(&mut self, id: TransactionId, tx: DisputableTransaction) -> (r: Result<
        (),
        TransactionError,
    >)
        ensures
            old(self)@.history.contains_key(id) ==> r == Err::<(), TransactionError>(
                TransactionError::DuplicateTransaction(id),
            ) && final(self)@ == old(self)@,
            !old(self)@.history.contains_key(id) ==> r is Ok && final(self)@ == (Account {
                history: old(self)@.history.insert(id, tx),
                ..old(self)@
            }),
    {
        if self.transactions.contains_key(&id) {
            return Err(TransactionError::DuplicateTransaction(id));
        }
        self.transactions.insert(id, tx);
        Ok(())
    }

    fn insert_dispute(&mut self, id: TransactionId) -> (r: Result<(), TransactionError>)
        ensures
            r == old(self)@.disputable(id),
            final(self)@ == if r is Ok {
                Account { disputed: old(self)@.disputed.insert(id), ..old(self)@ }
            } else {
                old(self)@
            },
    {
        self.check_disputable(id)?;
        self.disputes.insert(id);
        Ok(())
    }

    /// Tells, without marking anything, whether a dispute may be opened on `id`
    fn check_disputable(&self, id: TransactionId) -> (r: Result<(), TransactionError>)
        ensures
            r == self@.disputable(id),
    {
        if self.disputes.contains(&id) {
            return Err(TransactionError::DuplicateTransaction(id));
        }
        if self.chargebacks.contains(&id) {
            return Err(TransactionError::AlreadyChargedBack(id));
        }
        Ok(())
    }

    /// Calculates, but does not update, the available balance after a debit
    fn available_after_debit(&self, debit: Cents) -> (r: Result<Cents, TransactionError>)
        ensures
            r == if debit.0 > self@.available {
                Err::<Cents, TransactionError>(self@.shortfall(debit))
            } else {
                Ok(Cents((self@.available - debit.0) as u64))
            },
    {
        match self.available - debit {
            Some(left) => Ok(left),
            None => Err(
                TransactionError::InsufficientBalance { available: self.available, requested: debit },
            ),
        }
    }

    fn get_disputable_transaction(&self, id: TransactionId) -> (r: Result<
        &DisputableTransaction,
        TransactionError,
    >)
        ensures
            r == if self@.history.contains_key(id) {
                Ok::<&DisputableTransaction, TransactionError>(&self@.history[id])
            } else {
                Err(TransactionError::TransactionDoesNotExist(id))
            },
    {
        match self.transactions.get(&id) {
            Some(tx) => Ok(tx),
            None => Err(TransactionError::TransactionDoesNotExist(id)),
        }
    }
}

} // verus!
