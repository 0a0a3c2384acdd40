//! The state machine of one account, as mathematics: what each kind of
//! transaction answers and what it leaves behind.

use crate::cents::Cents;
use crate::err::TransactionError;
use crate::transaction::DisputableTransaction;
use crate::transaction::DisputableTransactionType;
use crate::transaction::Transaction;
use crate::transaction::TransactionId;
use crate::transaction::TransactionType;
use vstd::prelude::*;

verus! {

/// The number of transaction ids there are.
pub const ID_COUNT: u64 = 0x1_0000_0000;

/// The state of one client's account.
pub ghost struct Account {
    /// Funds that the client may withdraw.
    pub available: int,
    /// Funds set aside by open disputes.
    pub held: int,
    /// Set by the first chargeback, never cleared.
    pub frozen: bool,
    /// Every deposit and withdrawal that was applied, by id.
    pub history: Map<TransactionId, DisputableTransaction>,
    /// The ids with an open dispute.
    pub disputed: Set<TransactionId>,
    /// The ids that were charged back.
    pub charged_back: Set<TransactionId>,
}

impl Account {
    /// The account of a client that was never seen.
    pub open spec fn fresh() -> Account {
        Account {
            available: 0,
            held: 0,
            frozen: false,
            history: Map::empty(),
            disputed: Set::empty(),
            charged_back: Set::empty(),
        }
    }

    /// All funds of the account.
    pub open spec fn total(self) -> int {
        self.available + self.held
    }

    /// The amount of the recorded transaction `id`.
    pub open spec fn amount_of(self, id: TransactionId) -> int {
        self.history[id].amount.0 as int
    }

    /// The recorded transaction `id` is a deposit.
    pub open spec fn is_deposit(self, id: TransactionId) -> bool {
        self.history[id].transaction_type == DisputableTransactionType::Deposit
    }

    /// What the open dispute on `id`, if there is one, sets aside.
    pub open spec fn claim(self, id: TransactionId) -> int {
        if self.disputed.contains(id) {
            self.amount_of(id)
        } else {
            0
        }
    }

    /// What the open disputes on ids below `n` set aside together.
    pub open spec fn claims_below(self, n: nat) -> int
        decreases n,
    {
        if n == 0 {
            0
        } else {
            self.claims_below((n - 1) as nat) + self.claim((n - 1) as TransactionId)
        }
    }

    /// What all open disputes set aside together.
    pub open spec fn claims(self) -> int {
        self.claims_below(ID_COUNT as nat)
    }

    /// The invariant of an account: no balance is negative, the total fits in
    /// 64 bits, disputes and chargebacks name recorded transactions, no
    /// transaction is both, and the held funds cover every open dispute.
    pub open spec fn valid(self) -> bool {
        &&& 0 <= self.available
        &&& 0 <= self.held
        &&& self.total() <= u64::MAX
        &&& self.disputed.subset_of(self.history.dom())
        &&& self.charged_back.subset_of(self.history.dom())
        &&& self.disputed.disjoint(self.charged_back)
        &&& self.claims() <= self.held
    }

    /// The error of a debit of `requested` that the available funds do not
    /// cover.
    pub open spec fn shortfall(self, requested: Cents) -> TransactionError {
        TransactionError::InsufficientBalance {
            available: Cents(self.available as u64),
            requested,
        }
    }

    /// The account after the deposit `id` of `amount`.
    pub open spec fn after_deposit(self, id: TransactionId, amount: Cents) -> Account {
        Account {
            available: self.available + amount.0,
            history: self.history.insert(
                id,
                DisputableTransaction {
                    transaction_type: DisputableTransactionType::Deposit,
                    amount,
                },
            ),
            ..self
        }
    }

    /// The account after the withdrawal `id` of `amount`.
    pub open spec fn after_withdrawal(self, id: TransactionId, amount: Cents) -> Account {
        Account {
            available: self.available - amount.0,
            history: self.history.insert(
                id,
                DisputableTransaction {
                    transaction_type: DisputableTransactionType::Withdrawal,
                    amount,
                },
            ),
            ..self
        }
    }

    /// The account after a dispute is opened on `id`: a deposit's amount moves
    /// from available to held, a withdrawal's amount is claimed back into
    /// held.
    pub open spec fn after_dispute(self, id: TransactionId) -> Account {
        Account {
            available: if self.is_deposit(id) {
                self.available - self.amount_of(id)
            } else {
                self.available
            },
            held: self.held + self.amount_of(id),
            disputed: self.disputed.insert(id),
            ..self
        }
    }

    /// The account after the dispute on `id` is resolved: a deposit's amount
    /// moves back from held to available, a withdrawal's claim is dropped.
    pub open spec fn after_resolve(self, id: TransactionId) -> Account {
        Account {
            available: if self.is_deposit(id) {
                self.available + self.amount_of(id)
            } else {
                self.available
            },
            held: self.held - self.amount_of(id),
            disputed: self.disputed.remove(id),
            ..self
        }
    }

    /// The account after the dispute on `id` ends in a chargeback. A
    /// deposit's amount leaves held, unless the account was frozen already:
    /// then the balances stay. A withdrawal's amount returns from held to
    /// available, frozen or not. The account is frozen from then on.
    pub open spec fn after_chargeback(self, id: TransactionId) -> Account {
        Account {
            available: if self.is_deposit(id) {
                self.available
            } else {
                self.available + self.amount_of(id)
            },
            held: if self.is_deposit(id) && self.frozen {
                self.held
            } else {
                self.held - self.amount_of(id)
            },
            frozen: true,
            disputed: self.disputed.remove(id),
            charged_back: self.charged_back.insert(id),
            ..self
        }
    }

    /// What a deposit record answers.
    pub open spec fn deposit_verdict(self, id: TransactionId, amount: Option<Cents>) -> Result<
        (),
        TransactionError,
    > {
        if amount is None {
            Err(TransactionError::NoAmount)
        } else if self.history.contains_key(id) {
            Err(TransactionError::DuplicateTransaction(id))
        } else {
            Ok(())
        }
    }

    /// What a withdrawal record answers.
    pub open spec fn withdrawal_verdict(self, id: TransactionId, amount: Option<Cents>) -> Result<
        (),
        TransactionError,
    > {
        if self.frozen {
            Err(TransactionError::AccountFrozen)
        } else {
            match amount {
                None => Err(TransactionError::NoAmount),
                Some(requested) => if requested.0 > self.available {
                    Err(self.shortfall(requested))
                } else if self.history.contains_key(id) {
                    Err(TransactionError::DuplicateTransaction(id))
                } else {
                    Ok(())
                },
            }
        }
    }

    /// Whether a dispute may be opened on `id`: not while one is open, and not
    /// after a chargeback.
    pub open spec fn disputable(self, id: TransactionId) -> Result<(), TransactionError> {
        if self.disputed.contains(id) {
            Err(TransactionError::DuplicateTransaction(id))
        } else if self.charged_back.contains(id) {
            Err(TransactionError::AlreadyChargedBack(id))
        } else {
            Ok(())
        }
    }

    /// What a dispute record answers. The transaction must be known, then
    /// free for a dispute; only then is a deposit held against the available
    /// funds.
    pub open spec fn dispute_verdict(self, id: TransactionId) -> Result<(), TransactionError> {
        if !self.history.contains_key(id) {
            Err(TransactionError::TransactionDoesNotExist(id))
        } else if self.disputable(id) is Err {
            self.disputable(id)
        } else if self.is_deposit(id) && self.amount_of(id) > self.available {
            Err(self.shortfall(self.history[id].amount))
        } else {
            Ok(())
        }
    }

    /// What a resolve or a chargeback record answers.
    pub open spec fn settlement_verdict(self, id: TransactionId) -> Result<(), TransactionError> {
        if !self.history.contains_key(id) {
            Err(TransactionError::TransactionDoesNotExist(id))
        } else if !self.disputed.contains(id) {
            Err(TransactionError::TransactionNotUnderDispute(id))
        } else {
            Ok(())
        }
    }

    /// What the record `tx` answers: `Ok` when it is applied, else the reason
    /// why it is not.
    pub open spec fn verdict(self, tx: Transaction) -> Result<(), TransactionError> {
        match tx.transaction_type {
            TransactionType::Deposit => self.deposit_verdict(tx.tx, tx.amount),
            TransactionType::Withdrawal => self.withdrawal_verdict(tx.tx, tx.amount),
            TransactionType::Dispute => self.dispute_verdict(tx.tx),
            TransactionType::Resolve => self.settlement_verdict(tx.tx),
            TransactionType::Chargeback => self.settlement_verdict(tx.tx),
        }
    }

    /// The account after the record `tx` is applied.
    pub open spec fn applied(self, tx: Transaction) -> Account
        recommends
            self.verdict(tx) is Ok,
    {
        match tx.transaction_type {
            TransactionType::Deposit => self.after_deposit(tx.tx, tx.amount->0),
            TransactionType::Withdrawal => self.after_withdrawal(tx.tx, tx.amount->0),
            TransactionType::Dispute => self.after_dispute(tx.tx),
            TransactionType::Resolve => self.after_resolve(tx.tx),
            TransactionType::Chargeback => self.after_chargeback(tx.tx),
        }
    }

    /// The account after the record `tx` was handled: a record that is not
    /// applied changes nothing.
    pub open spec fn after(self, tx: Transaction) -> Account {
        if self.verdict(tx) is Ok {
            self.applied(tx)
        } else {
            self
        }
    }

    /// Applying `tx` would take the total of the account out of 64 bits.
    pub open spec fn overflows(self, tx: Transaction) -> bool {
        self.verdict(tx) is Ok && self.applied(tx).total() > u64::MAX
    }

    /// The account after the records `txs` were handled in order.
    pub open spec fn after_all(self, txs: Seq<Transaction>) -> Account
        decreases txs.len(),
    {
        if txs.len() == 0 {
            self
        } else {
            self.after_all(txs.drop_last()).after(txs.last())
        }
    }

    /// None of the records `txs`, handled in order, would take the total out
    /// of 64 bits.
    pub open spec fn never_overflows(self, txs: Seq<Transaction>) -> bool
        decreases txs.len(),
    {
        txs.len() == 0 || (self.never_overflows(txs.drop_last()) && !self.after_all(
            txs.drop_last(),
        ).overflows(txs.last()))
    }
}

/// Two accounts whose open disputes set aside the same for every id but
/// `id` differ in their claims by what they set aside for `id`.
pub proof fn lemma_claims_differ_at(a: Account, b: Account, id: TransactionId, n: nat)
    requires
        n <= ID_COUNT,
        forall|j: TransactionId| j != id ==> a.claim(j) == b.claim(j),
    ensures
        a.claims_below(n) + (if id < n {
            b.claim(id)
        } else {
            0
        }) == b.claims_below(n) + (if id < n {
            a.claim(id)
        } else {
            0
        }),
    decreases n,
{
    if n > 0 {
        lemma_claims_differ_at(a, b, id, (n - 1) as nat);
    }
}

/// Open disputes never set aside a negative sum.
pub proof fn lemma_claims_nonnegative(a: Account, n: nat)
    ensures
        0 <= a.claims_below(n),
    decreases n,
{
    if n > 0 {
        lemma_claims_nonnegative(a, (n - 1) as nat);
    }
}

/// Without open disputes nothing is set aside.
pub proof fn lemma_no_disputes_no_claims(a: Account, n: nat)
    requires
        a.disputed == Set::<TransactionId>::empty(),
    ensures
        a.claims_below(n) == 0,
    decreases n,
{
    if n > 0 {
        lemma_no_disputes_no_claims(a, (n - 1) as nat);
    }
}

/// The account of a client that was never seen obeys the invariant.
pub proof fn lemma_fresh_is_valid()
    ensures
        Account::fresh().valid(),
{
    lemma_no_disputes_no_claims(Account::fresh(), ID_COUNT as nat);
}

/// The claims of an account cover the amount of each open dispute.
pub proof fn lemma_claims_cover(a: Account, id: TransactionId)
    requires
        a.disputed.contains(id),
    ensures
        a.amount_of(id) <= a.claims(),
{
    let b = Account { disputed: a.disputed.remove(id), ..a };
    lemma_claims_differ_at(a, b, id, ID_COUNT as nat);
    lemma_claims_nonnegative(b, ID_COUNT as nat);
}

/// A record that does not overflow the total keeps a valid account valid.
pub proof fn lemma_after_is_valid(a: Account, tx: Transaction)
    requires
        a.valid(),
        !a.overflows(tx),
    ensures
        a.after(tx).valid(),
{
    let b = a.after(tx);
    if a.verdict(tx) is Ok {
        let id = tx.tx;
        lemma_claims_differ_at(a, b, id, ID_COUNT as nat);
        if a.disputed.contains(id) {
            lemma_claims_cover(a, id);
        }
    }
}

/// Records that never overflow the total keep a valid account valid, however
/// many they are.
pub proof fn lemma_after_all_is_valid(a: Account, txs: Seq<Transaction>)
    requires
        a.valid(),
        a.never_overflows(txs),
    ensures
        a.after_all(txs).valid(),
    decreases txs.len(),
{
    if txs.len() > 0 {
        lemma_after_all_is_valid(a, txs.drop_last());
        lemma_after_is_valid(a.after_all(txs.drop_last()), txs.last());
    }
}

/// While an account is valid, only a deposit or the dispute of a withdrawal
/// can overflow its total.
pub proof fn lemma_what_overflows(a: Account, tx: Transaction)
    requires
        a.valid(),
        a.overflows(tx),
    ensures
        tx.transaction_type == TransactionType::Deposit || (tx.transaction_type
            == TransactionType::Dispute && !a.is_deposit(tx.tx)),
{
    if a.disputed.contains(tx.tx) {
        lemma_claims_cover(a, tx.tx);
    }
}

/// A deposit with a new id is applied: it adds exactly its amount to the
/// available funds, is recorded under its id, and leaves everything else as it
/// was. One that reuses an id is rejected and changes nothing; so is the same
/// deposit when it comes a second time.
pub proof fn lemma_deposit(a: Account, tx: Transaction)
    requires
        tx.transaction_type == TransactionType::Deposit,
        tx.amount is Some,
    ensures
        !a.history.contains_key(tx.tx) ==> {
            &&& a.verdict(tx) == Ok::<(), TransactionError>(())
            &&& a.after(tx) == (Account {
                available: a.available + tx.amount.unwrap().0,
                history: a.history.insert(
                    tx.tx,
                    DisputableTransaction {
                        transaction_type: DisputableTransactionType::Deposit,
                        amount: tx.amount.unwrap(),
                    },
                ),
                ..a
            })
        },
        a.history.contains_key(tx.tx) ==> {
            &&& a.verdict(tx) == Err::<(), TransactionError>(
                TransactionError::DuplicateTransaction(tx.tx),
            )
            &&& a.after(tx) == a
        },
        a.after(tx).verdict(tx) == Err::<(), TransactionError>(
            TransactionError::DuplicateTransaction(tx.tx),
        ),
        a.after(tx).after(tx) == a.after(tx),
{
}

/// A withdrawal of more than the available funds changes nothing, whatever
/// its id, and on an account that is not frozen it reports the shortfall.
pub proof fn lemma_overdraft(a: Account, tx: Transaction)
    requires
        tx.transaction_type == TransactionType::Withdrawal,
        tx.amount is Some,
        tx.amount.unwrap().0 > a.available,
    ensures
        a.after(tx) == a,
        !a.frozen ==> a.verdict(tx) == Err::<(), TransactionError>(
            TransactionError::InsufficientBalance {
                available: Cents(a.available as u64),
                requested: tx.amount.unwrap(),
            },
        ),
{
}

/// A frozen account rejects every withdrawal, whatever its amount and id, and
/// the withdrawal changes nothing.
pub proof fn lemma_frozen_rejects_withdrawals(a: Account, tx: Transaction)
    requires
        a.frozen,
        tx.transaction_type == TransactionType::Withdrawal,
    ensures
        a.verdict(tx) == Err::<(), TransactionError>(TransactionError::AccountFrozen),
        a.after(tx) == a,
{
}

/// Disputing a deposit that is free for a dispute, but whose funds are no
/// longer available, reports the shortfall and changes nothing: the deposit
/// is not under dispute afterwards.
pub proof fn lemma_dispute_of_spent_deposit(a: Account, tx: Transaction)
    requires
        tx.transaction_type == TransactionType::Dispute,
        a.history.contains_key(tx.tx),
        a.is_deposit(tx.tx),
        !a.disputed.contains(tx.tx),
        !a.charged_back.contains(tx.tx),
        a.amount_of(tx.tx) > a.available,
    ensures
        a.verdict(tx) == Err::<(), TransactionError>(
            TransactionError::InsufficientBalance {
                available: Cents(a.available as u64),
                requested: a.history[tx.tx].amount,
            },
        ),
        a.after(tx) == a,
{
}

/// A dispute on a recorded transaction that is under dispute is rejected as a
/// duplicate, and one on a transaction that was charged back as charged back,
/// whatever the kind of the transaction and whatever the funds. Both change
/// nothing. So a dispute that was applied is a duplicate when it comes again.
pub proof fn lemma_no_second_dispute(a: Account, tx: Transaction)
    requires
        tx.transaction_type == TransactionType::Dispute,
        a.history.contains_key(tx.tx),
    ensures
        a.disputed.contains(tx.tx) ==> a.verdict(tx) == Err::<(), TransactionError>(
            TransactionError::DuplicateTransaction(tx.tx),
        ),
        !a.disputed.contains(tx.tx) && a.charged_back.contains(tx.tx) ==> a.verdict(tx) == Err::<
            (),
            TransactionError,
        >(TransactionError::AlreadyChargedBack(tx.tx)),
        a.disputed.contains(tx.tx) || a.charged_back.contains(tx.tx) ==> a.after(tx) == a,
        a.verdict(tx) is Ok ==> a.after(tx).verdict(tx) == Err::<(), TransactionError>(
            TransactionError::DuplicateTransaction(tx.tx),
        ) && a.after(tx).after(tx) == a.after(tx),
{
}

/// A chargeback of a recorded transaction under dispute is applied and
/// closes the dispute for good: a dispute on the same transaction is rejected
/// afterwards as charged back, and changes nothing.
pub proof fn lemma_no_dispute_after_chargeback(
    a: Account,
    chargeback: Transaction,
    dispute: Transaction,
)
    requires
        chargeback.transaction_type == TransactionType::Chargeback,
        dispute.transaction_type == TransactionType::Dispute,
        chargeback.tx == dispute.tx,
        a.history.contains_key(chargeback.tx),
        a.disputed.contains(chargeback.tx),
    ensures
        a.verdict(chargeback) == Ok::<(), TransactionError>(()),
        !a.after(chargeback).disputed.contains(dispute.tx),
        a.after(chargeback).charged_back.contains(dispute.tx),
        a.after(chargeback).verdict(dispute) == Err::<(), TransactionError>(
            TransactionError::AlreadyChargedBack(dispute.tx),
        ),
        a.after(chargeback).after(dispute) == a.after(chargeback),
{
}

/// A resolve or a chargeback of a transaction without open dispute is
/// rejected and changes nothing; a rejected chargeback does not freeze.
pub proof fn lemma_settlement_needs_dispute(a: Account, tx: Transaction)
    requires
        tx.transaction_type == TransactionType::Resolve || tx.transaction_type
            == TransactionType::Chargeback,
        !a.disputed.contains(tx.tx),
    ensures
        a.verdict(tx) == if a.history.contains_key(tx.tx) {
            Err::<(), TransactionError>(TransactionError::TransactionNotUnderDispute(tx.tx))
        } else {
            Err(TransactionError::TransactionDoesNotExist(tx.tx))
        },
        a.after(tx) == a,
{
}

/// No record thaws a frozen account.
pub proof fn lemma_frozen_stays(a: Account, txs: Seq<Transaction>)
    requires
        a.frozen,
    ensures
        a.after_all(txs).frozen,
    decreases txs.len(),
{
    if txs.len() > 0 {
        lemma_frozen_stays(a, txs.drop_last());
    }
}

/// A chargeback of a recorded transaction under dispute is applied, whatever
/// the kind of the transaction and whether or not the account was frozen, and
/// freezes the account for good: whatever records follow, a withdrawal after
/// them is rejected, the account being frozen.
pub proof fn lemma_chargeback_freezes(
    a: Account,
    chargeback: Transaction,
    txs: Seq<Transaction>,
    withdrawal: Transaction,
)
    requires
        chargeback.transaction_type == TransactionType::Chargeback,
        a.history.contains_key(chargeback.tx),
        a.disputed.contains(chargeback.tx),
        withdrawal.transaction_type == TransactionType::Withdrawal,
    ensures
        a.verdict(chargeback) == Ok::<(), TransactionError>(()),
        a.after(chargeback).frozen,
        a.after(chargeback).after_all(txs).frozen,
        a.after(chargeback).after_all(txs).verdict(withdrawal) == Err::<(), TransactionError>(
            TransactionError::AccountFrozen,
        ),
        a.after(chargeback).after_all(txs).after(withdrawal) == a.after(chargeback).after_all(txs),
{
    lemma_frozen_stays(a.after(chargeback), txs);
}

/// A record that is rejected changes nothing.
pub proof fn lemma_rejected_changes_nothing(a: Account, tx: Transaction)
    requires
        a.verdict(tx) is Err,
    ensures
        a.after(tx) == a,
{
}

} // verus!
