//! Error types.

use crate::cents::Cents;
use crate::transaction::TransactionId;
use crate::transaction::TransactionType;
use vstd::prelude::*;

verus! {

/// Why a transaction was not applied.
#[derive(Debug, Copy, Clone, PartialEq, Eq)]
pub enum TransactionError {
    /// A debit asked for more than the available funds.
    InsufficientBalance { available: Cents, requested: Cents },
    /// A deposit or withdrawal reused an id, or a dispute was issued twice.
    DuplicateTransaction(TransactionId),
    /// A dispute, resolve or chargeback named an id that the account has not seen.
    TransactionDoesNotExist(TransactionId),
    /// A resolve or chargeback named a transaction with no open dispute.
    TransactionNotUnderDispute(TransactionId),
    /// Only deposits and withdrawals can be disputed.
    TransactionIndisputable(TransactionType),
    /// A dispute named a transaction that was already charged back.
    AlreadyChargedBack(TransactionId),
    /// A deposit or withdrawal came without an amount.
    NoAmount,
    /// A withdrawal was attempted on a frozen account.
    AccountFrozen,
}

} // verus!
