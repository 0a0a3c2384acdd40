//! Struct representing a transaction of the 5 different transaction types.

use crate::cents::parse_spec;
use crate::cents::Cents;
use crate::client::ClientId;
use crate::digits::read_unsigned;
use crate::digits::unsigned_value;
use crate::err::TransactionError;
use crate::text::same_text;
use vstd::prelude::*;
use vstd::std_specs::convert::TryFromSpecImpl;

verus! {

pub type TransactionId = u32;

/// The five kinds of record.
#[derive(Debug, Copy, Clone, PartialEq, Eq, Structural)]
pub enum TransactionType {
    Deposit,
    Withdrawal,
    Dispute,
    Resolve,
    Chargeback,
}

/// One incoming record.
#[derive(Debug, Copy, Clone, PartialEq, Eq)]
pub struct Transaction {
    pub transaction_type: TransactionType,
    pub client: ClientId,
    pub tx: TransactionId,
    pub amount: Option<Cents>,
}

/// The two kinds of record that can be disputed.
#[derive(Debug, Copy, Clone, PartialEq, Eq, Structural)]
pub enum DisputableTransactionType {
    Deposit,
    Withdrawal,
}

/// What an account keeps of a deposit or withdrawal, so that it can be
/// disputed later.
#[derive(Debug, Copy, Clone)]
pub struct DisputableTransaction {
    pub transaction_type: DisputableTransactionType,
    pub amount: Cents,
}

/// The disputable kind of a transaction type: only deposits and withdrawals
/// have one.
pub open spec fn disputable_type_of(t: TransactionType) -> Result<
    DisputableTransactionType,
    TransactionError,
> {
    match t {
        TransactionType::Deposit => Ok(DisputableTransactionType::Deposit),
        TransactionType::Withdrawal => Ok(DisputableTransactionType::Withdrawal),
        _ => Err(TransactionError::TransactionIndisputable(t)),
    }
}

/// What an account keeps of the record `tx`: its kind, if that is disputable,
/// and its amount, if it has one.
pub open spec fn disputable_of(tx: Transaction) -> Result<DisputableTransaction, TransactionError> {
    match disputable_type_of(tx.transaction_type) {
        Err(e) => Err(e),
        Ok(transaction_type) => match tx.amount {
            Some(amount) => Ok(DisputableTransaction { transaction_type, amount }),
            None => Err(TransactionError::NoAmount),
        },
    }
}

impl TryFrom<TransactionType> for DisputableTransactionType {
    type Error = TransactionError;

    fn try_from(t: TransactionType) -> (r: Result<Self, TransactionError>) {
        match t {
            TransactionType::Deposit => Ok(Self::Deposit),
            TransactionType::Withdrawal => Ok(Self::Withdrawal),
            _ => Err(TransactionError::TransactionIndisputable(t)),
        }
    }
}

impl TryFromSpecImpl<TransactionType> for DisputableTransactionType {
    open spec fn obeys_try_from_spec() -> bool {
        true
    }

    open spec fn try_from_spec(t: TransactionType) -> Result<Self, TransactionError> {
        disputable_type_of(t)
    }
}

impl TryFrom<Transaction> for DisputableTransaction {
    type Error = TransactionError;

    fn try_from(tx: Transaction) -> (r: Result<Self, TransactionError>) {
        let transaction_type = match DisputableTransactionType::try_from(tx.transaction_type) {
            Ok(t) => t,
            Err(e) => {
                return Err(e);
            },
        };
        match tx.amount {
            Some(amount) => Ok(DisputableTransaction { transaction_type, amount }),
            None => Err(TransactionError::NoAmount),
        }
    }
}

impl TryFromSpecImpl<Transaction> for DisputableTransaction {
    open spec fn obeys_try_from_spec() -> bool {
        true
    }

    open spec fn try_from_spec(tx: Transaction) -> Result<Self, TransactionError> {
        disputable_of(tx)
    }
}

/// The transaction type that the lower-case word `s` names.
pub open spec fn type_named(s: Seq<char>) -> Option<TransactionType> {
    if s == "deposit"@ {
        Some(TransactionType::Deposit)
    } else if s == "withdrawal"@ {
        Some(TransactionType::Withdrawal)
    } else if s == "dispute"@ {
        Some(TransactionType::Dispute)
    } else if s == "resolve"@ {
        Some(TransactionType::Resolve)
    } else if s == "chargeback"@ {
        Some(TransactionType::Chargeback)
    } else {
        None
    }
}

/// The record that four fields of text denote: a type word, two unsigned
/// numbers and an amount. An amount field that holds no amount, such as an
/// empty one, gives a record without amount.
pub open spec fn record_of(
    transaction_type: Seq<char>,
    client: Seq<char>,
    tx: Seq<char>,
    amount: Seq<char>,
) -> Option<Transaction> {
    match (
        type_named(transaction_type),
        unsigned_value(client, ClientId::MAX as nat),
        unsigned_value(tx, TransactionId::MAX as nat),
    ) {
        (Some(transaction_type), Some(client), Some(tx)) => Some(
            Transaction {
                transaction_type,
                client: client as ClientId,
                tx: tx as TransactionId,
                amount: match parse_spec(amount) {
                    Ok(cents) => Some(cents),
                    Err(_) => None,
                },
            },
        ),
        _ => None,
    }
}

impl TransactionType {
    /// Reads a transaction type from its lower-case name.
    pub fn parse(text: &str) -> (r: Option<TransactionType>)
        ensures
            r == type_named(text@),
    {
        if same_text(text, "deposit") {
            Some(TransactionType::Deposit)
        } else if same_text(text, "withdrawal") {
            Some(TransactionType::Withdrawal)
        } else if same_text(text, "dispute") {
            Some(TransactionType::Dispute)
        } else if same_text(text, "resolve") {
            Some(TransactionType::Resolve)
        } else if same_text(text, "chargeback") {
            Some(TransactionType::Chargeback)
        } else {
            None
        }
    }
}

impl Transaction {
    /// Reads a record from the four fields of an input row.
    pub fn from_fields(transaction_type: &str, client: &str, tx: &str, amount: &str) -> (r: Option<
        Transaction,
    >)
        ensures
            r == record_of(transaction_type@, client@, tx@, amount@),
    {
        let transaction_type = match TransactionType::parse(transaction_type) {
            Some(t) => t,
            None => {
                return None;
            },
        };
        let client = match read_unsigned(client, ClientId::MAX as u64) {
            Some(c) => c as ClientId,
            None => {
                return None;
            },
        };
        let tx = match read_unsigned(tx, TransactionId::MAX as u64) {
            Some(t) => t as TransactionId,
            None => {
                return None;
            },
        };
        let amount = match Cents::parse(amount) {
            Ok(cents) => Some(cents),
            Err(_) => None,
        };
        Some(Transaction { transaction_type, client, tx, amount })
    }
}

} // verus!
