//! The reasons for which a single record is turned down.

use vstd::prelude::*;

verus! {

/// Why the engine refused to apply a transaction. A refused transaction
/// leaves every ledger exactly as it was.
#[derive(Debug, Clone, Copy, PartialEq, Eq, Structural)]
pub enum TransactionError {
    /// A deposit or withdrawal reuses an identifier the ledger already holds.
    DuplicateTransaction,
    /// The available funds do not cover the operation.
    InsufficientFunds,
    /// The account was frozen by an earlier chargeback.
    AccountLocked,
    /// The transaction is already under dispute.
    AlreadyDisputed,
    /// The transaction is not under dispute.
    NotDisputed,
    /// A record other than a deposit names a client that never deposited.
    UnknownClient,
    /// The transaction has already been through a dispute.
    AlreadySettled,
}

impl TransactionError {
    /// What [`TransactionError::message`] says of each error.
    pub open spec fn message_text(self) -> Seq<char> {
        match self {
            TransactionError::DuplicateTransaction => "Duplicate transaction id"@,
            TransactionError::InsufficientFunds => "Insufficient available funds"@,
            TransactionError::AccountLocked => "Account is locked"@,
            TransactionError::AlreadyDisputed => "Transaction is already in dispute"@,
            TransactionError::NotDisputed => "Transaction is not in dispute"@,
            TransactionError::UnknownClient => "Unknown client"@,
            TransactionError::AlreadySettled => "Transaction was already reversed"@,
        }
    }

    /// The error in words.
    pub fn message(&self) -> (text: &'static str)
        ensures
            text@ == self.message_text(),
    {
        match self {
            TransactionError::DuplicateTransaction => "Duplicate transaction id",
            TransactionError::InsufficientFunds => "Insufficient available funds",
            TransactionError::AccountLocked => "Account is locked",
            TransactionError::AlreadyDisputed => "Transaction is already in dispute",
            TransactionError::NotDisputed => "Transaction is not in dispute",
            TransactionError::UnknownClient => "Unknown client",
            TransactionError::AlreadySettled => "Transaction was already reversed",
        }
    }
}

/// Why a record of the input could not be turned into a transaction. Such a
/// record ends the run: nothing after it is applied.
#[derive(Debug, Clone, Copy, PartialEq, Eq, Structural)]
pub enum RecordError {
    /// The input could not be split into fields at this record.
    Unreadable,
    /// The record has neither three nor four fields.
    FieldCount,
    /// The first field names no kind of transaction.
    UnsupportedType,
    /// The second field is no client identifier.
    InvalidClient,
    /// The third field is no transaction identifier.
    InvalidTransaction,
    /// A deposit or withdrawal comes without an amount.
    MissingAmount,
    /// The fourth field is no amount.
    InvalidAmount,
    /// The amount is below zero.
    NegativeAmount,
}

impl RecordError {
    /// What [`RecordError::message`] says of each error.
    pub open spec fn message_text(self) -> Seq<char> {
        match self {
            RecordError::Unreadable => "Cannot read transaction"@,
            RecordError::FieldCount => "Not enough fields in a record"@,
            RecordError::UnsupportedType => "Unsupported transaction type"@,
            RecordError::InvalidClient => "Cannot parse client id"@,
            RecordError::InvalidTransaction => "Cannot parse transaction id"@,
            RecordError::MissingAmount => "Missing amount"@,
            RecordError::InvalidAmount => "Cannot parse amount"@,
            RecordError::NegativeAmount => "Negative amount is not allowed"@,
        }
    }

    /// The error in words.
    pub fn message(&self) -> (text: &'static str)
        ensures
            text@ == self.message_text(),
    {
        match self {
            RecordError::Unreadable => "Cannot read transaction",
            RecordError::FieldCount => "Not enough fields in a record",
            RecordError::UnsupportedType => "Unsupported transaction type",
            RecordError::InvalidClient => "Cannot parse client id",
            RecordError::InvalidTransaction => "Cannot parse transaction id",
            RecordError::MissingAmount => "Missing amount",
            RecordError::InvalidAmount => "Cannot parse amount",
            RecordError::NegativeAmount => "Negative amount is not allowed",
        }
    }
}

} // verus!
