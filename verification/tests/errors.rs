use payments_engine::error::{RecordError, TransactionError};

#[test]
fn every_refusal_has_its_words() {
    let words = [
        (TransactionError::DuplicateTransaction, "Duplicate transaction id"),
        (TransactionError::InsufficientFunds, "Insufficient available funds"),
        (TransactionError::AccountLocked, "Account is locked"),
        (TransactionError::AlreadyDisputed, "Transaction is already in dispute"),
        (TransactionError::NotDisputed, "Transaction is not in dispute"),
        (TransactionError::UnknownClient, "Unknown client"),
        (TransactionError::AlreadySettled, "Transaction was already reversed"),
    ];
    for (error, text) in words {
        assert_eq!(error.message(), text);
    }
}

#[test]
fn every_bad_record_has_its_words() {
    let words = [
        (RecordError::Unreadable, "Cannot read transaction"),
        (RecordError::FieldCount, "Not enough fields in a record"),
        (RecordError::UnsupportedType, "Unsupported transaction type"),
        (RecordError::InvalidClient, "Cannot parse client id"),
        (RecordError::InvalidTransaction, "Cannot parse transaction id"),
        (RecordError::MissingAmount, "Missing amount"),
        (RecordError::InvalidAmount, "Cannot parse amount"),
        (RecordError::NegativeAmount, "Negative amount is not allowed"),
    ];
    for (error, text) in words {
        assert_eq!(error.message(), text);
    }
}
