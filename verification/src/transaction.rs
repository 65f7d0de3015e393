//! Transaction records and the identifiers they carry.

use vstd::prelude::*;

use crate::amount::{amount_value, parse_amount, Amount};
use crate::error::RecordError;
use crate::text::{parse_u16, parse_u32, text_eq, unsigned_value};

verus! {

/// One record of the input stream.
#[derive(Debug, Clone, Copy)]
pub struct Transaction {
    /// What the record asks for.
    pub ty: TransactionType,
    /// The client whose ledger it concerns.
    pub client: ClientId,
    /// The deposit or withdrawal it introduces or refers to.
    pub tx: TransactionId,
    /// The amount of a deposit or withdrawal. The other kinds do not use it.
    pub amount: Amount,
}

/// The five kinds of record the engine understands.
#[derive(Debug, Clone, Copy, PartialEq, Eq, Structural)]
pub enum TransactionType {
    Deposit,
    Withdrawal,
    Dispute,
    Resolve,
    Chargeback,
}

/// The kind of transaction that `word` names, if it names one.
pub open spec fn type_named(word: Seq<char>) -> Option<TransactionType> {
    if word == "deposit"@ {
        Some(TransactionType::Deposit)
    } else if word == "withdrawal"@ {
        Some(TransactionType::Withdrawal)
    } else if word == "dispute"@ {
        Some(TransactionType::Dispute)
    } else if word == "resolve"@ {
        Some(TransactionType::Resolve)
    } else if word == "chargeback"@ {
        Some(TransactionType::Chargeback)
    } else {
        None
    }
}

impl TransactionType {
    /// Whether the kind is a deposit or a withdrawal: the two kinds that
    /// carry an amount and introduce an identifier.
    pub open spec fn is_transfer(self) -> bool {
        self == TransactionType::Deposit || self == TransactionType::Withdrawal
    }

    /// Reads the kind of a transaction from its lower-case name.
    pub fn from_str(s: &str) -> (ty: Result<Self, RecordError>)
        ensures
            match type_named(s@) {
                Some(named) => ty == Ok::<Self, RecordError>(named),
                None => ty == Err::<Self, RecordError>(RecordError::UnsupportedType),
            },
    {
        if text_eq(s, "deposit") {
            Ok(Self::Deposit)
        } else if text_eq(s, "withdrawal") {
            Ok(Self::Withdrawal)
        } else if text_eq(s, "dispute") {
            Ok(Self::Dispute)
        } else if text_eq(s, "resolve") {
            Ok(Self::Resolve)
        } else if text_eq(s, "chargeback") {
            Ok(Self::Chargeback)
        } else {
            Err(RecordError::UnsupportedType)
        }
    }
}

/// The transaction that the fields of a record spell: the kind, the client,
/// the transaction identifier and, where there is a fourth field, the
/// amount. A deposit or withdrawal needs the fourth field; the other kinds
/// may come without it and then have the amount zero. The first field that
/// cannot be read decides the error.
pub open spec fn transaction_of(fields: Seq<Seq<char>>) -> Result<Transaction, RecordError> {
    if fields.len() != 3 && fields.len() != 4 {
        Err(RecordError::FieldCount)
    } else if type_named(fields[0]) is None {
        Err(RecordError::UnsupportedType)
    } else if unsigned_value(fields[1], 0xffff) is None {
        Err(RecordError::InvalidClient)
    } else if unsigned_value(fields[2], 0xffff_ffff) is None {
        Err(RecordError::InvalidTransaction)
    } else if fields.len() == 3 && type_named(fields[0])->Some_0.is_transfer() {
        Err(RecordError::MissingAmount)
    } else if fields.len() == 4 && amount_value(fields[3]) is None {
        Err(RecordError::InvalidAmount)
    } else {
        Ok(
            Transaction {
                ty: type_named(fields[0])->Some_0,
                client: ClientId(unsigned_value(fields[1], 0xffff)->Some_0 as u16),
                tx: TransactionId(unsigned_value(fields[2], 0xffff_ffff)->Some_0 as u32),
                amount: if fields.len() == 4 {
                    amount_value(fields[3])->Some_0 as Amount
                } else {
                    0
                },
            },
        )
    }
}

/// The texts of `fields`, as sequences of characters.
pub open spec fn texts(fields: Seq<&str>) -> Seq<Seq<char>> {
    fields.map_values(|field: &str| field@)
}

impl Transaction {
    /// Reads a transaction from the three or four fields of a record.
    pub fn from_fields(fields: &[&str]) -> (record: Result<Self, RecordError>)
        ensures
            record == transaction_of(texts(fields@)),
    {
        if fields.len() != 3 && fields.len() != 4 {
            return Err(RecordError::FieldCount);
        }
        proof {
            assert forall|i: int| 0 <= i < fields@.len() implies texts(fields@)[i]
                == fields@[i]@ by {}
        }
        let ty = match TransactionType::from_str(fields[0]) {
            Ok(ty) => ty,
            Err(e) => {
                return Err(e);
            },
        };
        let client = match parse_u16(fields[1]) {
            Some(value) => ClientId::from(value),
            None => {
                return Err(RecordError::InvalidClient);
            },
        };
        let tx = match parse_u32(fields[2]) {
            Some(value) => TransactionId::from(value),
            None => {
                return Err(RecordError::InvalidTransaction);
            },
        };
        let amount: Amount = if fields.len() > 3 {
            match parse_amount(fields[3]) {
                Some(value) => value,
                None => {
                    return Err(RecordError::InvalidAmount);
                },
            }
        } else {
            match ty {
                TransactionType::Deposit | TransactionType::Withdrawal => {
                    return Err(RecordError::MissingAmount);
                },
                _ => 0,
            }
        };
        Ok(Transaction { ty, client, tx, amount })
    }
}

/// Identifies a client account.
#[derive(Debug, Clone, Copy, PartialEq, Eq, Hash, Structural)]
pub struct ClientId(pub u16);

impl View for ClientId {
    type V = u16;

    open spec fn view(&self) -> u16 {
        self.0
    }
}

impl From<u16> for ClientId {
    fn from(value: u16) -> (id: Self)
        ensures
            id@ == value,
    {
        Self(value)
    }
}

impl vstd::std_specs::convert::FromSpecImpl<u16> for ClientId {
    open spec fn obeys_from_spec() -> bool {
        true
    }

    open spec fn from_spec(value: u16) -> Self {
        Self(value)
    }
}

impl core::ops::Deref for ClientId {
    type Target = u16;

    fn deref(&self) -> (value: &u16)
        ensures
            *value == self@,
    {
        &self.0
    }
}

/// Identifies a deposit or a withdrawal.
#[derive(Debug, Clone, Copy, PartialEq, Eq, Hash, Structural)]
pub struct TransactionId(pub u32);

impl View for TransactionId {
    type V = u32;

    open spec fn view(&self) -> u32 {
        self.0
    }
}

impl From<u32> for TransactionId {
    fn from(value: u32) -> (id: Self)
        ensures
            id@ == value,
    {
        Self(value)
    }
}

impl vstd::std_specs::convert::FromSpecImpl<u32> for TransactionId {
    open spec fn obeys_from_spec() -> bool {
        true
    }

    open spec fn from_spec(value: u32) -> Self {
        Self(value)
    }
}

impl core::ops::Deref for TransactionId {
    type Target = u32;

    fn deref(&self) -> (value: &u32)
        ensures
            *value == self@,
    {
        &self.0
    }
}

} // verus!
