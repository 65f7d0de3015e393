//! A payments engine: per-client ledgers of available, held and total funds,
//! driven by an ordered stream of deposits, withdrawals, disputes, resolutions
//! and chargebacks.
//!
//! Money is counted exactly, in ten-thousandths of a unit. Each ledger keeps
//! its total equal to the sum of its available and held funds, and is frozen
//! for good by its first chargeback. A transaction can be disputed once.
//!
//! A run over an input is lenient towards the ledgers and strict towards the
//! input: a transaction that a ledger refuses is skipped, a row that spells
//! no transaction ends the run.

pub mod amount;
pub mod client;
pub mod engine;
pub mod error;
pub mod text;
pub mod transaction;

