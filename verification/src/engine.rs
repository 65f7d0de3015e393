//! The engine: it owns one ledger per client and sends every record to the
//! ledger it belongs to.

use std::collections::HashMap;
use vstd::prelude::*;
use vstd::std_specs::iter::IteratorSpec;
use vstd::string::*;

use crate::amount::{balance_text, decimal_text, push_decimal, render_balance, Balance};
use crate::client::{ClientData, LedgerView};
use crate::error::{RecordError, TransactionError};
use crate::transaction::{texts, transaction_of, ClientId, Transaction, TransactionType};

verus! {

broadcast use vstd::std_specs::hash::group_hash_axioms;

/// The outcome of sending `tx` to the ledgers `ledgers`. A deposit opens the
/// ledger of a client that has none; every other record needs the ledger to
/// exist.
pub open spec fn route(ledgers: Map<u16, LedgerView>, tx: Transaction) -> Result<
    Map<u16, LedgerView>,
    TransactionError,
> {
    if tx.ty != TransactionType::Deposit && !ledgers.contains_key(tx.client@) {
        Err(TransactionError::UnknownClient)
    } else {
        let ledger = if ledgers.contains_key(tx.client@) {
            ledgers[tx.client@]
        } else {
            LedgerView::empty()
        };
        match ledger.apply(tx.ty, tx.tx@, tx.amount) {
            Ok(next) => Ok(ledgers.insert(tx.client@, next)),
            Err(e) => Err(e),
        }
    }
}

/// The ledgers once `tx` has been attempted: a refused record changes nothing.
pub open spec fn after(ledgers: Map<u16, LedgerView>, tx: Transaction) -> Map<u16, LedgerView> {
    match route(ledgers, tx) {
        Ok(next) => next,
        Err(_) => ledgers,
    }
}

/// Whether every ledger of `ledgers` is well-formed.
pub open spec fn all_wf(ledgers: Map<u16, LedgerView>) -> bool {
    forall|client: u16| ledgers.contains_key(client) ==> (#[trigger] ledgers[client]).wf()
}

/// The error type of the CSV reader.
#[verifier::external_type_specification]
#[verifier::external_body]
pub struct ExCsvError(csv::Error);

/// What the CSV reader makes of the bytes `data`, read as comma-separated
/// records under one header line, with the white space around every field
/// removed: for each record after the header, in order, its fields, or
/// `None` where the reader reports the record as an error.
pub uninterp spec fn csv_rows(data: Seq<u8>) -> Seq<Option<Seq<Seq<char>>>>;

/// The fields of a row as the reader hands it over.
pub open spec fn row_fields(row: Result<Vec<String>, csv::Error>) -> Option<Seq<Seq<char>>> {
    match row {
        Ok(fields) => Some(fields@.map_values(|field: String| field@)),
        Err(_) => None,
    }
}

/// The fields of each of `rows`.
pub open spec fn rows_fields(rows: Seq<Result<Vec<String>, csv::Error>>) -> Seq<
    Option<Seq<Seq<char>>>,
> {
    rows.map_values(|row: Result<Vec<String>, csv::Error>| row_fields(row))
}

/// Splits `data` into rows with `csv::Reader::records`, on a reader that
/// `csv::ReaderBuilder` makes with `Trim::All` and otherwise default
/// settings. Nothing is proved of the reader: the contract only gives its
/// result the name [`csv_rows`], which is sound because the reader works on
/// the bytes alone.
#[verifier::external_body]
fn read_rows(data: &[u8]) -> (rows: Vec<Result<Vec<String>, csv::Error>>)
    ensures
        rows_fields(rows@) == csv_rows(data@),
{
    let mut reader = csv::ReaderBuilder::new().trim(csv::Trim::All).from_reader(data);
    reader.records().map(|row| row.map(|record| record.iter().map(String::from).collect()))
        .collect()
}

/// The transaction that a row stands for. A row the reader could not split,
/// a row that spells no transaction and a row with an amount below zero
/// stand for none.
pub open spec fn record_of(row: Option<Seq<Seq<char>>>) -> Result<Transaction, RecordError> {
    match row {
        None => Err(RecordError::Unreadable),
        Some(fields) => match transaction_of(fields) {
            Ok(tx) => if tx.amount < 0 {
                Err(RecordError::NegativeAmount)
            } else {
                Ok(tx)
            },
            Err(e) => Err(e),
        },
    }
}

/// The ledgers once each of `txs` has been attempted in turn.
pub open spec fn replay(ledgers: Map<u16, LedgerView>, txs: Seq<Transaction>) -> Map<
    u16,
    LedgerView,
>
    decreases txs.len(),
{
    if txs.len() == 0 {
        ledgers
    } else {
        replay(after(ledgers, txs[0]), txs.skip(1))
    }
}

/// The ledgers once the rows have been gone through in turn, and how the
/// run ended. Each row that stands for a transaction is attempted; a
/// transaction that the ledgers refuse is skipped. The first row that
/// stands for no transaction ends the run with its error, and no row after
/// it is looked at.
pub open spec fn replay_rows(ledgers: Map<u16, LedgerView>, rows: Seq<Option<Seq<Seq<char>>>>) -> (
    Map<u16, LedgerView>,
    Result<(), RecordError>,
)
    decreases rows.len(),
{
    if rows.len() == 0 {
        (ledgers, Ok(()))
    } else {
        match record_of(rows[0]) {
            Ok(tx) => replay_rows(after(ledgers, tx), rows.skip(1)),
            Err(e) => (ledgers, Err(e)),
        }
    }
}

/// The transactions that the rows stand for, up to the first row that
/// stands for none.
pub open spec fn leading_records(rows: Seq<Option<Seq<Seq<char>>>>) -> Seq<Transaction>
    decreases rows.len(),
{
    if rows.len() == 0 {
        Seq::empty()
    } else {
        match record_of(rows[0]) {
            Ok(tx) => seq![tx] + leading_records(rows.skip(1)),
            Err(_) => Seq::empty(),
        }
    }
}

/// Whether the total of every ledger is the sum of its available and held
/// funds.
pub open spec fn all_balanced(ledgers: Map<u16, LedgerView>) -> bool {
    forall|client: u16|
        ledgers.contains_key(client) ==> (#[trigger] ledgers[client]).total
            == ledgers[client].available + ledgers[client].held
}

/// No record breaks a ledger: whatever record is attempted on well-formed
/// ledgers, the ledgers that result are well-formed, and the total of each
/// is the sum of its available and held funds.
pub proof fn lemma_record_keeps_the_balance(ledgers: Map<u16, LedgerView>, tx: Transaction)
    requires
        all_wf(ledgers),
        tx.ty.is_transfer() ==> tx.amount >= 0,
    ensures
        all_wf(after(ledgers, tx)),
        all_balanced(after(ledgers, tx)),
{
    assert(LedgerView::empty().wf());
}

/// At every point of a run the ledgers are well-formed, and the total of
/// each is the sum of its available and held funds.
pub proof fn lemma_replay_keeps_the_balance(ledgers: Map<u16, LedgerView>, txs: Seq<Transaction>)
    requires
        all_wf(ledgers),
        forall|i: int|
            0 <= i < txs.len() && (#[trigger] txs[i]).ty.is_transfer() ==> txs[i].amount >= 0,
    ensures
        all_wf(replay(ledgers, txs)),
        all_balanced(replay(ledgers, txs)),
    decreases txs.len(),
{
    if txs.len() > 0 {
        lemma_record_keeps_the_balance(ledgers, txs[0]);
        let later = txs.skip(1);
        assert forall|i: int|
            0 <= i < later.len() && (#[trigger] later[i]).ty.is_transfer() implies later[i].amount
            >= 0 by {
            assert(later[i] == txs[i + 1]);
        }
        lemma_replay_keeps_the_balance(after(ledgers, txs[0]), later);
    }
}

/// Once a client is locked, no later record changes its ledger: whatever
/// records follow, the ledger stays as it was.
pub proof fn lemma_locked_client_is_frozen(
    ledgers: Map<u16, LedgerView>,
    txs: Seq<Transaction>,
    client: u16,
)
    requires
        ledgers.contains_key(client),
        ledgers[client].locked,
    ensures
        replay(ledgers, txs).contains_key(client),
        replay(ledgers, txs)[client] == ledgers[client],
    decreases txs.len(),
{
    if txs.len() > 0 {
        lemma_locked_client_is_frozen(after(ledgers, txs[0]), txs.skip(1), client);
    }
}

/// An identifier is accepted once per client: after a deposit or withdrawal
/// has been accepted, every further deposit or withdrawal of the same
/// client under the same identifier is refused as a duplicate and changes
/// nothing.
pub proof fn lemma_record_accepted_once(
    ledgers: Map<u16, LedgerView>,
    first: Transaction,
    second: Transaction,
)
    requires
        first.ty.is_transfer(),
        second.ty.is_transfer(),
        first.client == second.client,
        first.tx == second.tx,
        route(ledgers, first) is Ok,
    ensures
        route(after(ledgers, first), second) == Err::<Map<u16, LedgerView>, TransactionError>(
            TransactionError::DuplicateTransaction,
        ),
        after(after(ledgers, first), second) == after(ledgers, first),
{
}

/// Attempting the same deposit or withdrawal twice leaves the ledgers as
/// attempting it once does.
pub proof fn lemma_repeated_record_changes_nothing(ledgers: Map<u16, LedgerView>, tx: Transaction)
    requires
        tx.ty.is_transfer(),
    ensures
        after(after(ledgers, tx), tx) == after(ledgers, tx),
{
}

/// A dispute that is resolved leaves no trace in the balances: where a
/// dispute is accepted, resolving it next brings the available, held and
/// total funds of the client back to what they were before the dispute.
pub proof fn lemma_resolved_dispute_restores(
    ledgers: Map<u16, LedgerView>,
    dispute: Transaction,
    resolve: Transaction,
)
    requires
        all_wf(ledgers),
        dispute.ty == TransactionType::Dispute,
        resolve.ty == TransactionType::Resolve,
        dispute.client == resolve.client,
        dispute.tx == resolve.tx,
        route(ledgers, dispute) is Ok,
    ensures
        after(after(ledgers, dispute), resolve).contains_key(dispute.client@),
        after(after(ledgers, dispute), resolve)[dispute.client@].available
            == ledgers[dispute.client@].available,
        after(after(ledgers, dispute), resolve)[dispute.client@].held
            == ledgers[dispute.client@].held,
        after(after(ledgers, dispute), resolve)[dispute.client@].total
            == ledgers[dispute.client@].total,
        ledgers[dispute.client@].history.contains_key(dispute.tx@) ==> route(
            after(ledgers, dispute),
            resolve,
        ) is Ok,
{
}

/// A run over rows is a run over the transactions they stand for: the
/// ledgers it ends with are those that result from attempting, in turn, the
/// transaction of every row before the first row that stands for none. None
/// of those transactions has an amount below zero.
pub proof fn lemma_rows_replay_their_records(
    ledgers: Map<u16, LedgerView>,
    rows: Seq<Option<Seq<Seq<char>>>>,
)
    ensures
        replay_rows(ledgers, rows).0 == replay(ledgers, leading_records(rows)),
        forall|i: int|
            0 <= i < leading_records(rows).len() ==> (#[trigger] leading_records(rows)[i]).amount
                >= 0,
        replay_rows(ledgers, rows).1 is Ok <==> leading_records(rows).len() == rows.len(),
    decreases rows.len(),
{
    if rows.len() > 0 {
        match record_of(rows[0]) {
            Ok(tx) => {
                lemma_rows_replay_their_records(after(ledgers, tx), rows.skip(1));
                let records = leading_records(rows);
                assert(records.skip(1) =~= leading_records(rows.skip(1)));
                assert forall|i: int| 0 <= i < records.len() implies (#[trigger] records[i]).amount
                    >= 0 by {
                    if i > 0 {
                        assert(records[i] == leading_records(rows.skip(1))[i - 1]);
                    }
                }
                lemma_leading_records_len(rows.skip(1));
            },
            Err(_) => {},
        }
    }
}

/// There are at most as many leading records as rows.
pub proof fn lemma_leading_records_len(rows: Seq<Option<Seq<Seq<char>>>>)
    ensures
        leading_records(rows).len() <= rows.len(),
    decreases rows.len(),
{
    if rows.len() > 0 {
        lemma_leading_records_len(rows.skip(1));
    }
}

/// What the engine reports of one client.
#[derive(Debug, Clone, Copy, PartialEq, Eq, Structural)]
pub struct ClientSummary {
    /// The client.
    pub client: ClientId,
    /// The funds the client can withdraw or have disputed.
    pub available: Balance,
    /// The funds frozen by open disputes.
    pub held: Balance,
    /// The client's full balance.
    pub total: Balance,
    /// Whether a chargeback has frozen the account.
    pub locked: bool,
}

impl ClientSummary {
    /// Whether the summary reports `ledger` as the ledger of `client`.
    pub open spec fn reports(self, client: u16, ledger: LedgerView) -> bool {
        &&& self.client@ == client
        &&& self.available == ledger.available
        &&& self.held == ledger.held
        &&& self.total == ledger.total
        &&& self.locked == ledger.locked
    }

    /// The line that reports the summary: the client, the available, held
    /// and total funds with four fractional digits each, and the lock flag,
    /// separated by a comma and a space.
    pub open spec fn line_text(self) -> Seq<char> {
        decimal_text(self.client@ as nat) + ", "@ + balance_text(self.available as int) + ", "@
            + balance_text(self.held as int) + ", "@ + balance_text(self.total as int) + ", "@ + (
        if self.locked {
            "true"@
        } else {
            "false"@
        })
    }

    /// Writes the line that reports the summary.
    pub fn line(&self) -> (text: String)
        ensures
            text@ == self.line_text(),
    {
        let mut text = String::new();
        push_decimal(&mut text, *self.client as u128);
        text.append(", ");
        text.append(render_balance(self.available).as_str());
        text.append(", ");
        text.append(render_balance(self.held).as_str());
        text.append(", ");
        text.append(render_balance(self.total).as_str());
        text.append(", ");
        if self.locked {
            text.append("true");
        } else {
            text.append("false");
        }
        assert(text@ =~= self.line_text());
        text
    }
}

/// The line that heads a report of summaries.
pub const SUMMARY_HEADER: &'static str = "client, available, held, total, locked";

/// Borrows each field of a row as a string slice.
fn borrow_fields(fields: &Vec<String>) -> (slices: Vec<&str>)
    ensures
        texts(slices@) == fields@.map_values(|field: String| field@),
{
    let mut slices: Vec<&str> = Vec::new();
    let mut i: usize = 0;
    while i < fields.len()
        invariant
            i <= fields.len(),
            slices.len() == i,
            forall|j: int| 0 <= j < i ==> slices@[j]@ == fields@[j]@,
        decreases fields.len() - i,
    {
        slices.push(fields[i].as_str());
        i += 1;
    }
    assert(texts(slices@) =~= fields@.map_values(|field: String| field@));
    slices
}

/// The ledgers of all clients, each owned by the engine alone.
pub struct Engine {
    clients: HashMap<u16, ClientData>,
}

impl View for Engine {
    type V = Map<u16, LedgerView>;

    closed spec fn view(&self) -> Map<u16, LedgerView> {
        self.clients@.map_values(|ledger: ClientData| ledger@)
    }
}

impl Default for Engine {
    fn default() -> (engine: Self)
        ensures
            engine.wf(),
            engine@ == Map::<u16, LedgerView>::empty(),
    {
        let engine = Engine { clients: HashMap::new() };
        assert(engine@ =~= Map::<u16, LedgerView>::empty());
        engine
    }
}

impl Engine {
    /// Whether every ledger of the engine is well-formed.
    pub open spec fn wf(&self) -> bool {
        all_wf(self@)
    }

    /// Sends one record to the ledger of its client and applies it there.
    /// A deposit opens the ledger of a client that has none; any other
    /// record for such a client is refused with
    /// [`TransactionError::UnknownClient`]. A refused record is reported to
    /// the caller and changes nothing.
    pub fn apply_transaction(&mut self, tx: &Transaction) -> (outcome: Result<(), TransactionError>)
        requires
            old(self).wf(),
            tx.ty.is_transfer() ==> tx.amount >= 0,
        ensures
            final(self).wf(),
            match route(old(self)@, *tx) {
                Ok(next) => outcome is Ok && final(self)@ == next,
                Err(e) => outcome == Err::<(), TransactionError>(e) && final(self)@ == old(self)@,
            },
    {
        let key: u16 = *tx.client;
        let known = self.clients.contains_key(&key);
        if !known {
            match tx.ty {
                TransactionType::Deposit => {},
                _ => {
                    return Err(TransactionError::UnknownClient);
                },
            }
        }
        let client = self.clients.entry(key).or_insert(ClientData::default());
        let outcome = match tx.ty {
            TransactionType::Deposit => client.deposit(tx.tx, tx.amount),
            TransactionType::Withdrawal => client.withdraw(tx.tx, tx.amount),
            TransactionType::Dispute => client.dispute(tx.tx),
            TransactionType::Resolve => client.resolve(tx.tx),
            TransactionType::Chargeback => client.chargeback(tx.tx),
        };
        proof {
            let before = old(self)@;
            let ledgers = self@;
            assert forall|other: u16| ledgers.contains_key(other) implies (
            #[trigger] ledgers[other]).wf() by {
                if other != key {
                    assert(before.contains_key(other) && ledgers[other] == before[other]);
                }
            }
        }
        outcome
    }

    /// Goes through the rows of an input in turn. Each row that spells a
    /// transaction is applied; a transaction that the ledgers refuse is
    /// skipped and the run goes on. The first row that spells no
    /// transaction, or one with an amount below zero, ends the run with its
    /// error; what was applied before it stays applied.
    pub fn apply_rows(&mut self, rows: &[Result<Vec<String>, csv::Error>]) -> (outcome: Result<
        (),
        RecordError,
    >)
        requires
            old(self).wf(),
        ensures
            final(self).wf(),
            (final(self)@, outcome) == replay_rows(old(self)@, rows_fields(rows@)),
    {
        let ghost all = rows_fields(rows@);
        let mut i: usize = 0;
        assert(all.skip(0) =~= all);
        while i < rows.len()
            invariant
                self.wf(),
                i <= rows.len(),
                all == rows_fields(rows@),
                replay_rows(old(self)@, all) == replay_rows(self@, all.skip(i as int)),
            decreases rows.len() - i,
        {
            proof {
                assert(all.skip(i as int)[0] == row_fields(rows@[i as int]));
                assert(all.skip(i as int).skip(1) =~= all.skip(i + 1));
            }
            let fields = match &rows[i] {
                Ok(fields) => fields,
                Err(_) => {
                    return Err(RecordError::Unreadable);
                },
            };
            let slices = borrow_fields(fields);
            let tx = match Transaction::from_fields(slices.as_slice()) {
                Ok(tx) => tx,
                Err(e) => {
                    return Err(e);
                },
            };
            if tx.amount < 0 {
                return Err(RecordError::NegativeAmount);
            }
            let _ = self.apply_transaction(&tx);
            i += 1;
        }
        Ok(())
    }

    /// Reads `data` as comma-separated records under one header line and
    /// goes through them as [`Engine::apply_rows`] does.
    pub fn apply_transactions(&mut self, data: &[u8]) -> (outcome: Result<(), RecordError>)
        requires
            old(self).wf(),
        ensures
            final(self).wf(),
            (final(self)@, outcome) == replay_rows(old(self)@, csv_rows(data@)),
    {
        let rows = read_rows(data);
        self.apply_rows(rows.as_slice())
    }

    /// Reports every client once, in no particular order.
    pub fn summarize(&self) -> (summaries: Vec<ClientSummary>)
        ensures
            summaries@.len() == self@.dom().len(),
            forall|i: int|
                0 <= i < summaries@.len() ==> self@.contains_key(
                    (#[trigger] summaries@[i]).client@,
                ) && summaries@[i].reports(summaries@[i].client@, self@[summaries@[i].client@]),
            forall|i: int, j: int|
                0 <= i < j < summaries@.len() ==> summaries@[i].client@ != summaries@[j].client@,
            forall|client: u16| #[trigger]
                self@.contains_key(client) ==> exists|i: int|
                    0 <= i < summaries@.len() && (#[trigger] summaries@[i]).client@ == client,
    {
        let mut summaries: Vec<ClientSummary> = Vec::new();
        let ghost entries = self.clients.iter().remaining();
        for entry in iter: self.clients.iter()
            invariant
                iter.seq() == entries,
                entries.no_duplicates(),
                summaries@.len() == iter.index(),
                forall|i: int|
                    0 <= i < summaries@.len() ==> (#[trigger] summaries@[i]).reports(
                        *iter.seq()[i].0,
                        iter.seq()[i].1@,
                    ),
        {
            let (client, ledger) = entry;
            summaries.push(
                ClientSummary {
                    client: ClientId::from(*client),
                    available: ledger.available(),
                    held: ledger.held(),
                    total: ledger.total(),
                    locked: ledger.is_locked(),
                },
            );
        }
        proof {
            assert(self@.dom() =~= self.clients@.dom());
            assert forall|i: int, j: int|
                0 <= i < j < summaries@.len() implies summaries@[i].client@
                != summaries@[j].client@ by {
                if summaries@[i].client@ == summaries@[j].client@ {
                    assert(self.clients@[*entries[i].0] == *entries[i].1);
                    assert(self.clients@[*entries[j].0] == *entries[j].1);
                    assert(entries[i] == entries[j]);
                }
            }
            assert forall|client: u16| #[trigger] self@.contains_key(client) implies exists|i: int|
                0 <= i < summaries@.len() && (#[trigger] summaries@[i]).client@ == client by {
                let ledger = self.clients@[client];
                assert(entries.contains((&client, &ledger)));
                let i = choose|i: int| 0 <= i < entries.len() && entries[i] == (&client, &ledger);
                assert(summaries@[i].client@ == client);
            }
        }
        summaries
    }
}

} // verus!
