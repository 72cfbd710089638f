//! Gives sent Ironwood outputs their own pool code.

use vstd::prelude::*;
use vstd::string::StringExecFns;

use super::Dependency;
use super::ParseFailure;
use super::WalletMigrationError;
use super::ORCHARD_POOL_CODE;

verus! {

/// The identifier of the migration.
pub const MIGRATION_ID: u128 = 0xf6fb571a_2e78_4218_a2d2_241b4f787cbf;

/// Takes away the views that show pool codes.
pub const DROP_VIEWS: &'static str =
    "DROP VIEW v_tx_outputs;
     DROP VIEW v_transactions;
     DROP VIEW v_received_output_spends;
     DROP VIEW v_received_outputs;";

/// Gives the Ironwood pool code to those sent notes that the wallet has also received, as notes of
/// the version that only the Ironwood pool holds.
pub const RECODE_RECEIVED: &'static str =
    "UPDATE sent_notes
     SET output_pool = 4
     WHERE output_pool = 3
     AND EXISTS (
        SELECT 1
        FROM orchard_received_notes rn
        WHERE rn.transaction_id = sent_notes.transaction_id
        AND rn.action_index = sent_notes.output_index
        AND rn.note_version = 3
     )";

/// Finds the transactions with sent notes that still have the Orchard pool code.
pub const SELECT_TRANSACTIONS: &'static str =
    "SELECT DISTINCT
        t.id_tx, t.raw, t.mined_height, t.expiry_height
     FROM sent_notes sn
     JOIN transactions t ON t.id_tx = sn.transaction_id
     WHERE sn.output_pool = 3
     AND t.raw IS NOT NULL";

/// Gives the Ironwood pool code to the sent notes of a transaction within a range of indices.
pub const RECODE_RANGE: &'static str =
    "UPDATE sent_notes
     SET output_pool = 4
     WHERE transaction_id = :transaction_id
     AND output_pool = 3
     AND output_index >= :ironwood_start
     AND output_index < :ironwood_end";

/// The views that show pool codes.
#[derive(Clone, Copy, Debug, PartialEq, Eq, Structural)]
pub enum WalletView {
    ReceivedOutputs,
    ReceivedOutputSpends,
    Transactions,
    TxOutputs,
}

/// A step of the migration.
#[derive(Clone, Copy, Debug)]
pub enum Step {
    /// Executes statements.
    Execute(&'static str),
    /// Gives the Ironwood pool code to the sent notes that the transactions themselves show to be
    /// Ironwood outputs.
    Backfill,
    /// Makes a view anew.
    CreateView(WalletView),
}

/// How many actions the bundles of a transaction have.
#[derive(Clone, Copy, Debug, PartialEq, Eq, Structural)]
pub struct ActionCounts {
    pub orchard: usize,
    pub ironwood: usize,
}

/// A transaction with sent notes, and what came of parsing it.
pub struct SentTransaction<D> {
    pub id_tx: i64,
    pub parsed: Result<ActionCounts, ParseFailure<D>>,
}

/// The indices of the Ironwood outputs of a transaction: from the first to the one after the last.
#[derive(Clone, Copy, Debug, PartialEq, Eq, Structural)]
pub struct IronwoodRange {
    pub id_tx: i64,
    pub ironwood_start: i64,
    pub ironwood_end: i64,
}

/// A sent note, as far as its pool code depends on it.
#[derive(Clone, Copy, Debug, PartialEq, Eq, Structural)]
pub struct SentNoteRow {
    pub transaction_id: i64,
    pub output_pool: i64,
    pub output_index: i64,
}

impl IronwoodRange {
    /// Whether a sent note is one of those that get the Ironwood pool code.
    pub open spec fn covers(self, note: SentNoteRow) -> bool {
        &&& note.transaction_id == self.id_tx
        &&& note.output_pool == ORCHARD_POOL_CODE
        &&& self.ironwood_start <= note.output_index < self.ironwood_end
    }
}

impl ActionCounts {
    /// Whether the indices of the outputs can be stored.
    pub open spec fn storable(self) -> bool {
        self.orchard + self.ironwood <= i64::MAX && self.orchard + self.ironwood <= usize::MAX
    }

    /// The indices of the Ironwood outputs: they follow those of the Orchard outputs.
    pub open spec fn range(self, id_tx: i64) -> IronwoodRange {
        IronwoodRange {
            id_tx,
            ironwood_start: self.orchard as i64,
            ironwood_end: (self.orchard + self.ironwood) as i64,
        }
    }
}

/// The ranges of Ironwood outputs, for those transactions that have any.
pub open spec fn ranges<D>(transactions: Seq<SentTransaction<D>>) -> Seq<IronwoodRange>
    decreases transactions.len(),
{
    if transactions.len() == 0 {
        Seq::empty()
    } else {
        let before = ranges(transactions.drop_last());
        let last = transactions.last();
        match last.parsed {
            Ok(counts) => if counts.ironwood > 0 {
                before.push(counts.range(last.id_tx))
            } else {
                before
            },
            Err(_) => before,
        }
    }
}

/// Whether an error of the migration is how a failure to parse is reported.
pub open spec fn reported<D>(failure: ParseFailure<D>, error: WalletMigrationError<D>) -> bool {
    match failure {
        ParseFailure::CorruptedData(message) => error matches WalletMigrationError::CorruptedData(m)
            && m@ == message@,
        ParseFailure::DbError(e) => error matches WalletMigrationError::DbError(d) && d == e,
        ParseFailure::Other(message) => error matches WalletMigrationError::CorruptedData(m) && m@
            == "An error was encountered decoding transaction data: "@ + message@,
    }
}

/// Reports a failure to parse a transaction.
fn report<D>(failure: ParseFailure<D>) -> (r: WalletMigrationError<D>)
    ensures
        reported(failure, r),
{
    match failure {
        ParseFailure::CorruptedData(message) => WalletMigrationError::CorruptedData(message),
        ParseFailure::DbError(e) => WalletMigrationError::DbError(e),
        ParseFailure::Other(message) => {
            let mut text = String::new();
            text.append("An error was encountered decoding transaction data: ");
            text.append(message.as_str());
            assert(text@ =~= "An error was encountered decoding transaction data: "@ + message@);
            WalletMigrationError::CorruptedData(text)
        },
    }
}

/// Whether the first `n` transactions could all be parsed.
pub open spec fn all_parsed<D>(transactions: Seq<SentTransaction<D>>, n: int) -> bool {
    forall|i: int| 0 <= i < n ==> (#[trigger] transactions[i]).parsed is Ok
}

/// The migration.
pub struct Migration<P> {
    pub params: P,
}

impl<P> Migration<P> {
    /// The identifier of the migration.
    pub fn id(&self) -> (r: u128)
        ensures
            r == MIGRATION_ID,
    {
        MIGRATION_ID
    }

    /// The migrations that come before.
    pub fn dependencies(&self) -> (r: Vec<Dependency>)
        ensures
            r@ == seq![Dependency::IronwoodShardtree, Dependency::TxOutputsKeyScopes],
    {
        let mut dependencies: Vec<Dependency> = Vec::new();
        dependencies.push(Dependency::IronwoodShardtree);
        dependencies.push(Dependency::TxOutputsKeyScopes);
        assert(dependencies@ =~= seq![
            Dependency::IronwoodShardtree,
            Dependency::TxOutputsKeyScopes,
        ]);
        dependencies
    }

    /// What the migration does, in words.
    pub fn description(&self) -> (r: &'static str)
        ensures
            r@ == "Updates wallet output views to expose Ironwood rows as pool code 4."@,
    {
        "Updates wallet output views to expose Ironwood rows as pool code 4."
    }

    /// The steps of the migration: the views are taken away, the pool codes are changed, and the
    /// views are made anew.
    pub fn up(&self) -> (r: Vec<Step>)
        ensures
            r@ == seq![
                Step::Execute(DROP_VIEWS),
                Step::Execute(RECODE_RECEIVED),
                Step::Backfill,
                Step::CreateView(WalletView::ReceivedOutputs),
                Step::CreateView(WalletView::ReceivedOutputSpends),
                Step::CreateView(WalletView::Transactions),
                Step::CreateView(WalletView::TxOutputs),
            ],
    {
        let mut steps: Vec<Step> = Vec::new();
        steps.push(Step::Execute(DROP_VIEWS));
        steps.push(Step::Execute(RECODE_RECEIVED));
        steps.push(Step::Backfill);
        steps.push(Step::CreateView(WalletView::ReceivedOutputs));
        steps.push(Step::CreateView(WalletView::ReceivedOutputSpends));
        steps.push(Step::CreateView(WalletView::Transactions));
        steps.push(Step::CreateView(WalletView::TxOutputs));
        assert(steps@ =~= seq![
            Step::Execute(DROP_VIEWS),
            Step::Execute(RECODE_RECEIVED),
            Step::Backfill,
            Step::CreateView(WalletView::ReceivedOutputs),
            Step::CreateView(WalletView::ReceivedOutputSpends),
            Step::CreateView(WalletView::Transactions),
            Step::CreateView(WalletView::TxOutputs),
        ]);
        steps
    }

    /// The migration cannot be undone.
    pub fn down<D>(&self) -> (r: Result<(), WalletMigrationError<D>>)
        ensures
            r matches Err(WalletMigrationError::CannotRevert(id)) && id == MIGRATION_ID,
    {
        Err(WalletMigrationError::CannotRevert(MIGRATION_ID))
    }

    /// The ranges of the Ironwood outputs of the given transactions, whose pool codes are to be
    /// changed. The first failure to parse one of them is reported instead.
    pub fn backfill_sent_ironwood_pool_codes<D>(&self, transactions: Vec<SentTransaction<D>>) -> (r:
        Result<Vec<IronwoodRange>, WalletMigrationError<D>>)
        requires
            forall|i: int|
                0 <= i < transactions@.len() ==> ((#[trigger] transactions@[i]).parsed matches Ok(
                    counts,
                ) ==> counts.storable()),
        ensures
            match r {
                Ok(found) => all_parsed(transactions@, transactions@.len() as int) && found@
                    == ranges(transactions@),
                Err(e) => exists|i: int|
                    #![trigger transactions@[i]]
                    0 <= i < transactions@.len() && all_parsed(transactions@, i)
                        && transactions@[i].parsed is Err && reported(
                        transactions@[i].parsed->Err_0,
                        e,
                    ),
            },
    {
        let ghost all = transactions@;
        let mut found: Vec<IronwoodRange> = Vec::new();
        let mut rest = transactions;
        let ghost mut before: int = 0;
        while rest.len() > 0
            invariant
                0 <= before && before + rest@.len() == all.len(),
                rest@ == all.skip(before),
                all_parsed(all, before),
                found@ == ranges(all.take(before)),
                forall|i: int|
                    0 <= i < all.len() ==> ((#[trigger] all[i]).parsed matches Ok(counts)
                        ==> counts.storable()),
                all == transactions@,
            decreases rest@.len(),
        {
            let transaction = rest.remove(0);
            proof {
                assert(transaction == all[before]);
                assert(rest@ =~= all.skip(before + 1));
                let next = all.take(before + 1);
                assert(next.drop_last() =~= all.take(before));
                assert(next.last() == transaction);
            }
            match transaction.parsed {
                Ok(counts) => {
                    if counts.ironwood > 0 {
                        found.push(
                            IronwoodRange {
                                id_tx: transaction.id_tx,
                                ironwood_start: counts.orchard as i64,
                                ironwood_end: (counts.orchard + counts.ironwood) as i64,
                            },
                        );
                    }
                },
                Err(failure) => {
                    let error = report(failure);
                    assert(all[before].parsed is Err);
                    return Err(error);
                },
            }
            proof {
                before = before + 1;
            }
        }
        assert(all.take(before) =~= all);
        Ok(found)
    }
}

/// Exactly the sent notes that still have the Orchard pool code and whose index lies among the
/// Ironwood outputs of their transaction get the Ironwood pool code.
pub proof fn lemma_backfill_exact<D>(transactions: Seq<SentTransaction<D>>, note: SentNoteRow)
    requires
        all_parsed(transactions, transactions.len() as int),
        forall|i: int|
            0 <= i < transactions.len() ==> (#[trigger] transactions[i]).parsed->Ok_0.storable(),
    ensures
        (exists|k: int|
            0 <= k < ranges(transactions).len() && (#[trigger] ranges(transactions)[k]).covers(
                note,
            )) <==> note.output_pool == ORCHARD_POOL_CODE && exists|i: int|
            0 <= i < transactions.len() && (#[trigger] transactions[i]).id_tx
                == note.transaction_id && transactions[i].parsed->Ok_0.orchard <= note.output_index
                < transactions[i].parsed->Ok_0.orchard + transactions[i].parsed->Ok_0.ironwood,
    decreases transactions.len(),
{
    if transactions.len() > 0 {
        let front = transactions.drop_last();
        let last = transactions.last();
        let n = front.len() as int;
        assert forall|i: int| 0 <= i < n implies (#[trigger] front[i]).parsed is Ok
            && front[i].parsed->Ok_0.storable() by {
            assert(front[i] == transactions[i]);
        }
        lemma_backfill_exact(front, note);
        let before = ranges(front);
        let after = ranges(transactions);
        assert(transactions[n].parsed is Ok);
        let counts = last.parsed->Ok_0;
        if exists|k: int| 0 <= k < after.len() && (#[trigger] after[k]).covers(note) {
            let k = choose|k: int| 0 <= k < after.len() && (#[trigger] after[k]).covers(note);
            if k < before.len() {
                assert(before[k].covers(note));
                let i = choose|i: int|
                    0 <= i < n && (#[trigger] front[i]).id_tx == note.transaction_id
                        && front[i].parsed->Ok_0.orchard <= note.output_index
                        < front[i].parsed->Ok_0.orchard + front[i].parsed->Ok_0.ironwood;
                assert(transactions[i] == front[i]);
            } else {
                assert(transactions[n].id_tx == note.transaction_id);
            }
        }
        if note.output_pool == ORCHARD_POOL_CODE && exists|i: int|
            0 <= i < transactions.len() && (#[trigger] transactions[i]).id_tx
                == note.transaction_id && transactions[i].parsed->Ok_0.orchard <= note.output_index
                < transactions[i].parsed->Ok_0.orchard + transactions[i].parsed->Ok_0.ironwood {
            let i = choose|i: int|
                0 <= i < transactions.len() && (#[trigger] transactions[i]).id_tx
                    == note.transaction_id && transactions[i].parsed->Ok_0.orchard
                    <= note.output_index < transactions[i].parsed->Ok_0.orchard
                    + transactions[i].parsed->Ok_0.ironwood;
            if i < n {
                assert(front[i] == transactions[i]);
                let k = choose|k: int|
                    0 <= k < before.len() && (#[trigger] before[k]).covers(note);
                assert(after[k] == before[k]);
            } else {
                assert(after[before.len() as int].covers(note));
            }
        }
    }
}

/// For each transaction that has Ironwood outputs, and for no other, there is one range: it starts after
/// the Orchard outputs and has as many indices as there are Ironwood outputs.
pub proof fn lemma_ranges_found<P, D>(
    migration: Migration<P>,
    transactions: Vec<SentTransaction<D>>,
    r: Result<Vec<IronwoodRange>, WalletMigrationError<D>>,
)
    requires
        call_ensures(
            Migration::<P>::backfill_sent_ironwood_pool_codes::<D>,
            (&migration, transactions),
            r,
        ),
        forall|i: int|
            0 <= i < transactions@.len() ==> ((#[trigger] transactions@[i]).parsed matches Ok(
                counts,
            ) ==> counts.storable()),
    ensures
        r is Ok <==> forall|i: int|
            0 <= i < transactions@.len() ==> (#[trigger] transactions@[i]).parsed is Ok,
        r matches Ok(found) ==> {
            &&& forall|i: int|
                0 <= i < transactions@.len() && (
                #[trigger] transactions@[i]).parsed->Ok_0.ironwood > 0 ==> range_among(
                    found@,
                    transactions@[i],
                )
            &&& forall|k: int|
                0 <= k < found@.len() ==> range_of_some(transactions@, #[trigger] found@[k])
            &&& found@.len() <= transactions@.len()
        },
{
    if let Ok(found) = r {
        assert forall|i: int| 0 <= i < transactions@.len() implies (
        #[trigger] transactions@[i]).parsed is Ok by {}
        lemma_ranges(transactions@);
    }
}

/// Whether a range is that of a transaction's Ironwood outputs.
pub open spec fn is_range_of<D>(range: IronwoodRange, transaction: SentTransaction<D>) -> bool {
    &&& range.id_tx == transaction.id_tx
    &&& transaction.parsed matches Ok(counts) && {
        &&& counts.ironwood > 0
        &&& range.ironwood_start == counts.orchard
        &&& range.ironwood_end - range.ironwood_start == counts.ironwood
    }
}

/// Whether the range of a transaction's Ironwood outputs is among some ranges.
pub open spec fn range_among<D>(found: Seq<IronwoodRange>, transaction: SentTransaction<D>) -> bool {
    exists|k: int| 0 <= k < found.len() && is_range_of(#[trigger] found[k], transaction)
}

/// Whether a range is that of the Ironwood outputs of one of some transactions.
pub open spec fn range_of_some<D>(
    transactions: Seq<SentTransaction<D>>,
    range: IronwoodRange,
) -> bool {
    exists|i: int| 0 <= i < transactions.len() && is_range_of(range, #[trigger] transactions[i])
}

/// The ranges are those of the transactions that have Ironwood outputs.
proof fn lemma_ranges<D>(transactions: Seq<SentTransaction<D>>)
    requires
        forall|i: int|
            0 <= i < transactions.len() ==> ((#[trigger] transactions[i]).parsed matches Ok(counts)
                && counts.storable()),
    ensures
        forall|i: int|
            0 <= i < transactions.len() && (#[trigger] transactions[i]).parsed->Ok_0.ironwood > 0
                ==> range_among(ranges(transactions), transactions[i]),
        forall|k: int|
            0 <= k < ranges(transactions).len() ==> range_of_some(
                transactions,
                #[trigger] ranges(transactions)[k],
            ),
        ranges(transactions).len() <= transactions.len(),
    decreases transactions.len(),
{
    if transactions.len() > 0 {
        let front = transactions.drop_last();
        let before = ranges(front);
        let all = ranges(transactions);
        assert forall|i: int| 0 <= i < front.len() implies ((
        #[trigger] front[i]).parsed matches Ok(counts) && counts.storable()) by {
            assert(front[i] == transactions[i]);
        }
        lemma_ranges(front);
        assert(transactions[transactions.len() - 1] == transactions.last());
        assert forall|i: int|
            0 <= i < transactions.len() && (#[trigger] transactions[i]).parsed->Ok_0.ironwood
                > 0 implies range_among(all, transactions[i]) by {
            if i < front.len() {
                assert(front[i] == transactions[i]);
                assert(range_among(before, front[i]));
                let k = choose|k: int|
                    0 <= k < before.len() && is_range_of(#[trigger] before[k], front[i]);
                assert(is_range_of(all[k], transactions[i]));
            } else {
                assert(is_range_of(all[all.len() - 1], transactions[i]));
            }
        }
        assert forall|k: int| 0 <= k < all.len() implies range_of_some(
            transactions,
            #[trigger] all[k],
        ) by {
            if k < before.len() {
                assert(range_of_some(front, before[k]));
                let i = choose|i: int|
                    0 <= i < front.len() && is_range_of(before[k], #[trigger] front[i]);
                assert(is_range_of(all[k], transactions[i]));
            } else {
                assert(is_range_of(all[k], transactions[transactions.len() - 1]));
            }
        }
    }
}

} // verus!
