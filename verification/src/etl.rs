//! Load statistics and the per-line outcomes of the bulk loaders.

use vstd::prelude::*;

use crate::text::{decimal, usize_text};

verus! {

/// Why a line was not loaded.
#[derive(Debug, Clone)]
pub enum Rejection {
    /// The line does not have the expected number of columns.
    ColumnCount,
    /// The customer id does not read as an integer.
    InvalidCustomerId,
    /// No customer has this id.
    UnknownCustomer(i32),
    /// The date does not read as `%Y-%m-%d`.
    InvalidDate(String),
    /// No status has this name.
    MissingStatus(String),
    /// No category has this name.
    MissingCategory(String),
    /// The order id does not read as an integer.
    InvalidOrderId,
    /// The product id does not read as an integer.
    InvalidProductId,
    /// No order has this id.
    MissingOrder(i32),
    /// No product has this id.
    MissingProduct(i32),
}

/// The mathematical content of a [`Rejection`].
pub enum RejectionView {
    ColumnCount,
    InvalidCustomerId,
    UnknownCustomer(i32),
    InvalidDate(Seq<char>),
    MissingStatus(Seq<char>),
    MissingCategory(Seq<char>),
    InvalidOrderId,
    InvalidProductId,
    MissingOrder(i32),
    MissingProduct(i32),
}

impl View for Rejection {
    type V = RejectionView;

    open spec fn view(&self) -> RejectionView {
        match self {
            Rejection::ColumnCount => RejectionView::ColumnCount,
            Rejection::InvalidCustomerId => RejectionView::InvalidCustomerId,
            Rejection::UnknownCustomer(c) => RejectionView::UnknownCustomer(*c),
            Rejection::InvalidDate(s) => RejectionView::InvalidDate(s@),
            Rejection::MissingStatus(s) => RejectionView::MissingStatus(s@),
            Rejection::MissingCategory(s) => RejectionView::MissingCategory(s@),
            Rejection::InvalidOrderId => RejectionView::InvalidOrderId,
            Rejection::InvalidProductId => RejectionView::InvalidProductId,
            Rejection::MissingOrder(o) => RejectionView::MissingOrder(*o),
            Rejection::MissingProduct(p) => RejectionView::MissingProduct(*p),
        }
    }
}

/// What becomes of one line of a file that is bulk-loaded.
#[derive(Debug, Clone)]
pub enum LineOutcome {
    /// The header line, skipped without being counted.
    Header,
    /// A counted line that is not loaded.
    Rejected(Rejection),
    /// A counted line, and the row (with its line feed) to send to the database.
    Row(String),
}

/// The mathematical content of a [`LineOutcome`].
pub enum OutcomeView {
    Header,
    Rejected(RejectionView),
    Row(Seq<char>),
}

impl View for LineOutcome {
    type V = OutcomeView;

    open spec fn view(&self) -> OutcomeView {
        match self {
            LineOutcome::Header => OutcomeView::Header,
            LineOutcome::Rejected(r) => OutcomeView::Rejected(r@),
            LineOutcome::Row(s) => OutcomeView::Row(s@),
        }
    }
}

/// Number of outcomes that are not the header.
pub open spec fn count_processed(outcomes: Seq<OutcomeView>) -> nat
    decreases outcomes.len(),
{
    if outcomes.len() == 0 {
        0
    } else {
        count_processed(outcomes.drop_last()) + if outcomes.last() is Header {
            0nat
        } else {
            1nat
        }
    }
}

/// Number of rejected outcomes.
pub open spec fn count_rejected(outcomes: Seq<OutcomeView>) -> nat
    decreases outcomes.len(),
{
    if outcomes.len() == 0 {
        0
    } else {
        count_rejected(outcomes.drop_last()) + if outcomes.last() is Rejected {
            1nat
        } else {
            0nat
        }
    }
}

/// Number of outcomes that are rows.
pub open spec fn count_rows(outcomes: Seq<OutcomeView>) -> nat
    decreases outcomes.len(),
{
    if outcomes.len() == 0 {
        0
    } else {
        count_rows(outcomes.drop_last()) + if outcomes.last() is Row {
            1nat
        } else {
            0nat
        }
    }
}

/// Every counted line is either rejected or a row; none is counted more
/// than once, and at most every line is counted.
pub proof fn law_counted_lines(outcomes: Seq<OutcomeView>)
    ensures
        count_processed(outcomes) == count_rejected(outcomes) + count_rows(outcomes),
        count_processed(outcomes) <= outcomes.len(),
    decreases outcomes.len(),
{
    if outcomes.len() > 0 {
        law_counted_lines(outcomes.drop_last());
    }
}

/// Counters of a load.
pub struct EtlStats {
    pub processed: usize,
    pub inserted: usize,
    pub rejected: usize,
    pub errors: Vec<String>,
}

impl Default for EtlStats {
    fn default() -> (s: EtlStats)
        ensures
            s.processed == 0,
            s.inserted == 0,
            s.rejected == 0,
            s.errors@.len() == 0,
    {
        EtlStats { processed: 0, inserted: 0, rejected: 0, errors: Vec::new() }
    }
}

/// The lines of the printed summary of a load called `name`.
pub open spec fn summary_lines_spec(
    name: Seq<char>,
    processed: usize,
    inserted: usize,
    rejected: usize,
    errors: nat,
) -> Seq<Seq<char>> {
    let base = seq![
        "\n=== ETL Summary: "@ + name + " ==="@,
        "Processed: "@ + decimal(processed as nat),
        "Inserted: "@ + decimal(inserted as nat),
        "Rejected: "@ + decimal(rejected as nat),
    ];
    if errors > 0 {
        base.push("Errors: "@ + decimal(errors))
    } else {
        base
    }
}

/// `label` followed by the decimal notation of `n`.
fn labelled(label: &str, n: usize) -> (r: String)
    ensures
        r@ == label@ + decimal(n as nat),
{
    let mut s = label.to_string();
    let d = usize_text(n);
    s.append(d.as_str());
    s
}

impl EtlStats {
    /// Fresh counters.
    pub fn new() -> (s: EtlStats)
        ensures
            s.processed == 0,
            s.inserted == 0,
            s.rejected == 0,
            s.errors@.len() == 0,
    {
        EtlStats { processed: 0, inserted: 0, rejected: 0, errors: Vec::new() }
    }

    /// The lines that the summary of this load prints, one per `println!`.
    pub fn summary_lines(&self, name: &str) -> (r: Vec<String>)
        ensures
            r@.len() == summary_lines_spec(name@, self.processed, self.inserted, self.rejected, self.errors@.len()).len(),
            forall|i: int| 0 <= i < r@.len() ==> (#[trigger] r@[i])@ == summary_lines_spec(
                name@,
                self.processed,
                self.inserted,
                self.rejected,
                self.errors@.len(),
            )[i],
    {
        let mut first = "\n=== ETL Summary: ".to_string();
        first.append(name);
        first.append(" ===");
        let mut lines: Vec<String> = Vec::new();
        lines.push(first);
        lines.push(labelled("Processed: ", self.processed));
        lines.push(labelled("Inserted: ", self.inserted));
        lines.push(labelled("Rejected: ", self.rejected));
        if self.errors.len() > 0 {
            lines.push(labelled("Errors: ", self.errors.len()));
        }
        lines
    }

    /// Counts the outcome of sending one row: inserted when it was written,
    /// rejected otherwise.
    pub fn record_write(&mut self, written: bool)
        requires
            old(self).inserted < usize::MAX,
            old(self).rejected < usize::MAX,
        ensures
            final(self).processed == old(self).processed,
            final(self).errors == old(self).errors,
            written ==> final(self).inserted == old(self).inserted + 1 && final(self).rejected
                == old(self).rejected,
            !written ==> final(self).rejected == old(self).rejected + 1 && final(self).inserted
                == old(self).inserted,
    {
        if written {
            self.inserted = self.inserted + 1;
        } else {
            self.rejected = self.rejected + 1;
        }
    }

    /// Counts a line that failed with `message`: rejected, and the message kept.
    pub fn record_error(&mut self, message: String)
        requires
            old(self).rejected < usize::MAX,
        ensures
            final(self).processed == old(self).processed,
            final(self).inserted == old(self).inserted,
            final(self).rejected == old(self).rejected + 1,
            final(self).errors@ == old(self).errors@.push(message),
    {
        self.rejected = self.rejected + 1;
        self.errors.push(message);
    }
}

/// The outcomes of a file's lines and the counters they give: `processed`
/// counts the lines other than the header, `rejected` the rejected ones;
/// nothing is inserted until the rows are written.
pub struct LoadPlan {
    pub outcomes: Vec<LineOutcome>,
    pub stats: EtlStats,
}

/// Counts the outcomes into fresh statistics.
pub fn tally(outcomes: Vec<LineOutcome>) -> (plan: LoadPlan)
    ensures
        plan.outcomes@.len() == outcomes@.len(),
        forall|i: int| 0 <= i < outcomes@.len() ==> (#[trigger] plan.outcomes@[i])@ == outcomes@[i]@,
        plan.stats.processed == count_processed(outcomes@.map_values(|o: LineOutcome| o@)),
        plan.stats.rejected == count_rejected(outcomes@.map_values(|o: LineOutcome| o@)),
        plan.stats.inserted == 0,
        plan.stats.errors@.len() == 0,
{
    let mut stats = EtlStats::new();
    let ghost views = outcomes@.map_values(|o: LineOutcome| o@);
    for i in 0..outcomes.len()
        invariant
            views == outcomes@.map_values(|o: LineOutcome| o@),
            stats.processed == count_processed(views.take(i as int)),
            stats.rejected == count_rejected(views.take(i as int)),
            stats.processed <= i,
            stats.rejected <= i,
            stats.inserted == 0,
            stats.errors@.len() == 0,
    {
        proof {
            assert(views.take(i + 1).drop_last() == views.take(i as int));
            assert(views.take(i + 1).last() == outcomes@[i as int]@);
            law_counted_lines(views.take(i as int));
        }
        match &outcomes[i] {
            LineOutcome::Header => {},
            LineOutcome::Rejected(_) => {
                stats.processed = stats.processed + 1;
                stats.rejected = stats.rejected + 1;
            },
            LineOutcome::Row(_) => {
                stats.processed = stats.processed + 1;
            },
        }
    }
    assert(views.take(outcomes@.len() as int) == views);
    LoadPlan { outcomes, stats }
}

/// What became of one line when the planned rows were sent, in line order.
#[derive(Debug, Clone)]
pub enum Delivery {
    /// The line's row was written.
    Written,
    /// Writing the line's row failed; the message is kept when there is one.
    Failed(Option<String>),
    /// The line could not be read; the message is kept.
    Unreadable(String),
}

/// Number of rows written.
pub open spec fn count_written(ds: Seq<Delivery>) -> nat
    decreases ds.len(),
{
    if ds.len() == 0 {
        0
    } else {
        count_written(ds.drop_last()) + if ds.last() is Written {
            1nat
        } else {
            0nat
        }
    }
}

/// Number of rows whose write failed.
pub open spec fn count_failed(ds: Seq<Delivery>) -> nat
    decreases ds.len(),
{
    if ds.len() == 0 {
        0
    } else {
        count_failed(ds.drop_last()) + if ds.last() is Failed {
            1nat
        } else {
            0nat
        }
    }
}

/// Number of lines that could not be read.
pub open spec fn count_unreadable(ds: Seq<Delivery>) -> nat
    decreases ds.len(),
{
    if ds.len() == 0 {
        0
    } else {
        count_unreadable(ds.drop_last()) + if ds.last() is Unreadable {
            1nat
        } else {
            0nat
        }
    }
}

/// The messages kept, in line order: those of failed writes that have one,
/// and those of unreadable lines.
pub open spec fn delivery_messages(ds: Seq<Delivery>) -> Seq<Seq<char>>
    decreases ds.len(),
{
    if ds.len() == 0 {
        Seq::empty()
    } else {
        let rest = delivery_messages(ds.drop_last());
        match ds.last() {
            Delivery::Written => rest,
            Delivery::Failed(Some(m)) => rest.push(m@),
            Delivery::Failed(None) => rest,
            Delivery::Unreadable(m) => rest.push(m@),
        }
    }
}

/// The counters of a load once its planned rows were sent: each written row
/// counts as inserted; each failed write and each unreadable line as
/// rejected, with their messages kept in line order. When the writes are one
/// per planned row, every processed line ends up inserted or rejected, and
/// only the lines rejected beyond the plan's own outcomes (unreadable lines,
/// lines rejected by an earlier reading) are counted on top.
pub fn finish_load(plan: LoadPlan, deliveries: Vec<Delivery>) -> (stats: EtlStats)
    requires
        plan.stats.processed == count_processed(plan.outcomes@.map_values(|o: LineOutcome| o@)),
        plan.stats.inserted == 0,
        count_rejected(plan.outcomes@.map_values(|o: LineOutcome| o@)) <= plan.stats.rejected,
        count_written(deliveries@) + count_failed(deliveries@) == count_rows(
            plan.outcomes@.map_values(|o: LineOutcome| o@),
        ),
        plan.stats.rejected + deliveries@.len() <= usize::MAX,
    ensures
        stats.processed == plan.stats.processed,
        stats.inserted == count_written(deliveries@),
        stats.rejected == plan.stats.rejected + count_failed(deliveries@) + count_unreadable(deliveries@),
        stats.inserted + stats.rejected == stats.processed + (plan.stats.rejected - count_rejected(
            plan.outcomes@.map_values(|o: LineOutcome| o@),
        )) + count_unreadable(deliveries@),
        stats.errors@.map_values(|e: String| e@) == plan.stats.errors@.map_values(|e: String| e@)
            + delivery_messages(deliveries@),
{
    let ghost ov = plan.outcomes@.map_values(|o: LineOutcome| o@);
    let ghost start = plan.stats.errors@.map_values(|e: String| e@);
    let ghost rejected0 = plan.stats.rejected;
    let mut stats = plan.stats;
    let ghost d = deliveries@;
    for i in 0..deliveries.len()
        invariant
            d == deliveries@,
            d.len() + rejected0 <= usize::MAX,
            stats.processed == count_processed(ov),
            stats.inserted == count_written(d.take(i as int)),
            stats.rejected == rejected0 + count_failed(d.take(i as int)) + count_unreadable(d.take(i as int)),
            count_written(d.take(i as int)) + count_failed(d.take(i as int)) + count_unreadable(d.take(i as int)) == i,
            stats.errors@.map_values(|e: String| e@) == start + delivery_messages(d.take(i as int)),
    {
        proof {
            assert(d.take(i + 1).drop_last() == d.take(i as int));
            assert(d.take(i + 1).last() == d[i as int]);
        }
        let ghost before = stats.errors@;
        match &deliveries[i] {
            Delivery::Written => {
                stats.inserted = stats.inserted + 1;
            },
            Delivery::Failed(m) => {
                stats.rejected = stats.rejected + 1;
                if let Some(m) = m {
                    stats.errors.push(m.clone());
                    assert(stats.errors@.map_values(|e: String| e@) == before.map_values(|e: String| e@).push(m@));
                }
            },
            Delivery::Unreadable(m) => {
                stats.rejected = stats.rejected + 1;
                stats.errors.push(m.clone());
                assert(stats.errors@.map_values(|e: String| e@) == before.map_values(|e: String| e@).push(m@));
            },
        }
    }
    proof {
        assert(d.take(d.len() as int) == d);
        law_counted_lines(ov);
    }
    stats
}

} // verus!
