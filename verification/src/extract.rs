//! A whole file at once: all its lines go through one producer, and what the
//! producer sends and reports is gathered in order.

use vstd::prelude::*;
use crate::accounting::{all_valid, is_outbox, law_step, queued, sent_so_far, Line};
use crate::error::OrderError;
use crate::htsc::{Context, LedgerMismatch, MismatchView};
use crate::order::DeliveryOrder;
use crate::pipeline::{
    feed_bytes_spec, finish_spec, supported_path, supports, Delivery, Message, Producer,
    ProducerView, Step, StepView,
};

verus! {

/// What a file gave.
#[derive(Debug)]
pub struct Extraction {
    /// What goes into the queue, in order: the valid records of the file,
    /// then its sentinel.
    pub messages: Vec<Option<DeliveryOrder>>,
    /// The running totals that differ from what the vendor reports.
    pub mismatches: Vec<LedgerMismatch>,
    /// The lines that were rejected, each with its index in the file and the
    /// reason.
    pub errors: Vec<(usize, OrderError)>,
}

/// What an `Extraction` holds, as plain values.
pub struct ExtractionView {
    pub messages: Seq<Message>,
    pub mismatches: Seq<MismatchView>,
    pub errors: Seq<(int, OrderError)>,
}

impl View for Extraction {
    type V = ExtractionView;

    open spec fn view(&self) -> ExtractionView {
        ExtractionView {
            messages: self.messages@.map_values(
                |m: Option<DeliveryOrder>|
                    match m {
                        Some(order) => Some(order@),
                        None => None,
                    },
            ),
            mismatches: self.mismatches@.map_values(|m: LedgerMismatch| m@),
            errors: self.errors@.map_values(|e: (usize, OrderError)| (e.0 as int, e.1)),
        }
    }
}

impl ExtractionView {
    /// Nothing sent, nothing reported.
    pub open spec fn empty() -> ExtractionView {
        ExtractionView { messages: Seq::empty(), mismatches: Seq::empty(), errors: Seq::empty() }
    }

    /// What is gathered after one more step, made at the line of this index.
    pub open spec fn with_step(self, index: int, step: StepView) -> ExtractionView {
        ExtractionView {
            messages: self.messages + queued(step),
            mismatches: match step.mismatch {
                Some(m) => self.mismatches.push(m),
                None => self.mismatches,
            },
            errors: match step.error {
                Some(e) => self.errors.push((index, e)),
                None => self.errors,
            },
        }
    }
}

/// A producer on its way through a file: where it stands, the ledger, and
/// what it has sent and reported.
pub struct Progress {
    pub producer: ProducerView,
    pub ledger: Map<Seq<char>, int>,
    pub report: ExtractionView,
}

/// A producer after the first `n` lines of a file, each read against the
/// ledger that the lines before it left.
pub open spec fn read_lines(
    p: ProducerView,
    ledger: Map<Seq<char>, int>,
    lines: Seq<Seq<u8>>,
    n: int,
) -> Progress
    decreases n,
{
    if n <= 0 {
        Progress { producer: p, ledger: ledger, report: ExtractionView::empty() }
    } else {
        let before = read_lines(p, ledger, lines, n - 1);
        let stepped = feed_bytes_spec(before.producer, before.ledger, lines[n - 1]);
        Progress {
            producer: stepped.producer,
            ledger: stepped.ledger,
            report: before.report.with_step(n - 1, stepped.step),
        }
    }
}

/// A producer that has read a file to its end.
pub open spec fn read_file(ledger: Map<Seq<char>, int>, lines: Seq<Seq<u8>>) -> Progress {
    let read = read_lines(ProducerView::fresh(), ledger, lines, lines.len() as int);
    let end = finish_spec(read.producer);
    Progress {
        producer: end.0,
        ledger: read.ledger,
        report: read.report.with_step(lines.len() as int, end.1),
    }
}

/// What becomes of a file: one whose name is not supported is rejected as a
/// whole, any other is read to its end.
pub open spec fn extract_spec(
    ledger: Map<Seq<char>, int>,
    path: Seq<char>,
    lines: Seq<Seq<u8>>,
) -> Result<Progress, OrderError> {
    if supported_path(path) {
        Ok(read_file(ledger, lines))
    } else {
        Err(OrderError::FormatMismatch)
    }
}

/// The lines of a file, each as its bytes.
pub open spec fn byte_lines(lines: Seq<Vec<u8>>) -> Seq<Seq<u8>> {
    lines.map_values(|l: Vec<u8>| l@)
}

proof fn lemma_read_lines(ledger: Map<Seq<char>, int>, lines: Seq<Seq<u8>>, n: int)
    ensures
        sent_so_far(
            read_lines(ProducerView::fresh(), ledger, lines, n).producer.phase,
            read_lines(ProducerView::fresh(), ledger, lines, n).report.messages,
        ),
    decreases n,
{
    if n > 0 {
        lemma_read_lines(ledger, lines, n - 1);
        let before = read_lines(ProducerView::fresh(), ledger, lines, n - 1);
        law_step(before.producer, before.ledger, Line::Bytes(lines[n - 1]));
    }
}

/// A file that is read to its end gives valid records only, in the order of
/// its lines, and exactly one sentinel, after all of its records.
pub proof fn law_read_file(ledger: Map<Seq<char>, int>, lines: Seq<Seq<u8>>)
    ensures
        is_outbox(read_file(ledger, lines).report.messages),
        all_valid(read_file(ledger, lines).report.messages),
{
    lemma_read_lines(ledger, lines, lines.len() as int);
    let read = read_lines(ProducerView::fresh(), ledger, lines, lines.len() as int);
    law_step(read.producer, read.ledger, Line::Text(Seq::empty()));
}

impl Extraction {
    /// Gathers what a step sends and reports.
    fn record(&mut self, index: usize, step: Step)
        ensures
            final(self)@ == old(self)@.with_step(index as int, step@),
    {
        let Step { delivery, mismatch, error } = step;
        match delivery {
            Delivery::Nothing => {},
            Delivery::Record(order) => {
                self.messages.push(Some(order));
            },
            Delivery::Sentinel => {
                self.messages.push(None);
            },
        }
        match mismatch {
            Some(m) => {
                self.mismatches.push(m);
            },
            None => {},
        }
        match error {
            Some(e) => {
                self.errors.push((index, e));
            },
            None => {},
        }
        assert(self@.messages =~= old(self)@.with_step(index as int, step@).messages);
        assert(self@.mismatches =~= old(self)@.with_step(index as int, step@).mismatches);
        assert(self@.errors =~= old(self)@.with_step(index as int, step@).errors);
    }
}

impl Context {
    /// Reads a whole file, given as its name and its lines as they were read,
    /// each up to and with its line feed.
    ///
    /// A file whose name does not end in `txt` is rejected with
    /// `FormatMismatch`, and the ledger stays as it was. Any other file goes
    /// through a producer line by line: see `read_file`.
    pub fn extract_from_file(&mut self, path: String, lines: &Vec<Vec<u8>>) -> (r: Result<
        Extraction,
        OrderError,
    >)
        ensures
            match extract_spec(old(self).totals(), path@, byte_lines(lines@)) {
                Ok(p) => r is Ok && r->Ok_0@ == p.report && final(self).totals() == p.ledger,
                Err(e) => r == Err::<Extraction, OrderError>(e) && final(self).totals() == old(
                    self,
                ).totals(),
            },
            final(self).is_debug() == old(self).is_debug(),
    {
        if !supports(path.as_str()) {
            return Err(OrderError::FormatMismatch);
        }
        let ghost start = self.totals();
        let ghost bytes = byte_lines(lines@);
        let mut producer = Producer::new();
        let mut report = Extraction {
            messages: Vec::new(),
            mismatches: Vec::new(),
            errors: Vec::new(),
        };
        assert(report@.messages =~= Seq::empty() && report@.mismatches =~= Seq::empty()
            && report@.errors =~= Seq::empty());
        let n: usize = lines.len();
        let mut i: usize = 0;
        while i < n
            invariant
                i <= n,
                n == lines.len(),
                bytes == byte_lines(lines@),
                self.is_debug() == old(self).is_debug(),
                read_lines(ProducerView::fresh(), start, bytes, i as int) == (Progress {
                    producer: producer@,
                    ledger: self.totals(),
                    report: report@,
                }),
            decreases n - i,
        {
            assert(bytes[i as int] == lines@[i as int]@);
            let step = producer.feed_bytes(self, lines[i].as_slice());
            report.record(i, step);
            i = i + 1;
        }
        let end = producer.finish();
        report.record(n, end);
        Ok(report)
    }
}

/// A file as it was read: its name, and its lines, each up to and with its
/// line feed.
#[derive(Debug)]
pub struct SourceFile {
    pub path: String,
    pub lines: Vec<Vec<u8>>,
}

/// What a `SourceFile` holds, as plain values.
pub struct SourceFileView {
    pub path: Seq<char>,
    pub lines: Seq<Seq<u8>>,
}

impl View for SourceFile {
    type V = SourceFileView;

    open spec fn view(&self) -> SourceFileView {
        SourceFileView { path: self.path@, lines: byte_lines(self.lines@) }
    }
}

/// The files, each as plain values.
pub open spec fn file_views(files: Seq<SourceFile>) -> Seq<SourceFileView> {
    files.map_values(|f: SourceFile| f@)
}

/// The ledger after the first `n` files were read in order. A file that is
/// rejected leaves it as it was.
pub open spec fn ledger_after(
    ledger: Map<Seq<char>, int>,
    files: Seq<SourceFileView>,
    n: int,
) -> Map<Seq<char>, int>
    decreases n,
{
    if n <= 0 {
        ledger
    } else {
        let before = ledger_after(ledger, files, n - 1);
        match extract_spec(before, files[n - 1].path, files[n - 1].lines) {
            Ok(p) => p.ledger,
            Err(_) => before,
        }
    }
}

/// Whether the outcome of a file is the one that `extract_spec` gives.
pub open spec fn is_outcome(r: Result<Extraction, OrderError>, s: Result<Progress, OrderError>) -> bool {
    match s {
        Ok(p) => r is Ok && r->Ok_0@ == p.report,
        Err(e) => r == Err::<Extraction, OrderError>(e),
    }
}

/// Reads the files one after the other with one context, and gives the
/// outcome of each. The reporting of progress is switched as `debug` says
/// before each file.
pub fn extract_from_file(ctx: &mut Context, files: &Vec<SourceFile>, debug: bool) -> (r: Vec<
    Result<Extraction, OrderError>,
>)
    ensures
        r.len() == files.len(),
        forall|i: int|
            0 <= i < files.len() ==> is_outcome(
                #[trigger] r[i],
                extract_spec(
                    ledger_after(old(ctx).totals(), file_views(files@), i),
                    files[i].path@,
                    byte_lines(files[i].lines@),
                ),
            ),
        final(ctx).totals() == ledger_after(
            old(ctx).totals(),
            file_views(files@),
            files.len() as int,
        ),
        final(ctx).is_debug() == if files.len() > 0 {
            debug
        } else {
            old(ctx).is_debug()
        },
{
    let ghost start = ctx.totals();
    let ghost views = file_views(files@);
    let mut outcomes: Vec<Result<Extraction, OrderError>> = Vec::new();
    let n: usize = files.len();
    let mut i: usize = 0;
    while i < n
        invariant
            i <= n,
            n == files.len(),
            views == file_views(files@),
            outcomes.len() == i,
            ctx.totals() == ledger_after(start, views, i as int),
            ctx.is_debug() == if i > 0 {
                debug
            } else {
                old(ctx).is_debug()
            },
            forall|k: int|
                0 <= k < i ==> is_outcome(
                    #[trigger] outcomes[k],
                    extract_spec(
                        ledger_after(start, views, k),
                        files[k].path@,
                        byte_lines(files[k].lines@),
                    ),
                ),
        decreases n - i,
    {
        assert(views[i as int] == files@[i as int]@);
        ctx.set_debug(debug);
        let outcome = ctx.extract_from_file(files[i].path.clone(), &files[i].lines);
        outcomes.push(outcome);
        i = i + 1;
    }
    outcomes
}

} // verus!
