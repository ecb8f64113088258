//! The two ends of the queue.
//!
//! A producer reads one file: the title row first, then line after line, and
//! says for each what goes into the queue. It ends with a sentinel. The
//! consumer takes what comes out of the queue, numbers the rows of the
//! report, and counts sentinels until every producer has sent its own.
//!
//! Reading, queueing and writing are the caller's part; the decisions are
//! made here.

use vstd::prelude::*;
use vstd::string::*;
use crate::error::OrderError;
use crate::htsc::{
    gen_fixed_order_spec, gen_order_spec, Context, LedgerMismatch, MismatchView, Settlement,
};
use crate::order::{DeliveryOrder, OrderView};
use crate::schema::FixedSchema;
use crate::text::{chars_of, line_fields, split_line, texts};

verus! {

/// The text that a sequence of bytes stands for in the GBK encoding.
pub uninterp spec fn gbk_text(bytes: Seq<u8>) -> Seq<char>;

/// The longest line, in bytes, that is decoded.
pub open spec fn max_line_bytes() -> int {
    isize::MAX / 8
}

/// `encoding_rs::GBK.decode`: the text of `bytes` in the GBK encoding, a
/// function of the bytes alone. A byte order mark at the start selects UTF-8
/// or UTF-16 in place of GBK and is left out of the text; malformed sequences
/// become U+FFFD. The call panics where the size of its buffer overflows,
/// which the bound on the length rules out.
#[verifier::external_body]
fn decode_gbk(bytes: &[u8]) -> (text: String)
    requires
        bytes@.len() <= max_line_bytes(),
    ensures
        text@ == gbk_text(bytes@),
{
    let (text, _, _) = encoding_rs::GBK.decode(bytes);
    text.into_owned()
}

/// The text of a line as the vendor wrote it; `None` where the line is longer
/// than `max_line_bytes`.
pub fn decode_line(bytes: &[u8]) -> (r: Option<String>)
    ensures
        match r {
            Some(text) => bytes@.len() <= max_line_bytes() && text@ == gbk_text(bytes@),
            None => bytes@.len() > max_line_bytes(),
        },
{
    if bytes.len() <= (isize::MAX as usize) / 8 {
        Some(decode_gbk(bytes))
    } else {
        None
    }
}

/// Whether a file of this name is read: its name ends in `txt`.
pub open spec fn supported_path(path: Seq<char>) -> bool {
    let n = path.len() as int;
    n >= 3 && path[n - 3] == 't' && path[n - 2] == 'x' && path[n - 1] == 't'
}

/// Whether a file of this name is read.
pub fn supports(path: &str) -> (r: bool)
    ensures
        r == supported_path(path@),
{
    let v = chars_of(path);
    let n: usize = v.len();
    n >= 3 && v[n - 3] == 't' && v[n - 2] == 'x' && v[n - 1] == 't'
}

/// Where a producer stands in its file.
#[derive(Clone, Copy, Debug, PartialEq, Eq, Structural)]
pub enum Phase {
    /// The title row has not been read.
    Reading,
    /// Lines are read and records emitted.
    Emitting,
    /// The sentinel has been sent; nothing more is delivered.
    Drained,
}

/// What goes into the queue after one step of a producer.
#[derive(Debug)]
pub enum Delivery {
    Nothing,
    Record(DeliveryOrder),
    /// The marker that ends the producer's records.
    Sentinel,
}

/// One step of a producer: what goes into the queue, and what is to be
/// reported beside it.
#[derive(Debug)]
pub struct Step {
    pub delivery: Delivery,
    /// A running total that differs from the vendor's remaining quantity.
    pub mismatch: Option<LedgerMismatch>,
    /// Why the line gave no record, where it was rejected.
    pub error: Option<OrderError>,
}

/// A message in the queue: a record, or `None` for a sentinel.
pub type Message = Option<OrderView>;

/// What a `Step` holds, as plain values.
pub struct StepView {
    /// The message that goes into the queue, if one does.
    pub delivery: Option<Message>,
    pub mismatch: Option<MismatchView>,
    pub error: Option<OrderError>,
}

impl View for Step {
    type V = StepView;

    open spec fn view(&self) -> StepView {
        StepView {
            delivery: match self.delivery {
                Delivery::Nothing => None,
                Delivery::Record(order) => Some(Some(order@)),
                Delivery::Sentinel => Some(None),
            },
            mismatch: match self.mismatch {
                Some(m) => Some(m@),
                None => None,
            },
            error: self.error,
        }
    }
}

impl StepView {
    /// A step that delivers nothing and reports nothing.
    pub open spec fn idle() -> StepView {
        StepView { delivery: None, mismatch: None, error: None }
    }

    /// The step that ends a producer.
    pub open spec fn sentinel(error: Option<OrderError>) -> StepView {
        StepView { delivery: Some(None), mismatch: None, error: error }
    }
}

/// The producer of one file.
#[derive(Debug)]
pub struct Producer {
    phase: Phase,
    titles: Vec<String>,
    reference: Option<FixedSchema>,
}

/// What a `Producer` holds, as plain values.
pub struct ProducerView {
    pub phase: Phase,
    /// The title row of the file, once it is read.
    pub titles: Seq<Seq<char>>,
    /// The title row that the positional schema expects; `None` for a file
    /// that is read by its titles.
    pub reference: Option<Seq<Seq<char>>>,
}

impl ProducerView {
    /// A producer that has read nothing yet, for a file that is read by its
    /// titles.
    pub open spec fn fresh() -> ProducerView {
        ProducerView { phase: Phase::Reading, titles: Seq::empty(), reference: None }
    }
}

impl View for Producer {
    type V = ProducerView;

    closed spec fn view(&self) -> ProducerView {
        ProducerView {
            phase: self.phase,
            titles: texts(self.titles@),
            reference: match self.reference {
                Some(schema) => Some(schema.titles()),
                None => None,
            },
        }
    }
}

/// A producer after a step, with the ledger that the step leaves.
pub struct Stepped {
    pub producer: ProducerView,
    pub ledger: Map<Seq<char>, int>,
    pub step: StepView,
}

/// One line given to a producer.
///
/// The first line is the title row. A file that is read by its titles takes
/// it as its schema; the positional schema accepts only its own title row and
/// ends the file otherwise. Every later line gives a record, which is
/// delivered exactly if it is valid. A line that is rejected is skipped, but
/// for a format mismatch, which ends the file: the sentinel is delivered at
/// once. A drained producer delivers nothing.
pub open spec fn feed_spec(p: ProducerView, ledger: Map<Seq<char>, int>, line: Seq<char>) -> Stepped {
    match p.phase {
        Phase::Drained => Stepped { producer: p, ledger: ledger, step: StepView::idle() },
        Phase::Reading => {
            let row = line_fields(line);
            if p.reference is Some && p.reference != Some(row) {
                Stepped {
                    producer: ProducerView { phase: Phase::Drained, ..p },
                    ledger: ledger,
                    step: StepView::sentinel(Some(OrderError::FormatMismatch)),
                }
            } else {
                Stepped {
                    producer: ProducerView { phase: Phase::Emitting, titles: row, ..p },
                    ledger: ledger,
                    step: StepView::idle(),
                }
            }
        },
        Phase::Emitting => {
            let outcome = if p.reference is Some {
                gen_fixed_order_spec(ledger, line)
            } else {
                gen_order_spec(ledger, p.titles, line)
            };
            match outcome {
                Ok(s) => Stepped {
                    producer: p,
                    ledger: s.ledger,
                    step: StepView {
                        delivery: if s.result.order.valid() {
                            Some(Some(s.result.order))
                        } else {
                            None
                        },
                        mismatch: s.result.mismatch,
                        error: None,
                    },
                },
                Err(e) => if e.is_fatal() {
                    Stepped {
                        producer: ProducerView { phase: Phase::Drained, ..p },
                        ledger: ledger,
                        step: StepView::sentinel(Some(e)),
                    }
                } else {
                    Stepped {
                        producer: p,
                        ledger: ledger,
                        step: StepView { delivery: None, mismatch: None, error: Some(e) },
                    }
                },
            }
        },
    }
}

/// The end of the input: a producer that is not drained delivers its
/// sentinel and is drained.
pub open spec fn finish_spec(p: ProducerView) -> (ProducerView, StepView) {
    if p.phase == Phase::Drained {
        (p, StepView::idle())
    } else {
        (ProducerView { phase: Phase::Drained, ..p }, StepView::sentinel(None))
    }
}

/// One line given as the bytes that were read: a line too long to decode is
/// a format mismatch and ends the file, any other is decoded and fed.
pub open spec fn feed_bytes_spec(p: ProducerView, ledger: Map<Seq<char>, int>, bytes: Seq<u8>) -> Stepped {
    if bytes.len() <= max_line_bytes() {
        feed_spec(p, ledger, gbk_text(bytes))
    } else if p.phase == Phase::Drained {
        Stepped { producer: p, ledger: ledger, step: StepView::idle() }
    } else {
        Stepped {
            producer: ProducerView { phase: Phase::Drained, ..p },
            ledger: ledger,
            step: StepView::sentinel(Some(OrderError::FormatMismatch)),
        }
    }
}

impl Producer {
    /// A producer for a file that is read by its titles.
    pub fn new() -> (r: Producer)
        ensures
            r@ == ProducerView::fresh(),
    {
        let r = Producer { phase: Phase::Reading, titles: Vec::new(), reference: None };
        assert(r@.titles =~= Seq::empty());
        r
    }

    /// A producer for a file of the positional schema.
    pub fn fixed(schema: FixedSchema) -> (r: Producer)
        ensures
            r@ == (ProducerView {
                phase: Phase::Reading,
                titles: Seq::empty(),
                reference: Some(schema.titles()),
            }),
    {
        let r = Producer { phase: Phase::Reading, titles: Vec::new(), reference: Some(schema) };
        assert(r@.titles =~= Seq::empty());
        r
    }

    /// Where the producer stands.
    pub fn phase(&self) -> (r: Phase)
        ensures
            r == self@.phase,
    {
        self.phase
    }

    /// The title row of the file, once it is read.
    pub fn titles(&self) -> (r: &Vec<String>)
        ensures
            texts(r@) == self@.titles,
    {
        &self.titles
    }

    /// Takes one line of the file: see `feed_spec`.
    pub fn feed(&mut self, ctx: &mut Context, line: String) -> (r: Step)
        ensures
            final(self)@ == feed_spec(old(self)@, old(ctx).totals(), line@).producer,
            final(ctx).totals() == feed_spec(old(self)@, old(ctx).totals(), line@).ledger,
            r@ == feed_spec(old(self)@, old(ctx).totals(), line@).step,
            final(ctx).is_debug() == old(ctx).is_debug(),
    {
        match self.phase {
            Phase::Drained => Step { delivery: Delivery::Nothing, mismatch: None, error: None },
            Phase::Reading => {
                let row = split_line(line.as_str());
                let accepted = match &self.reference {
                    Some(schema) => schema.check_titles(&row).is_ok(),
                    None => true,
                };
                if accepted {
                    self.titles = row;
                    self.phase = Phase::Emitting;
                    Step { delivery: Delivery::Nothing, mismatch: None, error: None }
                } else {
                    self.phase = Phase::Drained;
                    Step {
                        delivery: Delivery::Sentinel,
                        mismatch: None,
                        error: Some(OrderError::FormatMismatch),
                    }
                }
            },
            Phase::Emitting => {
                let outcome = if self.reference.is_some() {
                    ctx.gen_fixed_order(line)
                } else {
                    ctx.gen_order(&self.titles, line)
                };
                match outcome {
                    Ok(settlement) => {
                        let Settlement { order, mismatch } = settlement;
                        if order.is_valid() {
                            Step { delivery: Delivery::Record(order), mismatch: mismatch, error: None }
                        } else {
                            Step { delivery: Delivery::Nothing, mismatch: mismatch, error: None }
                        }
                    },
                    Err(e) => {
                        if e.fatal() {
                            self.phase = Phase::Drained;
                            Step { delivery: Delivery::Sentinel, mismatch: None, error: Some(e) }
                        } else {
                            Step { delivery: Delivery::Nothing, mismatch: None, error: Some(e) }
                        }
                    },
                }
            },
        }
    }

    /// Takes one line of the file as the bytes that were read: see
    /// `feed_bytes_spec`.
    pub fn feed_bytes(&mut self, ctx: &mut Context, bytes: &[u8]) -> (r: Step)
        ensures
            final(self)@ == feed_bytes_spec(old(self)@, old(ctx).totals(), bytes@).producer,
            final(ctx).totals() == feed_bytes_spec(old(self)@, old(ctx).totals(), bytes@).ledger,
            r@ == feed_bytes_spec(old(self)@, old(ctx).totals(), bytes@).step,
            final(ctx).is_debug() == old(ctx).is_debug(),
    {
        match decode_line(bytes) {
            Some(line) => self.feed(ctx, line),
            None => {
                if self.phase == Phase::Drained {
                    Step { delivery: Delivery::Nothing, mismatch: None, error: None }
                } else {
                    self.phase = Phase::Drained;
                    Step {
                        delivery: Delivery::Sentinel,
                        mismatch: None,
                        error: Some(OrderError::FormatMismatch),
                    }
                }
            },
        }
    }

    /// Takes the end of the input: see `finish_spec`.
    pub fn finish(&mut self) -> (r: Step)
        ensures
            final(self)@ == finish_spec(old(self)@).0,
            r@ == finish_spec(old(self)@).1,
    {
        if self.phase == Phase::Drained {
            Step { delivery: Delivery::Nothing, mismatch: None, error: None }
        } else {
            self.phase = Phase::Drained;
            Step { delivery: Delivery::Sentinel, mismatch: None, error: None }
        }
    }
}

/// The count that a consumer keeps: how many producers there are, how many
/// sentinels have come, and the records that went to the report, in order.
pub struct Tally {
    pub producers: nat,
    pub sentinels: nat,
    pub written: Seq<OrderView>,
}

impl Tally {
    /// The count before any message.
    pub open spec fn start(producers: nat) -> Tally {
        Tally { producers: producers, sentinels: 0, written: Seq::empty() }
    }

    /// The pipeline is complete when every producer has sent its sentinel.
    pub open spec fn complete(self) -> bool {
        self.sentinels >= self.producers
    }

    /// The count after one more message: a record is written, a sentinel is
    /// counted. A complete consumer takes nothing more.
    pub open spec fn receive(self, message: Message) -> Tally {
        if self.complete() {
            self
        } else {
            match message {
                Some(order) => Tally { written: self.written.push(order), ..self },
                None => Tally { sentinels: self.sentinels + 1, ..self },
            }
        }
    }

    /// The count after the messages were taken in order.
    pub open spec fn receive_all(self, messages: Seq<Message>) -> Tally
        decreases messages.len(),
    {
        if messages.len() == 0 {
            self
        } else {
            self.receive_all(messages.drop_last()).receive(messages.last())
        }
    }
}

/// What the consumer does with one message.
#[derive(Debug)]
pub enum Action {
    /// The record goes into this row of the report; row 0 holds the titles.
    Write { row: u32, order: DeliveryOrder },
    /// A sentinel was counted, and producers are still at work.
    Wait,
    /// Every producer has sent its sentinel: the report is to be closed.
    Finish,
    /// The report has no row left for the record, which was not counted.
    Full { order: DeliveryOrder },
}

/// What an `Action` holds, as plain values.
pub enum ActionView {
    Write { row: nat, order: OrderView },
    Wait,
    Finish,
    Full { order: OrderView },
}

impl View for Action {
    type V = ActionView;

    open spec fn view(&self) -> ActionView {
        match self {
            Action::Write { row, order } => ActionView::Write { row: *row as nat, order: order@ },
            Action::Wait => ActionView::Wait,
            Action::Finish => ActionView::Finish,
            Action::Full { order } => ActionView::Full { order: order@ },
        }
    }
}

/// The consumer: the one reader of the queue.
pub struct Consumer {
    producers: usize,
    sentinels: usize,
    rows: u32,
    written: Ghost<Seq<OrderView>>,
}

impl View for Consumer {
    type V = Tally;

    closed spec fn view(&self) -> Tally {
        Tally {
            producers: self.producers as nat,
            sentinels: self.sentinels as nat,
            written: self.written@,
        }
    }
}

impl Consumer {
    #[verifier::type_invariant]
    spec fn counts_agree(self) -> bool {
        self.sentinels <= self.producers && self.rows == self.written@.len()
    }

    /// A consumer for this number of producers.
    pub fn new(producers: usize) -> (r: Consumer)
        ensures
            r@ == Tally::start(producers as nat),
    {
        Consumer { producers: producers, sentinels: 0, rows: 0, written: Ghost(Seq::empty()) }
    }

    /// Whether every producer has sent its sentinel.
    pub fn is_complete(&self) -> (r: bool)
        ensures
            r == self@.complete(),
    {
        self.sentinels >= self.producers
    }

    /// The number of records that went to the report.
    pub fn rows(&self) -> (r: u32)
        ensures
            r == self@.written.len(),
    {
        proof {
            use_type_invariant(self);
        }
        self.rows
    }

    /// The number of sentinels that have come.
    pub fn sentinels(&self) -> (r: usize)
        ensures
            r == self@.sentinels,
            r <= self@.producers,
    {
        proof {
            use_type_invariant(self);
        }
        self.sentinels
    }

    /// Takes one message from the queue.
    ///
    /// A complete consumer answers `Finish` and counts nothing. Otherwise a
    /// record is given the next row, unless the row numbers are used up; a
    /// sentinel is counted, and the answer is `Finish` exactly if it was the
    /// last one awaited.
    pub fn receive(&mut self, message: Option<DeliveryOrder>) -> (r: Action)
        ensures
            old(self)@.complete() ==> r@ == ActionView::Finish && final(self)@ == old(self)@,
            !old(self)@.complete() ==> match message {
                Some(order) => if old(self)@.written.len() < u32::MAX {
                    &&& final(self)@ == old(self)@.receive(Some(order@))
                    &&& r@ == (ActionView::Write {
                        row: final(self)@.written.len(),
                        order: order@,
                    })
                } else {
                    &&& final(self)@ == old(self)@
                    &&& r@ == (ActionView::Full { order: order@ })
                },
                None => {
                    &&& final(self)@ == old(self)@.receive(None)
                    &&& r@ == if final(self)@.complete() {
                        ActionView::Finish
                    } else {
                        ActionView::Wait
                    }
                },
            },
    {
        proof {
            use_type_invariant(&*self);
        }
        if self.sentinels >= self.producers {
            return Action::Finish;
        }
        match message {
            Some(order) => {
                if self.rows == u32::MAX {
                    Action::Full { order }
                } else {
                    let row: u32 = self.rows + 1;
                    *self = Consumer {
                        producers: self.producers,
                        sentinels: self.sentinels,
                        rows: row,
                        written: Ghost(self.written@.push(order@)),
                    };
                    Action::Write { row, order }
                }
            },
            None => {
                self.sentinels = self.sentinels + 1;
                if self.sentinels >= self.producers {
                    Action::Finish
                } else {
                    Action::Wait
                }
            },
        }
    }
}

} // verus!
