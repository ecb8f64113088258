//! What holds of the queue as a whole: what one producer sends from its first
//! line to its sentinel, and what the consumer has counted when the messages
//! of several producers reach it in any interleaving.

use vstd::prelude::*;
use crate::order::OrderView;
use crate::pipeline::{
    feed_bytes_spec, feed_spec, finish_spec, Message, Phase, ProducerView, StepView, Stepped,
    Tally,
};

verus! {

/// The messages that a step puts into the queue: one or none.
pub open spec fn queued(step: StepView) -> Seq<Message> {
    match step.delivery {
        Some(message) => seq![message],
        None => Seq::empty(),
    }
}

/// One line as it is given to a producer: as text, or as the bytes that were
/// read from the file.
pub enum Line {
    Text(Seq<char>),
    Bytes(Seq<u8>),
}

/// One line given to a producer.
pub open spec fn take_line(p: ProducerView, ledger: Map<Seq<char>, int>, line: Line) -> Stepped {
    match line {
        Line::Text(text) => feed_spec(p, ledger, text),
        Line::Bytes(bytes) => feed_bytes_spec(p, ledger, bytes),
    }
}

/// A producer after it was fed some lines, and what it has sent.
pub struct Fed {
    pub producer: ProducerView,
    pub sent: Seq<Message>,
}

/// A producer that is fed `lines` in order. The ledger is shared with other
/// producers, so each line finds it in a state of its own: `ledgers[i]` is
/// the ledger that line `i` is read against.
pub open spec fn feed_all(
    p: ProducerView,
    ledgers: Seq<Map<Seq<char>, int>>,
    lines: Seq<Line>,
) -> Fed
    decreases lines.len(),
{
    if lines.len() == 0 {
        Fed { producer: p, sent: Seq::empty() }
    } else {
        let before = feed_all(p, ledgers.drop_last(), lines.drop_last());
        let stepped = take_line(before.producer, ledgers.last(), lines.last());
        Fed { producer: stepped.producer, sent: before.sent + queued(stepped.step) }
    }
}

/// All that a producer sends for a file: what its lines give, then what the
/// end of the input gives.
pub open spec fn outbox(
    p: ProducerView,
    ledgers: Seq<Map<Seq<char>, int>>,
    lines: Seq<Line>,
) -> Seq<Message> {
    let fed = feed_all(p, ledgers, lines);
    fed.sent + queued(finish_spec(fed.producer).1)
}

/// Records, then exactly one sentinel, which comes last.
pub open spec fn is_outbox(messages: Seq<Message>) -> bool {
    &&& messages.len() >= 1
    &&& messages.last() is None
    &&& forall|i: int| 0 <= i < messages.len() - 1 ==> messages[i] is Some
}

/// Every record among the messages is valid.
pub open spec fn all_valid(messages: Seq<Message>) -> bool {
    forall|i: int|
        0 <= i < messages.len() ==> (#[trigger] messages[i] matches Some(order) ==> order.valid())
}

/// The filter at the queue: one step delivers a record only if the record is
/// valid, delivers the sentinel exactly when the producer becomes drained,
/// and a drained producer stays as it is and delivers nothing.
pub proof fn law_step(p: ProducerView, ledger: Map<Seq<char>, int>, line: Line)
    ensures
        ({
            let s = take_line(p, ledger, line);
            &&& s.step.delivery matches Some(Some(order)) ==> order.valid()
            &&& s.step.delivery == Some(None::<OrderView>) <==> p.phase != Phase::Drained
                && s.producer.phase == Phase::Drained
            &&& p.phase == Phase::Drained ==> s.producer == p && s.step.delivery is None
                && s.ledger == ledger
        }),
        ({
            let f = finish_spec(p);
            &&& f.0.phase == Phase::Drained
            &&& f.1.delivery == Some(None::<OrderView>) <==> p.phase != Phase::Drained
            &&& p.phase == Phase::Drained ==> f.1.delivery is None
        }),
{
}

/// The messages sent so far are valid records, and once the producer is
/// drained they are an outbox: one more step keeps it so.
pub open spec fn sent_so_far(phase: Phase, sent: Seq<Message>) -> bool {
    &&& all_valid(sent)
    &&& phase != Phase::Drained ==> forall|i: int| 0 <= i < sent.len() ==> sent[i] is Some
    &&& phase == Phase::Drained ==> is_outbox(sent)
}

/// While a producer is fed, it has sent valid records only; once it is
/// drained, it has sent its sentinel, and nothing after it.
proof fn lemma_feed_all(p: ProducerView, ledgers: Seq<Map<Seq<char>, int>>, lines: Seq<Line>)
    requires
        p.phase != Phase::Drained,
    ensures
        sent_so_far(feed_all(p, ledgers, lines).producer.phase, feed_all(p, ledgers, lines).sent),
    decreases lines.len(),
{
    if lines.len() > 0 {
        lemma_feed_all(p, ledgers.drop_last(), lines.drop_last());
        let before = feed_all(p, ledgers.drop_last(), lines.drop_last());
        law_step(before.producer, ledgers.last(), lines.last());
    }
}

/// A producer that starts on a file sends valid records only, in the order of
/// its lines, and exactly one sentinel, after all of its records.
pub proof fn law_outbox(p: ProducerView, ledgers: Seq<Map<Seq<char>, int>>, lines: Seq<Line>)
    requires
        p.phase != Phase::Drained,
    ensures
        is_outbox(outbox(p, ledgers, lines)),
        all_valid(outbox(p, ledgers, lines)),
{
    lemma_feed_all(p, ledgers, lines);
    law_step(feed_all(p, ledgers, lines).producer, Map::empty(), Line::Text(Seq::empty()));
}

/// The records among the messages, in order.
pub open spec fn records_of(messages: Seq<Message>) -> Seq<OrderView>
    decreases messages.len(),
{
    if messages.len() == 0 {
        Seq::empty()
    } else {
        match messages.last() {
            Some(order) => records_of(messages.drop_last()).push(order),
            None => records_of(messages.drop_last()),
        }
    }
}

/// The number of sentinels among the messages.
pub open spec fn sentinels_in(messages: Seq<Message>) -> nat
    decreases messages.len(),
{
    if messages.len() == 0 {
        0
    } else if messages.last() is None {
        sentinels_in(messages.drop_last()) + 1
    } else {
        sentinels_in(messages.drop_last())
    }
}

/// The number of records that the producers send, all together.
pub open spec fn total_records(boxes: Seq<Seq<Message>>) -> nat
    decreases boxes.len(),
{
    if boxes.len() == 0 {
        0
    } else {
        total_records(boxes.drop_last()) + records_of(boxes.last()).len()
    }
}

/// How many of the turns are turns of producer `p`.
pub open spec fn turns(who: Seq<nat>, p: nat) -> nat
    decreases who.len(),
{
    if who.len() == 0 {
        0
    } else if who.last() == p {
        turns(who.drop_last(), p) + 1
    } else {
        turns(who.drop_last(), p)
    }
}

/// An interleaving of the producers' messages, given as the producer whose
/// message comes at each place of the queue: every producer has as many
/// turns as it has messages.
pub open spec fn is_schedule(boxes: Seq<Seq<Message>>, who: Seq<nat>) -> bool {
    &&& forall|k: int| 0 <= k < who.len() ==> #[trigger] who[k] < boxes.len()
    &&& forall|p: nat| p < boxes.len() ==> #[trigger] turns(who, p) == boxes[p as int].len()
}

/// The queue that a schedule gives: at each turn, the next message of the
/// producer whose turn it is.
pub open spec fn merged(boxes: Seq<Seq<Message>>, who: Seq<nat>) -> Seq<Message> {
    Seq::new(who.len(), |k: int| boxes[who[k] as int][turns(who.take(k), who[k]) as int])
}

/// The messages of producer `p` in the queue, in the order of the queue.
pub open spec fn from_producer(queue: Seq<Message>, who: Seq<nat>, p: nat) -> Seq<Message>
    decreases who.len(),
{
    if who.len() == 0 {
        Seq::empty()
    } else if who.last() == p {
        from_producer(queue.drop_last(), who.drop_last(), p).push(queue.last())
    } else {
        from_producer(queue.drop_last(), who.drop_last(), p)
    }
}

/// Among the first `n` producers, the number of those that have had all
/// their turns.
spec fn finished(boxes: Seq<Seq<Message>>, who: Seq<nat>, n: nat) -> nat
    decreases n,
{
    if n == 0 {
        0
    } else if turns(who, (n - 1) as nat) >= boxes[n - 1].len() {
        finished(boxes, who, (n - 1) as nat) + 1
    } else {
        finished(boxes, who, (n - 1) as nat)
    }
}

/// The turns of the first `n` producers, all together.
spec fn total_turns(who: Seq<nat>, n: nat) -> nat
    decreases n,
{
    if n == 0 {
        0
    } else {
        total_turns(who, (n - 1) as nat) + turns(who, (n - 1) as nat)
    }
}

/// The messages of the first `n` producers, all together.
spec fn total_messages(boxes: Seq<Seq<Message>>, n: nat) -> nat
    decreases n,
{
    if n == 0 {
        0
    } else {
        total_messages(boxes, (n - 1) as nat) + boxes[n - 1].len()
    }
}

proof fn lemma_turns_push(who: Seq<nat>, q: nat, p: nat)
    ensures
        turns(who.push(q), p) == turns(who, p) + if q == p {
            1nat
        } else {
            0nat
        },
{
    assert(who.push(q).drop_last() == who);
}

/// A prefix of the turns holds no more turns of a producer than the whole.
proof fn lemma_turns_prefix(who: Seq<nat>, k: int, p: nat)
    requires
        0 <= k <= who.len(),
    ensures
        turns(who.take(k), p) <= turns(who, p),
        k < who.len() && who[k] == p ==> turns(who.take(k), p) < turns(who, p),
    decreases who.len() - k,
{
    if k < who.len() {
        lemma_turns_prefix(who, k + 1, p);
        assert(who.take(k + 1) == who.take(k).push(who[k]));
        lemma_turns_push(who.take(k), who[k], p);
    } else {
        assert(who.take(k) == who);
    }
}

/// Messages are records or sentinels.
proof fn lemma_records_and_sentinels(messages: Seq<Message>)
    ensures
        records_of(messages).len() + sentinels_in(messages) == messages.len(),
    decreases messages.len(),
{
    if messages.len() > 0 {
        lemma_records_and_sentinels(messages.drop_last());
    }
}

/// An outbox holds one sentinel, and a proper prefix of it holds none.
proof fn lemma_outbox_sentinels(messages: Seq<Message>, k: int)
    requires
        is_outbox(messages),
        0 <= k <= messages.len(),
    ensures
        sentinels_in(messages.take(k)) == if k == messages.len() {
            1nat
        } else {
            0nat
        },
    decreases k,
{
    if k > 0 {
        lemma_outbox_sentinels(messages, k - 1);
        assert(messages.take(k).drop_last() == messages.take(k - 1));
        assert(messages.take(k).last() == messages[k - 1]);
    }
}

/// One more turn finishes one more producer exactly if it was that
/// producer's last.
proof fn lemma_finished_push(boxes: Seq<Seq<Message>>, who: Seq<nat>, q: nat, n: nat)
    requires
        n <= boxes.len(),
        turns(who, q) < boxes[q as int].len() || q >= n,
    ensures
        finished(boxes, who.push(q), n) == finished(boxes, who, n) + if q < n && turns(who, q) + 1
            == boxes[q as int].len() {
            1nat
        } else {
            0nat
        },
    decreases n,
{
    if n > 0 {
        lemma_finished_push(boxes, who, q, (n - 1) as nat);
        lemma_turns_push(who, q, (n - 1) as nat);
    }
}

/// No more producers have finished than there are, and fewer where one has
/// turns left.
proof fn lemma_finished_bound(boxes: Seq<Seq<Message>>, who: Seq<nat>, n: nat, p: nat)
    ensures
        finished(boxes, who, n) <= n,
        p < n && turns(who, p) < boxes[p as int].len() ==> finished(boxes, who, n) < n,
        (forall|q: nat| q < n ==> turns(who, q) >= boxes[q as int].len()) ==> finished(
            boxes,
            who,
            n,
        ) == n,
    decreases n,
{
    if n > 0 {
        lemma_finished_bound(boxes, who, (n - 1) as nat, p);
    }
}

/// Every turn is the turn of one producer.
proof fn lemma_total_turns(who: Seq<nat>, n: nat)
    requires
        forall|k: int| 0 <= k < who.len() ==> #[trigger] who[k] < n,
    ensures
        total_turns(who, n) == who.len(),
    decreases who.len(),
{
    if who.len() == 0 {
        lemma_total_turns_none(who, n);
    } else {
        let rest = who.drop_last();
        assert forall|k: int| 0 <= k < rest.len() implies #[trigger] rest[k] < n by {
            assert(rest[k] == who[k]);
        }
        lemma_total_turns(rest, n);
        assert(rest.push(who.last()) == who);
        lemma_total_turns_push(rest, who.last(), n);
    }
}

proof fn lemma_total_turns_none(who: Seq<nat>, n: nat)
    requires
        who.len() == 0,
    ensures
        total_turns(who, n) == 0,
    decreases n,
{
    if n > 0 {
        lemma_total_turns_none(who, (n - 1) as nat);
    }
}

proof fn lemma_total_turns_push(who: Seq<nat>, q: nat, n: nat)
    ensures
        total_turns(who.push(q), n) == total_turns(who, n) + if q < n {
            1nat
        } else {
            0nat
        },
    decreases n,
{
    if n > 0 {
        lemma_total_turns_push(who, q, (n - 1) as nat);
        lemma_turns_push(who, q, (n - 1) as nat);
    }
}

/// Under a schedule the turns are as many as the messages, and the messages
/// are the records and one sentinel for each producer.
proof fn lemma_total_messages(boxes: Seq<Seq<Message>>, who: Seq<nat>, n: nat)
    requires
        n <= boxes.len(),
        forall|p: int| 0 <= p < boxes.len() ==> is_outbox(#[trigger] boxes[p]),
        forall|p: nat| p < boxes.len() ==> #[trigger] turns(who, p) == boxes[p as int].len(),
    ensures
        total_turns(who, n) == total_messages(boxes, n),
        total_messages(boxes, n) == total_records(boxes.take(n as int)) + n,
    decreases n,
{
    if n > 0 {
        let m = (n - 1) as nat;
        lemma_total_messages(boxes, who, m);
        assert(turns(who, m) == boxes[m as int].len());
        assert(boxes.take(n as int).drop_last() == boxes.take(m as int));
        assert(boxes.take(n as int).last() == boxes[m as int]);
        lemma_records_and_sentinels(boxes[m as int]);
        lemma_outbox_sentinels(boxes[m as int], boxes[m as int].len() as int);
        assert(boxes[m as int].take(boxes[m as int].len() as int) == boxes[m as int]);
    } else {
        assert(boxes.take(0).len() == 0);
    }
}

/// The first `k` places of the queue hold, of each producer, its first
/// messages in their order, and as many sentinels as producers have finished.
proof fn lemma_queue_prefix(boxes: Seq<Seq<Message>>, who: Seq<nat>, k: int)
    requires
        forall|p: int| 0 <= p < boxes.len() ==> is_outbox(#[trigger] boxes[p]),
        is_schedule(boxes, who),
        0 <= k <= who.len(),
    ensures
        sentinels_in(merged(boxes, who).take(k)) == finished(
            boxes,
            who.take(k),
            boxes.len() as nat,
        ),
        forall|p: nat|
            p < boxes.len() ==> from_producer(merged(boxes, who).take(k), who.take(k), p)
                == boxes[p as int].take(turns(who.take(k), p) as int),
    decreases k,
{
    let queue = merged(boxes, who);
    let n = boxes.len() as nat;
    if k == 0 {
        assert(who.take(0).len() == 0);
        assert(queue.take(0).len() == 0);
        assert forall|q: nat| q < n implies turns(who.take(0), q) < boxes[q as int].len() by {
            assert(is_outbox(boxes[q as int]));
        }
        lemma_finished_none(boxes, who.take(0), n);
        assert forall|p: nat| p < boxes.len() implies from_producer(
            queue.take(0),
            who.take(0),
            p,
        ) == boxes[p as int].take(turns(who.take(0), p) as int) by {
            assert(boxes[p as int].take(0) == Seq::<Message>::empty());
        }
    } else {
        lemma_queue_prefix(boxes, who, k - 1);
        let q = who[k - 1];
        let before = who.take(k - 1);
        let t = turns(before, q);
        assert(who.take(k) == before.push(q));
        assert(who.take(k).drop_last() == before);
        assert(queue.take(k).drop_last() == queue.take(k - 1));
        assert(queue.take(k).last() == queue[k - 1]);
        lemma_turns_prefix(who, k - 1, q);
        assert(q < boxes.len());
        assert(turns(who, q) == boxes[q as int].len());
        assert(is_outbox(boxes[q as int]));
        assert(queue[k - 1] == boxes[q as int][t as int]);
        lemma_finished_push(boxes, before, q, n);
        assert forall|p: nat| p < boxes.len() implies from_producer(
            queue.take(k),
            who.take(k),
            p,
        ) == boxes[p as int].take(turns(who.take(k), p) as int) by {
            lemma_turns_push(before, q, p);
            assert(from_producer(queue.take(k - 1), before, p) == boxes[p as int].take(
                turns(before, p) as int,
            ));
            if p == q {
                assert(boxes[p as int].take(t as int + 1) == boxes[p as int].take(t as int).push(
                    boxes[p as int][t as int],
                ));
                assert(from_producer(queue.take(k), who.take(k), p) == from_producer(
                    queue.take(k - 1),
                    before,
                    p,
                ).push(queue[k - 1]));
            } else {
                assert(from_producer(queue.take(k), who.take(k), p) == from_producer(
                    queue.take(k - 1),
                    before,
                    p,
                ));
            }
        }
    }
}

proof fn lemma_finished_none(boxes: Seq<Seq<Message>>, who: Seq<nat>, n: nat)
    requires
        forall|q: nat| q < n ==> turns(who, q) < boxes[q as int].len(),
    ensures
        finished(boxes, who, n) == 0,
    decreases n,
{
    if n > 0 {
        lemma_finished_none(boxes, who, (n - 1) as nat);
    }
}

/// A consumer that is not complete before the last of the messages has
/// counted their sentinels and written their records, in order.
proof fn lemma_receive_all(producers: nat, messages: Seq<Message>)
    requires
        forall|k: int| 0 <= k < messages.len() ==> sentinels_in(messages.take(k)) < producers,
    ensures
        Tally::start(producers).receive_all(messages) == (Tally {
            producers: producers,
            sentinels: sentinels_in(messages),
            written: records_of(messages),
        }),
    decreases messages.len(),
{
    if messages.len() > 0 {
        let rest = messages.drop_last();
        assert forall|k: int| 0 <= k < rest.len() implies sentinels_in(rest.take(k))
            < producers by {
            assert(rest.take(k) == messages.take(k));
        }
        lemma_receive_all(producers, rest);
        assert(messages.take(messages.len() - 1) == rest);
    }
}

/// Sentinel accounting. The producers' messages reach the consumer in any
/// interleaving that keeps each producer's own order. Then the consumer is
/// not complete before the last message, and is complete after it; it has
/// counted one sentinel for each producer; it has written every record of
/// every producer, and no more; and the messages of each producer stand in
/// the queue in the order in which the producer sent them.
pub proof fn law_sentinel_accounting(boxes: Seq<Seq<Message>>, who: Seq<nat>)
    requires
        forall|p: int| 0 <= p < boxes.len() ==> is_outbox(#[trigger] boxes[p]),
        is_schedule(boxes, who),
    ensures
        ({
            let queue = merged(boxes, who);
            let start = Tally::start(boxes.len());
            let end = start.receive_all(queue);
            &&& forall|k: int| 0 <= k < queue.len() ==> !start.receive_all(queue.take(k)).complete()
            &&& end.complete()
            &&& end.sentinels == boxes.len()
            &&& end.written == records_of(queue)
            &&& end.written.len() == total_records(boxes)
            &&& forall|p: nat| p < boxes.len() ==> from_producer(queue, who, p) == boxes[p as int]
        }),
{
    let queue = merged(boxes, who);
    let n = boxes.len();
    let start = Tally::start(n);
    assert forall|k: int| 0 <= k < queue.len() implies sentinels_in(queue.take(k)) < n by {
        lemma_queue_prefix(boxes, who, k);
        lemma_turns_prefix(who, k, who[k]);
        assert(turns(who, who[k]) == boxes[who[k] as int].len());
        lemma_finished_bound(boxes, who.take(k), n, who[k]);
    }
    assert forall|k: int| 0 <= k < queue.len() implies !start.receive_all(
        queue.take(k),
    ).complete() by {
        let prefix = queue.take(k);
        assert forall|j: int| 0 <= j < prefix.len() implies sentinels_in(prefix.take(j)) < n by {
            assert(prefix.take(j) == queue.take(j));
        }
        lemma_receive_all(n, prefix);
    }
    lemma_receive_all(n, queue);
    lemma_queue_prefix(boxes, who, who.len() as int);
    assert(who.take(who.len() as int) == who);
    assert(queue.take(who.len() as int) == queue);
    lemma_finished_bound(boxes, who, n, 0);
    lemma_records_and_sentinels(queue);
    lemma_total_turns(who, n);
    lemma_total_messages(boxes, who, n);
    assert(boxes.take(n as int) == boxes);
    assert forall|p: nat| p < boxes.len() implies from_producer(queue, who, p)
        == boxes[p as int] by {
        assert(turns(who, p) == boxes[p as int].len());
        assert(boxes[p as int].take(boxes[p as int].len() as int) == boxes[p as int]);
    }
}

} // verus!
