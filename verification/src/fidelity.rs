//! What runs of reads and writes do to the bytes, stated over whole
//! sequences of outcomes.
//!
//! A device is seen here as the sequence of outcomes that the calls on it
//! return. The proofs say that the messages which a port delivers are the
//! bytes that the device produced, cut at the points at which it had no more
//! to give, and that the bytes which a device takes during a write drain are
//! the payload from its front: nothing is lost, nothing comes twice, nothing
//! changes place.

use vstd::prelude::*;
use crate::event::Message;
use crate::diagnostic::{CauseView, Phase};
use crate::port::{PortModel, ReadActionView, ReadOutcomeView};
use crate::write::{WriteModel, WriteOutcomeView, WriteStepView};

verus! {

/// The message that an action hands to the consumer, if it hands one.
pub open spec fn delivery(action: ReadActionView) -> Seq<Message> {
    match action {
        ReadActionView::Deliver(message) => seq![message],
        _ => Seq::empty(),
    }
}

/// The port after the host has fed it the outcomes of a run of reads, and
/// the messages that it delivered on the way, oldest first.
pub open spec fn read_run(port: PortModel, outcomes: Seq<ReadOutcomeView>) -> (
    PortModel,
    Seq<Message>,
)
    decreases outcomes.len(),
{
    if outcomes.len() == 0 {
        (port, Seq::empty())
    } else {
        let (next, action) = port.read_step(outcomes[0]);
        let (last, later) = read_run(next, outcomes.drop_first());
        (last, delivery(action) + later)
    }
}

/// The bytes that the device produced during a run of reads.
pub open spec fn produced(outcomes: Seq<ReadOutcomeView>) -> Seq<u8>
    decreases outcomes.len(),
{
    if outcomes.len() == 0 {
        Seq::empty()
    } else {
        let first = match outcomes[0] {
            ReadOutcomeView::Bytes(chunk) => chunk,
            _ => Seq::empty(),
        };
        first + produced(outcomes.drop_first())
    }
}

/// The bytes of a sequence of messages, one after the other.
pub open spec fn contents(messages: Seq<Message>) -> Seq<u8>
    decreases messages.len(),
{
    if messages.len() == 0 {
        Seq::empty()
    } else {
        messages[0].bytes + contents(messages.drop_first())
    }
}

/// A read that ends neither the message nor the connection: it brought
/// bytes, was interrupted, or failed. Only a read that would block ends the
/// message, and only one that returns zero bytes ends the connection.
pub open spec fn adds_to_message(outcome: ReadOutcomeView) -> bool {
    match outcome {
        ReadOutcomeView::Bytes(chunk) => chunk.len() > 0,
        ReadOutcomeView::WouldBlock => false,
        _ => true,
    }
}

/// A read after which the connection is still open: any but one that
/// returned zero bytes.
pub open spec fn keeps_open(outcome: ReadOutcomeView) -> bool {
    match outcome {
        ReadOutcomeView::Bytes(chunk) => chunk.len() > 0,
        _ => true,
    }
}

/// The outcomes of the reads that drain a device once: those that add to
/// the message, then the one that would block because the device has no more
/// to give.
pub open spec fn drain_of(reads: Seq<ReadOutcomeView>) -> Seq<ReadOutcomeView> {
    reads.push(ReadOutcomeView::WouldBlock)
}

/// The message in which `bytes` leave the port with the given label: none if
/// there are no bytes.
pub open spec fn message_of(label: Seq<char>, bytes: Seq<u8>) -> Seq<Message> {
    if bytes.len() == 0 {
        Seq::empty()
    } else {
        seq![Message { label, bytes }]
    }
}

/// The outcomes of the reads that drain a device several times over.
pub open spec fn drains_of(cycles: Seq<Seq<ReadOutcomeView>>) -> Seq<ReadOutcomeView>
    decreases cycles.len(),
{
    if cycles.len() == 0 {
        Seq::empty()
    } else {
        drain_of(cycles[0]) + drains_of(cycles.drop_first())
    }
}

/// One message for each time that the device was drained of any bytes: the
/// bytes that its reads brought. The first message starts with `carry`, the
/// bytes that the port held already.
pub open spec fn messages_of(
    label: Seq<char>,
    carry: Seq<u8>,
    cycles: Seq<Seq<ReadOutcomeView>>,
) -> Seq<Message>
    decreases cycles.len(),
{
    if cycles.len() == 0 {
        Seq::empty()
    } else {
        message_of(label, carry + produced(cycles[0])) + messages_of(
            label,
            Seq::empty(),
            cycles.drop_first(),
        )
    }
}

/// A run of reads can be cut anywhere: the second part goes on where the
/// first one ended, and the messages of both follow each other.
pub proof fn lemma_read_run_split(
    port: PortModel,
    before: Seq<ReadOutcomeView>,
    after: Seq<ReadOutcomeView>,
)
    ensures
        ({
            let (middle, early) = read_run(port, before);
            let (last, late) = read_run(middle, after);
            read_run(port, before + after) == (last, early + late)
        }),
    decreases before.len(),
{
    if before.len() == 0 {
        assert(before + after =~= after);
        let (last, late) = read_run(port, after);
        assert(Seq::<Message>::empty() + late =~= late);
    } else {
        let whole = before + after;
        assert(whole[0] == before[0]);
        assert(whole.drop_first() =~= before.drop_first() + after);
        let (next, action) = port.read_step(before[0]);
        lemma_read_run_split(next, before.drop_first(), after);
        let (middle, early) = read_run(next, before.drop_first());
        let (last, late) = read_run(middle, after);
        assert(delivery(action) + (early + late) =~= (delivery(action) + early) + late);
    }
}

/// Until a read would block, a connected port delivers nothing and holds all
/// that came, in the order in which it came.
pub proof fn lemma_reads_accumulate(port: PortModel, reads: Seq<ReadOutcomeView>)
    requires
        port.connected,
        forall|i: int| 0 <= i < reads.len() ==> adds_to_message(#[trigger] reads[i]),
    ensures
        read_run(port, reads) == (
            PortModel { pending: port.pending + produced(reads), ..port },
            Seq::<Message>::empty(),
        ),
    decreases reads.len(),
{
    if reads.len() == 0 {
        assert(port.pending + produced(reads) =~= port.pending);
    } else {
        assert(adds_to_message(reads[0]));
        let (next, action) = port.read_step(reads[0]);
        let rest = reads.drop_first();
        assert forall|i: int| 0 <= i < rest.len() implies adds_to_message(#[trigger] rest[i]) by {
            assert(rest[i] == reads[i + 1]);
        }
        lemma_reads_accumulate(next, rest);
        let first = match reads[0] {
            ReadOutcomeView::Bytes(chunk) => chunk,
            _ => Seq::empty(),
        };
        assert(next.pending =~= port.pending + first);
        assert(next.pending + produced(rest) =~= port.pending + produced(reads));
        assert(delivery(action) + Seq::<Message>::empty() =~= Seq::<Message>::empty());
    }
}

/// Draining a device delivers exactly what was read: when the device has no
/// more to give, the bytes that the port held and those that the reads
/// brought leave as one message under the port's label, in their order, and
/// the port holds nothing. Where there are no bytes nothing is delivered.
pub proof fn lemma_drain_delivers_what_was_read(port: PortModel, reads: Seq<ReadOutcomeView>)
    requires
        port.connected,
        forall|i: int| 0 <= i < reads.len() ==> adds_to_message(#[trigger] reads[i]),
    ensures
        read_run(port, drain_of(reads)) == (
            PortModel { pending: Seq::empty(), ..port },
            message_of(port.label, port.pending + produced(reads)),
        ),
{
    let end = seq![ReadOutcomeView::WouldBlock];
    assert(drain_of(reads) =~= reads + end);
    lemma_read_run_split(port, reads, end);
    lemma_reads_accumulate(port, reads);
    let full = PortModel { pending: port.pending + produced(reads), ..port };
    let (emptied, action) = full.read_step(end[0]);
    assert(end.drop_first() =~= Seq::<ReadOutcomeView>::empty());
    assert(read_run(emptied, end.drop_first()) == (emptied, Seq::<Message>::empty()));
    assert(read_run(full, end) == (emptied, delivery(action) + Seq::<Message>::empty()));
    assert(delivery(action) + Seq::<Message>::empty() =~= delivery(action));
    assert(Seq::<Message>::empty() + delivery(action) =~= delivery(action));
    if full.pending.len() == 0 {
        assert(emptied.pending =~= Seq::<u8>::empty());
    }
}

/// However often the device is drained, each message is the exact
/// concatenation of the bytes that the device produced since the message
/// before it: one message for each time that the device was drained of any
/// bytes, in that order. What the device produced after it was last drained
/// waits in the port for the next message.
pub proof fn lemma_drains_deliver_in_order(
    port: PortModel,
    cycles: Seq<Seq<ReadOutcomeView>>,
    tail: Seq<ReadOutcomeView>,
)
    requires
        port.connected,
        forall|c: int, i: int|
            0 <= c < cycles.len() && 0 <= i < cycles[c].len() ==> adds_to_message(
                #[trigger] cycles[c][i],
            ),
        forall|i: int| 0 <= i < tail.len() ==> adds_to_message(#[trigger] tail[i]),
    ensures
        read_run(port, drains_of(cycles) + tail) == (
            PortModel {
                pending: if cycles.len() == 0 {
                    port.pending + produced(tail)
                } else {
                    produced(tail)
                },
                ..port
            },
            messages_of(port.label, port.pending, cycles),
        ),
    decreases cycles.len(),
{
    if cycles.len() == 0 {
        assert(drains_of(cycles) + tail =~= tail);
        lemma_reads_accumulate(port, tail);
    } else {
        let first = cycles[0];
        let rest = cycles.drop_first();
        assert forall|i: int| 0 <= i < first.len() implies adds_to_message(
            #[trigger] first[i],
        ) by {
            assert(first[i] == cycles[0][i]);
        }
        lemma_drain_delivers_what_was_read(port, first);
        let emptied = PortModel { pending: Seq::empty(), ..port };
        assert forall|c: int, i: int|
            0 <= c < rest.len() && 0 <= i < rest[c].len() implies adds_to_message(
            #[trigger] rest[c][i],
        ) by {
            assert(rest[c] == cycles[c + 1]);
        }
        lemma_drains_deliver_in_order(emptied, rest, tail);
        assert(drains_of(cycles) + tail =~= drain_of(first) + (drains_of(rest) + tail));
        lemma_read_run_split(port, drain_of(first), drains_of(rest) + tail);
        if rest.len() == 0 {
            assert(emptied.pending + produced(tail) =~= produced(tail));
        }
    }
}

/// No byte is lost, doubled or moved while the connection stays open: after
/// any run of reads, whatever their outcomes, the bytes that were delivered
/// and those that the port still holds are the bytes that it held before and
/// those that the device produced. Each message carries the port's label and
/// at least one byte.
pub proof fn lemma_open_port_keeps_every_byte(port: PortModel, outcomes: Seq<ReadOutcomeView>)
    requires
        port.connected,
        forall|i: int| 0 <= i < outcomes.len() ==> keeps_open(#[trigger] outcomes[i]),
    ensures
        ({
            let (last, delivered) = read_run(port, outcomes);
            &&& last.connected
            &&& last.label == port.label
            &&& last.increment == port.increment
            &&& contents(delivered) + last.pending == port.pending + produced(outcomes)
            &&& forall|k: int|
                0 <= k < delivered.len() ==> (#[trigger] delivered[k]).label == port.label
                    && delivered[k].bytes.len() > 0
        }),
    decreases outcomes.len(),
{
    if outcomes.len() == 0 {
        assert(contents(Seq::<Message>::empty()) + port.pending =~= port.pending + produced(
            outcomes,
        ));
    } else {
        assert(keeps_open(outcomes[0]));
        let (next, action) = port.read_step(outcomes[0]);
        let rest = outcomes.drop_first();
        assert forall|i: int| 0 <= i < rest.len() implies keeps_open(#[trigger] rest[i]) by {
            assert(rest[i] == outcomes[i + 1]);
        }
        lemma_open_port_keeps_every_byte(next, rest);
        let (last, later) = read_run(next, rest);
        let delivered = delivery(action) + later;
        let first = match outcomes[0] {
            ReadOutcomeView::Bytes(chunk) => chunk,
            _ => Seq::empty(),
        };
        assert(contents(delivery(action)) + next.pending =~= port.pending + first) by {
            if action is Deliver {
                let only = delivery(action);
                assert(only.drop_first() =~= Seq::<Message>::empty());
                assert(contents(only.drop_first()) =~= Seq::<u8>::empty());
                assert(contents(only) =~= only[0].bytes + contents(only.drop_first()));
            }
        }
        assert(contents(delivered) =~= contents(delivery(action)) + contents(later)) by {
            if action is Deliver {
                let only = delivery(action);
                assert(delivered.drop_first() =~= later);
                assert(only.drop_first() =~= Seq::<Message>::empty());
                assert(contents(only.drop_first()) =~= Seq::<u8>::empty());
                assert(contents(only) =~= only[0].bytes + contents(only.drop_first()));
            } else {
                assert(delivered =~= later);
            }
        }
        assert(contents(delivered) + last.pending =~= contents(delivery(action)) + (contents(later)
            + last.pending));
        assert(contents(delivery(action)) + (next.pending + produced(rest)) =~= (contents(
            delivery(action),
        ) + next.pending) + produced(rest));
        assert((port.pending + first) + produced(rest) =~= port.pending + produced(outcomes));
    }
}

/// The bytes that the port takes by a write with the given outcome: as many
/// as it accepted, from the front of those offered.
pub open spec fn taken(drain: WriteModel, outcome: WriteOutcomeView) -> Seq<u8> {
    match outcome {
        WriteOutcomeView::Accepted(n) => {
            if n >= drain.offered().len() {
                drain.offered()
            } else {
                drain.offered().subrange(0, n as int)
            }
        },
        _ => Seq::empty(),
    }
}

/// Whether the port took nothing and said so.
pub open spec fn refused(outcome: WriteOutcomeView) -> bool {
    outcome is WouldBlock
}

/// Number of writes in a run at which the port took nothing and said so.
pub open spec fn refusals(outcomes: Seq<WriteOutcomeView>) -> nat
    decreases outcomes.len(),
{
    if outcomes.len() == 0 {
        0
    } else {
        (if refused(outcomes[0]) {
            1nat
        } else {
            0nat
        }) + refusals(outcomes.drop_first())
    }
}

/// The bytes that the port took during a run of writes, and how the payload
/// stands after it. Outcomes that come after the drain has ended count for
/// nothing: the host makes no write then.
pub open spec fn write_run(step: WriteStepView, outcomes: Seq<WriteOutcomeView>) -> (
    Seq<u8>,
    WriteStepView,
)
    decreases outcomes.len(),
{
    match step {
        WriteStepView::Offer(drain) => {
            if outcomes.len() == 0 {
                (Seq::empty(), step)
            } else {
                let (later, last) = write_run(
                    drain.write_step(outcomes[0]),
                    outcomes.drop_first(),
                );
                (taken(drain, outcomes[0]) + later, last)
            }
        },
        _ => (Seq::empty(), step),
    }
}

/// How a payload stands after `sent_now` more bytes went to the port: what
/// the port took in all is the payload from its front, and what is handed
/// back is the rest.
pub open spec fn accounts_for(drain: WriteModel, sent_now: Seq<u8>, last: WriteStepView) -> bool {
    let sent = drain.sent() + sent_now;
    match last {
        WriteStepView::Offer(next) => {
            &&& next.wf()
            &&& next.label == drain.label
            &&& next.payload == drain.payload
            &&& next.sent() == sent
            &&& next.retries_left <= drain.retries_left
        },
        WriteStepView::Complete => sent == drain.payload,
        WriteStepView::Requeue(rest) => {
            &&& rest.label == drain.label
            &&& rest.bytes.len() > 0
            &&& sent + rest.bytes == drain.payload
        },
        WriteStepView::Abandon(diagnostic) => {
            &&& diagnostic.label == drain.label
            &&& diagnostic.phase == Phase::Write
            &&& diagnostic.cause is Os
            &&& sent.len() < drain.payload.len()
            &&& sent == drain.payload.subrange(0, sent.len() as int)
        },
    }
}

/// A write drain sends the payload byte for byte, whatever the writes
/// return and in however many parts the port takes it. When the drain
/// completes, the port has taken exactly the payload, each byte once and in
/// its place. When the port's refusals end it, the request that goes back to
/// the host holds the payload without the bytes that the port has taken. When
/// an error ends it, what the port has taken is a front part of the payload.
pub proof fn lemma_write_run_accounts_for_payload(
    drain: WriteModel,
    outcomes: Seq<WriteOutcomeView>,
)
    requires
        drain.wf(),
    ensures
        ({
            let (sent_now, last) = write_run(WriteStepView::Offer(drain), outcomes);
            accounts_for(drain, sent_now, last)
        }),
    decreases outcomes.len(),
{
    let payload = drain.payload;
    if outcomes.len() == 0 {
        assert(drain.sent() + Seq::<u8>::empty() =~= drain.sent());
    } else {
        let outcome = outcomes[0];
        let rest = outcomes.drop_first();
        let step = drain.write_step(outcome);
        let now = taken(drain, outcome);
        let (later, last) = write_run(step, rest);
        assert(write_run(WriteStepView::Offer(drain), outcomes) == (now + later, last));
        match step {
            WriteStepView::Offer(next) => {
                assert(next.sent() =~= drain.sent() + now);
                lemma_write_run_accounts_for_payload(next, rest);
                assert(next.sent() + later =~= drain.sent() + (now + later));
            },
            WriteStepView::Complete => {
                assert(later =~= Seq::<u8>::empty());
                assert(drain.sent() + (now + later) =~= payload);
            },
            WriteStepView::Requeue(back) => {
                assert(later =~= Seq::<u8>::empty());
                assert(drain.sent() + (now + later) + back.bytes =~= payload);
            },
            WriteStepView::Abandon(diagnostic) => {
                assert(later =~= Seq::<u8>::empty());
                assert(drain.sent() + (now + later) =~= drain.sent());
            },
        }
    }
}

/// A payload that a connected port takes up is sent whole or handed back in
/// part: when the drain completes, the port has taken exactly the payload;
/// when the port's refusals end it, the bytes that the port has taken and
/// those of the request that goes back are the payload, and the request that
/// goes back carries the port's label.
pub proof fn lemma_payload_is_sent_or_handed_back(
    port: PortModel,
    payload: Seq<u8>,
    retries: nat,
    outcomes: Seq<WriteOutcomeView>,
)
    requires
        port.connected,
    ensures
        ({
            let (sent, last) = write_run(port.begin_write(payload, retries), outcomes);
            match last {
                WriteStepView::Complete => sent == payload,
                WriteStepView::Requeue(rest) => {
                    &&& rest.label == port.label
                    &&& sent + rest.bytes == payload
                },
                WriteStepView::Offer(next) => {
                    &&& next.payload == payload
                    &&& next.sent() == sent
                },
                WriteStepView::Abandon(diagnostic) => {
                    &&& diagnostic.cause is Os
                    &&& sent == payload.subrange(0, sent.len() as int)
                },
            }
        }),
{
    let first = port.begin_write(payload, retries);
    match first {
        WriteStepView::Offer(drain) => {
            lemma_write_run_accounts_for_payload(drain, outcomes);
            let (sent, last) = write_run(first, outcomes);
            assert(drain.sent() + sent =~= sent);
        },
        _ => {
            assert(payload =~= Seq::<u8>::empty());
        },
    }
}

/// A drain gives way after a bounded number of refusals: one that is still
/// in progress has met no more of them than it had retries, and each has
/// cost it one.
pub proof fn lemma_refusals_use_up_retries(drain: WriteModel, outcomes: Seq<WriteOutcomeView>)
    requires
        drain.wf(),
    ensures
        ({
            let (_, last) = write_run(WriteStepView::Offer(drain), outcomes);
            last matches WriteStepView::Offer(next) ==> next.retries_left + refusals(outcomes)
                == drain.retries_left
        }),
    decreases outcomes.len(),
{
    if outcomes.len() > 0 {
        let rest = outcomes.drop_first();
        let step = drain.write_step(outcomes[0]);
        let (later, last) = write_run(step, rest);
        assert(write_run(WriteStepView::Offer(drain), outcomes).1 == last);
        match step {
            WriteStepView::Offer(next) => {
                lemma_refusals_use_up_retries(next, rest);
            },
            _ => {},
        }
    }
}

} // verus!
