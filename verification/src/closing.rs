//! The end of a connection.
//!
//! A read that returns zero bytes says that the other side has closed the
//! connection. The port is marked closed at that read and never opens again:
//! from then on it delivers no message and takes up no write. A write drain
//! borrows its port while it runs, so no read can close the port under it.

use vstd::prelude::*;
use crate::diagnostic::CauseView;
use crate::event::Message;
use crate::fidelity::{delivery, read_run, write_run};
use crate::port::{PortModel, ReadActionView, ReadOutcomeView};
use crate::write::{WriteOutcomeView, WriteStepView};

verus! {

/// On a closed port a run of reads, whatever their outcomes, changes nothing
/// and delivers nothing.
pub proof fn lemma_closed_port_delivers_nothing(port: PortModel, outcomes: Seq<ReadOutcomeView>)
    requires
        !port.connected,
    ensures
        read_run(port, outcomes) == (port, Seq::<Message>::empty()),
    decreases outcomes.len(),
{
    if outcomes.len() > 0 {
        lemma_closed_port_delivers_nothing(port, outcomes.drop_first());
        let (next, action) = port.read_step(outcomes[0]);
        assert(delivery(action) + Seq::<Message>::empty() =~= Seq::<Message>::empty());
    }
}

/// A zero-byte read closes the port at once and for good. The read itself
/// is answered by the report that the connection is closed; the bytes read
/// before it are dropped. Whatever reads follow, the port stays closed and
/// delivers no message; a drain that is opened on it is turned away, and so
/// is every payload: no byte of it goes to the device, whatever the device
/// would have answered.
pub proof fn lemma_zero_byte_read_closes_for_good(
    port: PortModel,
    later: Seq<ReadOutcomeView>,
    payload: Seq<u8>,
    retries: nat,
    writes: Seq<WriteOutcomeView>,
)
    requires
        port.connected,
    ensures
        ({
            let (closed, action) = port.read_step(ReadOutcomeView::Bytes(Seq::empty()));
            let (last, delivered) = read_run(closed, later);
            &&& !closed.connected
            &&& closed.pending.len() == 0
            &&& action == ReadActionView::Halt(port.read_report(CauseView::Closed))
            &&& last == closed
            &&& delivered.len() == 0
            &&& last.begin_read() == ReadActionView::Halt(
                port.read_report(CauseView::NotConnected),
            )
            &&& last.begin_write(payload, retries) == WriteStepView::Abandon(
                port.write_report(CauseView::NotConnected),
            )
            &&& write_run(last.begin_write(payload, retries), writes) == (
                Seq::<u8>::empty(),
                last.begin_write(payload, retries),
            )
        }),
{
    let (closed, action) = port.read_step(ReadOutcomeView::Bytes(Seq::empty()));
    lemma_closed_port_delivers_nothing(closed, later);
}

} // verus!
