//! Write requests that wait for their port.
//!
//! A request that a port could not take whole comes back to the host, to be
//! submitted again on a later cycle. Until then no younger request may go to
//! the same port, or the bytes would arrive out of order. The queue keeps the
//! requests that wait, oldest first, and holds back each request to a port
//! for which an older one waits.

use vstd::prelude::*;
use crate::diagnostic::{Diagnostic, DiagnosticView};
use crate::event::{Message, SerialWriteEvent};
use crate::registry::{slot_of_label, unknown_label, LabelIndex};

verus! {

/// What a sequence of write requests holds.
pub open spec fn request_views(requests: Seq<SerialWriteEvent>) -> Seq<Message> {
    requests.map_values(|request: SerialWriteEvent| request@)
}

/// Whether one of the requests goes to the port with the given label.
pub open spec fn waits_for(waiting: Seq<Message>, label: Seq<char>) -> bool {
    exists|i: int| 0 <= i < waiting.len() && (#[trigger] waiting[i]).label == label
}

/// The write requests that wait for a later cycle, oldest first.
#[derive(Debug, PartialEq, Eq)]
pub struct WriteQueue {
    waiting: Vec<SerialWriteEvent>,
}

impl View for WriteQueue {
    type V = Seq<Message>;

    closed spec fn view(&self) -> Seq<Message> {
        request_views(self.waiting@)
    }
}

impl WriteQueue {
    /// A queue in which nothing waits.
    pub fn new() -> (queue: WriteQueue)
        ensures
            queue@ == Seq::<Message>::empty(),
    {
        let queue = WriteQueue { waiting: Vec::new() };
        assert(queue@ =~= Seq::<Message>::empty());
        queue
    }

    /// Number of requests that wait.
    pub fn len(&self) -> (len: usize)
        ensures
            len == self@.len(),
    {
        self.waiting.len()
    }

    /// Whether a request to the port with the given label waits.
    pub fn holds(&self, label: &String) -> (held: bool)
        ensures
            held == waits_for(self@, label@),
    {
        let mut i: usize = 0;
        while i < self.waiting.len()
            invariant
                i <= self.waiting@.len(),
                forall|k: int| 0 <= k < i ==> (#[trigger] self@[k]).label != label@,
            decreases self.waiting@.len() - i,
        {
            if self.waiting[i].0 == *label {
                assert(self@[i as int].label == label@);
                return true;
            }
            i += 1;
        }
        false
    }

    /// Puts a request behind those that wait.
    pub fn submit(&mut self, request: SerialWriteEvent)
        ensures
            final(self)@ == old(self)@.push(request@),
    {
        self.waiting.push(request);
        assert(self@ =~= old(self)@.push(request@));
    }

    /// Lets a request pass if no older request to its port waits, and keeps
    /// it behind those that wait if one does.
    pub fn pass(&mut self, request: SerialWriteEvent) -> (passed: Option<SerialWriteEvent>)
        ensures
            waits_for(old(self)@, request@.label) <==> passed is None,
            passed matches Some(same) ==> same == request && final(self)@ == old(self)@,
            passed is None ==> final(self)@ == old(self)@.push(request@),
    {
        if self.holds(&request.0) {
            self.submit(request);
            None
        } else {
            Some(request)
        }
    }

    /// Opens a write cycle: takes out all the requests that wait and returns
    /// them, oldest first, followed by the requests that came in since, for
    /// the host to dispatch them in that order.
    pub fn begin_cycle(&mut self, fresh: Vec<SerialWriteEvent>) -> (requests: Vec<SerialWriteEvent>)
        ensures
            request_views(requests@) == old(self)@ + request_views(fresh@),
            final(self)@ == Seq::<Message>::empty(),
    {
        let mut requests: Vec<SerialWriteEvent> = Vec::new();
        core::mem::swap(&mut self.waiting, &mut requests);
        let mut fresh = fresh;
        let ghost older = requests@;
        let ghost newer = fresh@;
        requests.append(&mut fresh);
        assert(request_views(older + newer) =~= request_views(older) + request_views(newer));
        assert(self@ =~= Seq::<Message>::empty());
        requests
    }
}

/// What becomes of a write request in the cycle in which it is dispatched.
#[derive(Debug, PartialEq, Eq)]
pub enum Dispatch {
    /// The payload goes to the port in this slot now.
    Send { slot: usize, payload: Vec<u8> },
    /// An older request to the same port waits; this one waits behind it.
    Wait,
    /// No port has the label of the request: the request is dropped.
    Reject(Diagnostic),
}

/// What a [`Dispatch`] holds.
pub enum DispatchView {
    Send { slot: int, payload: Seq<u8> },
    Wait,
    Reject(DiagnosticView),
}

impl View for Dispatch {
    type V = DispatchView;

    open spec fn view(&self) -> DispatchView {
        match self {
            Dispatch::Send { slot, payload } => DispatchView::Send {
                slot: *slot as int,
                payload: payload@,
            },
            Dispatch::Wait => DispatchView::Wait,
            Dispatch::Reject(diagnostic) => DispatchView::Reject(diagnostic@),
        }
    }
}

/// Where a request goes, given the labels of the ports and the requests that
/// wait: nowhere if no port has its label; behind the requests that wait if
/// one of them goes to the same port; else to the port with its label.
pub open spec fn dispatched(
    labels: Seq<Seq<char>>,
    waiting: Seq<Message>,
    request: Message,
) -> DispatchView {
    match slot_of_label(labels, request.label) {
        None => DispatchView::Reject(unknown_label(request.label)),
        Some(slot) => {
            if waits_for(waiting, request.label) {
                DispatchView::Wait
            } else {
                DispatchView::Send { slot, payload: request.bytes }
            }
        },
    }
}

/// Decides what becomes of a write request in this cycle, and keeps it in
/// the queue if it has to wait.
pub fn dispatch(
    index: &LabelIndex,
    queue: &mut WriteQueue,
    request: SerialWriteEvent,
) -> (decision: Dispatch)
    ensures
        decision@ == dispatched(index@, old(queue)@, request@),
        decision matches Dispatch::Send { slot, .. } ==> slot < index@.len() && index@[slot as int]
            == request@.label,
        final(queue)@ == if decision is Wait {
            old(queue)@.push(request@)
        } else {
            old(queue)@
        },
{
    match index.route(&request) {
        Err(diagnostic) => Dispatch::Reject(diagnostic),
        Ok(slot) => {
            match queue.pass(request) {
                None => Dispatch::Wait,
                Some(request) => Dispatch::Send { slot, payload: request.1 },
            }
        },
    }
}

} // verus!
