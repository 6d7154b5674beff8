//! The write drain.
//!
//! A drain is the run of non-blocking writes by which a host sends one
//! payload to one port. The host performs the writes; after each one it tells
//! the drain what came back and learns what to do next. A drain never waits
//! for a port that takes nothing: beyond a bounded number of retries it hands
//! the unsent rest back, to be submitted again later.

use vstd::prelude::*;
use vstd::slice::slice_subrange;
use crate::diagnostic::{Cause, CauseView, Diagnostic, DiagnosticView, Phase};
use crate::event::{Message, SerialWriteEvent};
use crate::port::{PortModel, PortState};

verus! {

/// Number of times that a drain tries again after its port took nothing,
/// unless the host chooses another: a port that would block is left alone
/// until the next cycle.
pub const DEFAULT_WRITE_RETRIES: usize = 0;

/// What one non-blocking write returned.
#[derive(Debug, Clone, PartialEq, Eq)]
pub enum WriteOutcome {
    /// The number of bytes that the port took from the front of those offered.
    Accepted(usize),
    /// The port takes nothing at the moment.
    WouldBlock,
    /// The call was interrupted before it wrote anything.
    Interrupted,
    /// Another error, with its description.
    Failed(String),
}

/// What a [`WriteOutcome`] holds.
pub enum WriteOutcomeView {
    Accepted(nat),
    WouldBlock,
    Interrupted,
    Failed(Seq<char>),
}

impl View for WriteOutcome {
    type V = WriteOutcomeView;

    open spec fn view(&self) -> WriteOutcomeView {
        match self {
            WriteOutcome::Accepted(n) => WriteOutcomeView::Accepted(*n as nat),
            WriteOutcome::WouldBlock => WriteOutcomeView::WouldBlock,
            WriteOutcome::Interrupted => WriteOutcomeView::Interrupted,
            WriteOutcome::Failed(text) => WriteOutcomeView::Failed(text@),
        }
    }
}

/// A drain in progress as the contracts see it.
pub struct WriteModel {
    /// The label of the port that the payload goes to.
    pub label: Seq<char>,
    /// The whole payload.
    pub payload: Seq<u8>,
    /// Number of bytes, from the front of the payload, that the port took.
    pub offset: nat,
    /// How often the drain may still try again after the port took nothing.
    pub retries_left: nat,
}

/// What a [`WriteStep`] holds.
pub enum WriteStepView {
    Offer(WriteModel),
    Complete,
    Requeue(Message),
    Abandon(DiagnosticView),
}

impl WriteModel {
    /// A drain in progress has bytes left to send.
    pub open spec fn wf(self) -> bool {
        self.offset < self.payload.len()
    }

    /// The bytes that the port took so far.
    pub open spec fn sent(self) -> Seq<u8> {
        self.payload.subrange(0, self.offset as int)
    }

    /// The bytes that the next write offers to the port: all that is unsent.
    pub open spec fn offered(self) -> Seq<u8> {
        self.payload.subrange(self.offset as int, self.payload.len() as int)
    }

    /// What follows a write with the given outcome.
    ///
    /// - The port took all that was offered: the payload is sent.
    /// - It took less: the drain moves on by that many bytes and offers the
    ///   rest at once.
    /// - Would block: the drain tries again while it has retries left; then
    ///   it ends, and the unsent rest goes back to the host under the same
    ///   label.
    /// - Interrupted: the same bytes are offered again.
    /// - Another error: it is reported and the unsent rest is dropped.
    pub open spec fn write_step(self, outcome: WriteOutcomeView) -> WriteStepView {
        match outcome {
            WriteOutcomeView::Accepted(n) => {
                if n >= self.offered().len() {
                    WriteStepView::Complete
                } else {
                    WriteStepView::Offer(WriteModel { offset: self.offset + n, ..self })
                }
            },
            WriteOutcomeView::WouldBlock => {
                if self.retries_left == 0 {
                    WriteStepView::Requeue(Message { label: self.label, bytes: self.offered() })
                } else {
                    WriteStepView::Offer(
                        WriteModel { retries_left: (self.retries_left - 1) as nat, ..self },
                    )
                }
            },
            WriteOutcomeView::Interrupted => WriteStepView::Offer(self),
            WriteOutcomeView::Failed(text) => WriteStepView::Abandon(
                DiagnosticView { label: self.label, phase: Phase::Write, cause: CauseView::Os(text) },
            ),
        }
    }
}

impl PortModel {
    /// The report that the port gives on a write request.
    pub open spec fn write_report(self, cause: CauseView) -> DiagnosticView {
        DiagnosticView { label: self.label, phase: Phase::Write, cause }
    }

    /// What becomes of a payload that is brought to this port, with `retries`
    /// further tries allowed after the port took nothing.
    ///
    /// - The port is closed: that is reported, and no write is tried.
    /// - The payload is empty: there is nothing to send.
    /// - Otherwise the whole payload is offered.
    pub open spec fn begin_write(self, payload: Seq<u8>, retries: nat) -> WriteStepView {
        if !self.connected {
            WriteStepView::Abandon(self.write_report(CauseView::NotConnected))
        } else if payload.len() == 0 {
            WriteStepView::Complete
        } else {
            WriteStepView::Offer(
                WriteModel { label: self.label, payload, offset: 0, retries_left: retries },
            )
        }
    }
}

/// A payload on its way to a port, part of it sent already. The drain
/// borrows the port for as long as it runs: no read can find the connection
/// closed, and no other drain can start on the port, before this one has
/// ended.
#[derive(Debug, PartialEq, Eq)]
pub struct WriteDrain<'a> {
    port: &'a PortState,
    payload: Vec<u8>,
    offset: usize,
    retries_left: usize,
}

impl<'a> View for WriteDrain<'a> {
    type V = WriteModel;

    closed spec fn view(&self) -> WriteModel {
        WriteModel {
            label: self.port@.label,
            payload: self.payload@,
            offset: self.offset as nat,
            retries_left: self.retries_left as nat,
        }
    }
}

/// What the host does next with a payload.
#[derive(Debug, PartialEq, Eq)]
pub enum WriteStep<'a> {
    /// Write the bytes that the drain offers, then tell it the outcome.
    Offer(WriteDrain<'a>),
    /// The whole payload is sent.
    Complete,
    /// The port takes no more for now: submit this request again later.
    Requeue(SerialWriteEvent),
    /// Nothing more is sent: report the condition.
    Abandon(Diagnostic),
}

impl<'a> View for WriteStep<'a> {
    type V = WriteStepView;

    open spec fn view(&self) -> WriteStepView {
        match self {
            WriteStep::Offer(drain) => WriteStepView::Offer(drain@),
            WriteStep::Complete => WriteStepView::Complete,
            WriteStep::Requeue(request) => WriteStepView::Requeue(request@),
            WriteStep::Abandon(diagnostic) => WriteStepView::Abandon(diagnostic@),
        }
    }
}

impl<'a> WriteDrain<'a> {
    #[verifier::type_invariant]
    spec fn inv(self) -> bool {
        self.port@.connected && self.offset < self.payload.len()
    }

    /// The port that the payload goes to. It is connected, and stays so
    /// while the drain runs.
    pub fn port(&self) -> (port: &'a PortState)
        ensures
            port@.connected,
            port@.label == self@.label,
    {
        proof {
            use_type_invariant(self);
        }
        self.port
    }

    /// The bytes to hand to the next write: all that is unsent, never none.
    pub fn offered(&self) -> (bytes: &[u8])
        ensures
            bytes@ == self@.offered(),
            bytes@.len() > 0,
            self@.wf(),
    {
        proof {
            use_type_invariant(self);
        }
        slice_subrange(self.payload.as_slice(), self.offset, self.payload.len())
    }

    /// Number of bytes that the port took so far.
    pub fn sent_len(&self) -> (len: usize)
        ensures
            len == self@.offset,
    {
        self.offset
    }

    /// Takes in what a write of the offered bytes returned and says what the
    /// host does next.
    pub fn on_write(self, outcome: WriteOutcome) -> (step: WriteStep<'a>)
        ensures
            step@ == self@.write_step(outcome@),
    {
        proof {
            use_type_invariant(&self);
        }
        let WriteDrain { port, mut payload, offset, retries_left } = self;
        match outcome {
            WriteOutcome::Accepted(n) => {
                if n >= payload.len() - offset {
                    WriteStep::Complete
                } else {
                    WriteStep::Offer(WriteDrain { port, payload, offset: offset + n, retries_left })
                }
            },
            WriteOutcome::WouldBlock => {
                if retries_left == 0 {
                    let rest = payload.split_off(offset);
                    WriteStep::Requeue(SerialWriteEvent(port.label().clone(), rest))
                } else {
                    WriteStep::Offer(
                        WriteDrain { port, payload, offset, retries_left: retries_left - 1 },
                    )
                }
            },
            WriteOutcome::Interrupted => WriteStep::Offer(
                WriteDrain { port, payload, offset, retries_left },
            ),
            WriteOutcome::Failed(text) => WriteStep::Abandon(
                Diagnostic {
                    label: port.label().clone(),
                    phase: Phase::Write,
                    cause: Cause::Os(text),
                },
            ),
        }
    }
}

impl PortState {
    /// Brings a payload to the port and says what the host does with it.
    /// `retries` is the number of further tries that the drain may make
    /// after the port took nothing.
    pub fn begin_write(&self, payload: Vec<u8>, retries: usize) -> (step: WriteStep<'_>)
        ensures
            step@ == self@.begin_write(payload@, retries as nat),
    {
        if !self.is_connected() {
            WriteStep::Abandon(
                Diagnostic {
                    label: self.label().clone(),
                    phase: Phase::Write,
                    cause: Cause::NotConnected,
                },
            )
        } else if payload.len() == 0 {
            WriteStep::Complete
        } else {
            WriteStep::Offer(WriteDrain { port: self, payload, offset: 0, retries_left: retries })
        }
    }
}

} // verus!
