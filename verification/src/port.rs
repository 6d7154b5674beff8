//! Per-port state and the read drain.
//!
//! A drain is the run of non-blocking reads that a host makes on one port
//! once the port is reported readable. The host performs the reads; after
//! each one it tells the port's state what came back and learns what to do
//! next.

use vstd::prelude::*;
use vstd::arithmetic::div_mod::{lemma_fundamental_div_mod, lemma_fundamental_div_mod_converse};
use crate::diagnostic::{Cause, CauseView, Diagnostic, DiagnosticView, Phase};
use crate::event::{Message, SerialReadEvent};

verus! {

/// Capacity with which a read buffer starts, and by which it grows.
pub const DEFAULT_READ_BUFFER_LEN: usize = 2048;

/// What one non-blocking read returned.
#[derive(Debug, Clone, PartialEq, Eq)]
pub enum ReadOutcome {
    /// The bytes that the read put into the buffer; none if the connection
    /// is closed.
    Bytes(Vec<u8>),
    /// Nothing is available at the moment.
    WouldBlock,
    /// The call was interrupted before it read anything.
    Interrupted,
    /// Another error, with its description.
    Failed(String),
}

/// What a [`ReadOutcome`] holds.
pub enum ReadOutcomeView {
    Bytes(Seq<u8>),
    WouldBlock,
    Interrupted,
    Failed(Seq<char>),
}

impl View for ReadOutcome {
    type V = ReadOutcomeView;

    open spec fn view(&self) -> ReadOutcomeView {
        match self {
            ReadOutcome::Bytes(chunk) => ReadOutcomeView::Bytes(chunk@),
            ReadOutcome::WouldBlock => ReadOutcomeView::WouldBlock,
            ReadOutcome::Interrupted => ReadOutcomeView::Interrupted,
            ReadOutcome::Failed(text) => ReadOutcomeView::Failed(text@),
        }
    }
}

/// What the host does next on a port that it drains.
#[derive(Debug, Clone, PartialEq, Eq)]
pub enum ReadAction {
    /// Read again, into a buffer of `max_len` bytes.
    Read { max_len: usize },
    /// The drain is over: hand the message to the consumer.
    Deliver(SerialReadEvent),
    /// The drain is over and there is nothing to hand on.
    Idle,
    /// The drain is over: report the condition.
    Halt(Diagnostic),
}

/// What a [`ReadAction`] holds.
pub enum ReadActionView {
    Read { max_len: nat },
    Deliver(Message),
    Idle,
    Halt(DiagnosticView),
}

impl View for ReadAction {
    type V = ReadActionView;

    open spec fn view(&self) -> ReadActionView {
        match self {
            ReadAction::Read { max_len } => ReadActionView::Read { max_len: *max_len as nat },
            ReadAction::Deliver(event) => ReadActionView::Deliver(event@),
            ReadAction::Idle => ReadActionView::Idle,
            ReadAction::Halt(diagnostic) => ReadActionView::Halt(diagnostic@),
        }
    }
}

/// The state of one port as the contracts see it.
pub struct PortModel {
    /// The label under which the port is addressed.
    pub label: Seq<char>,
    /// False once a read has found the connection closed.
    pub connected: bool,
    /// The bytes read since the last message was delivered.
    pub pending: Seq<u8>,
    /// The capacity with which the read buffer starts and by which it grows.
    pub increment: nat,
}

impl PortModel {
    /// The state with which a port starts: connected, nothing read.
    pub open spec fn fresh(label: Seq<char>, increment: nat) -> PortModel {
        PortModel { label, connected: true, pending: Seq::empty(), increment }
    }

    /// A read buffer has room to start with.
    pub open spec fn wf(self) -> bool {
        self.increment > 0
    }

    /// Room left in the read buffer: what the next read may bring at most.
    /// It is never zero: a buffer that fills completely grows at once.
    pub open spec fn window(self) -> nat {
        (self.increment - self.pending.len() % self.increment) as nat
    }

    /// Capacity of the read buffer: the bytes it holds and the room left.
    pub open spec fn capacity(self) -> nat {
        self.pending.len() + self.window()
    }

    /// The report that the port gives during a read.
    pub open spec fn read_report(self, cause: CauseView) -> DiagnosticView {
        DiagnosticView { label: self.label, phase: Phase::Read, cause }
    }

    /// The first action of a drain: a read, unless the port is closed.
    pub open spec fn begin_read(self) -> ReadActionView {
        if self.connected {
            ReadActionView::Read { max_len: self.window() }
        } else {
            ReadActionView::Halt(self.read_report(CauseView::NotConnected))
        }
    }

    /// The state after a read with the given outcome, and what the host
    /// does next.
    ///
    /// - Closed port: nothing changes, the condition is reported.
    /// - Zero bytes: the connection is closed; the port is marked so and
    ///   the bytes read so far are dropped.
    /// - Bytes: they are appended to those read so far; read again.
    /// - Would block: all that was available is read. The bytes read so far
    ///   leave as one message; if there are none, nothing is delivered.
    /// - Interrupted: read again, nothing changes.
    /// - Another error: it is reported and the drain ends; the port and the
    ///   bytes read so far stay as they are.
    pub open spec fn read_step(self, outcome: ReadOutcomeView) -> (PortModel, ReadActionView) {
        if !self.connected {
            (self, ReadActionView::Halt(self.read_report(CauseView::NotConnected)))
        } else {
            match outcome {
                ReadOutcomeView::Bytes(chunk) => {
                    if chunk.len() == 0 {
                        (
                            PortModel { connected: false, pending: Seq::empty(), ..self },
                            ReadActionView::Halt(self.read_report(CauseView::Closed)),
                        )
                    } else {
                        let next = PortModel { pending: self.pending + chunk, ..self };
                        (next, ReadActionView::Read { max_len: next.window() })
                    }
                },
                ReadOutcomeView::WouldBlock => {
                    if self.pending.len() == 0 {
                        (self, ReadActionView::Idle)
                    } else {
                        (
                            PortModel { pending: Seq::empty(), ..self },
                            ReadActionView::Deliver(
                                Message { label: self.label, bytes: self.pending },
                            ),
                        )
                    }
                },
                ReadOutcomeView::Interrupted => {
                    (self, ReadActionView::Read { max_len: self.window() })
                },
                ReadOutcomeView::Failed(text) => {
                    (self, ReadActionView::Halt(self.read_report(CauseView::Os(text))))
                },
            }
        }
    }
}

/// The read buffer starts with a capacity of one increment, and its capacity
/// is at all times a whole number of increments with room for at least one
/// byte more.
pub proof fn lemma_capacity_in_increments(port: PortModel)
    requires
        port.wf(),
    ensures
        0 < port.window() <= port.increment,
        port.capacity() == (port.pending.len() / port.increment + 1) * port.increment,
        port.pending.len() == 0 ==> port.capacity() == port.increment,
{
    let len = port.pending.len() as int;
    let inc = port.increment as int;
    lemma_fundamental_div_mod(len, inc);
    assert((len / inc + 1) * inc == inc * (len / inc) + inc) by (nonlinear_arith);
}

/// The read buffer grows by one increment when a read fills it completely,
/// and only then: a read that brings fewer bytes than there was room for
/// leaves the capacity as it is.
pub proof fn lemma_buffer_grows_when_full(port: PortModel, chunk: Seq<u8>)
    requires
        port.wf(),
        port.connected,
        0 < chunk.len() <= port.window(),
    ensures
        ({
            let next = port.read_step(ReadOutcomeView::Bytes(chunk)).0;
            next.capacity() == if chunk.len() == port.window() {
                port.capacity() + port.increment
            } else {
                port.capacity()
            }
        }),
{
    let len = port.pending.len() as int;
    let inc = port.increment as int;
    let next = port.read_step(ReadOutcomeView::Bytes(chunk)).0;
    let quotient = len / inc;
    lemma_fundamental_div_mod(len, inc);
    assert(inc * quotient == quotient * inc) by (nonlinear_arith);
    assert((quotient + 1) * inc == quotient * inc + inc) by (nonlinear_arith);
    if chunk.len() == port.window() {
        lemma_fundamental_div_mod_converse(len + chunk.len(), inc, quotient + 1, 0);
    } else {
        lemma_fundamental_div_mod_converse(
            len + chunk.len(),
            inc,
            quotient,
            len % inc + chunk.len(),
        );
    }
}

/// The mutable state of one port: whether it is still connected, and the
/// bytes of the message that is being read.
#[derive(Debug, PartialEq, Eq)]
pub struct PortState {
    label: String,
    connected: bool,
    pending: Vec<u8>,
    increment: usize,
}

impl View for PortState {
    type V = PortModel;

    closed spec fn view(&self) -> PortModel {
        PortModel {
            label: self.label@,
            connected: self.connected,
            pending: self.pending@,
            increment: self.increment as nat,
        }
    }
}

impl PortState {
    #[verifier::type_invariant]
    spec fn inv(self) -> bool {
        self.increment > 0
    }

    /// A connected port with the given label, whose read buffer starts at
    /// `increment` bytes and grows by as much. `None` if `increment` is zero.
    pub fn new(label: String, increment: usize) -> (port: Option<PortState>)
        ensures
            increment == 0 <==> port is None,
            port matches Some(p) ==> p@ == PortModel::fresh(label@, increment as nat),
    {
        if increment == 0 {
            None
        } else {
            Some(PortState { label, connected: true, pending: Vec::new(), increment })
        }
    }

    /// The label under which the port is addressed.
    pub fn label(&self) -> (label: &String)
        ensures
            label@ == self@.label,
    {
        &self.label
    }

    /// Whether no read has found the connection closed yet.
    pub fn is_connected(&self) -> (connected: bool)
        ensures
            connected == self@.connected,
    {
        self.connected
    }

    /// Number of bytes read since the last message was delivered.
    pub fn pending_len(&self) -> (len: usize)
        ensures
            len == self@.pending.len(),
    {
        self.pending.len()
    }

    /// Room left in the read buffer.
    pub fn window(&self) -> (room: usize)
        ensures
            room == self@.window(),
            0 < room <= self@.increment,
            self@.wf(),
    {
        proof {
            use_type_invariant(self);
        }
        self.increment - self.pending.len() % self.increment
    }

    fn report(&self, cause: Cause) -> (diagnostic: Diagnostic)
        ensures
            diagnostic@ == self@.read_report(cause@),
    {
        Diagnostic { label: self.label.clone(), phase: Phase::Read, cause }
    }

    /// Opens a drain: says whether the host is to read from the port, and
    /// how much at most.
    pub fn begin_read(&self) -> (action: ReadAction)
        ensures
            action@ == self@.begin_read(),
    {
        if self.connected {
            ReadAction::Read { max_len: self.window() }
        } else {
            ReadAction::Halt(self.report(Cause::NotConnected))
        }
    }

    /// Takes in what a read returned and says what the host does next.
    pub fn on_read(&mut self, outcome: ReadOutcome) -> (action: ReadAction)
        ensures
            (final(self)@, action@) == old(self)@.read_step(outcome@),
    {
        proof {
            use_type_invariant(&*self);
        }
        if !self.connected {
            return ReadAction::Halt(self.report(Cause::NotConnected));
        }
        match outcome {
            ReadOutcome::Bytes(mut chunk) => {
                if chunk.len() == 0 {
                    let diagnostic = self.report(Cause::Closed);
                    self.connected = false;
                    self.pending = Vec::new();
                    ReadAction::Halt(diagnostic)
                } else {
                    let mut bytes: Vec<u8> = Vec::new();
                    core::mem::swap(&mut self.pending, &mut bytes);
                    bytes.append(&mut chunk);
                    self.pending = bytes;
                    ReadAction::Read { max_len: self.window() }
                }
            },
            ReadOutcome::WouldBlock => {
                if self.pending.len() == 0 {
                    ReadAction::Idle
                } else {
                    let mut bytes: Vec<u8> = Vec::new();
                    core::mem::swap(&mut self.pending, &mut bytes);
                    ReadAction::Deliver(SerialReadEvent(self.label.clone(), bytes))
                }
            },
            ReadOutcome::Interrupted => ReadAction::Read { max_len: self.window() },
            ReadOutcome::Failed(text) => ReadAction::Halt(self.report(Cause::Os(text))),
        }
    }
}

} // verus!
