//! Non-blocking, multi-port serial I/O multiplexing.
//!
//! The crate holds the decisions of a serial multiplexer as verified state
//! machines. A host owns the open devices and the readiness poll; after each
//! system call it hands the outcome to the port's state and performs the
//! action it gets back. No function here touches a device.
//!
//! - [`setting`]: the configuration of the ports.
//! - [`registry`]: slots and labels; the initial state of each port.
//! - [`readiness`]: from the events of a poll to the slots to drain.
//! - [`port`]: the state of a port and its read drain.
//! - [`write`]: the write drain.
//! - [`queue`]: write requests that wait for a later cycle.
//! - [`lines`]: lines and fields out of the messages of a port.
//! - [`fidelity`], [`closing`]: what holds of whole runs of reads and writes.

pub mod closing;
pub mod diagnostic;
pub mod event;
pub mod fidelity;
pub mod lines;
pub mod port;
pub mod queue;
pub mod readiness;
pub mod registry;
pub mod setting;
pub mod write;

pub use diagnostic::{Cause, Diagnostic, Phase};
pub use event::{SerialReadEvent, SerialWriteEvent};
pub use lines::{read_report, split_fields, LineAssembler};
pub use port::{PortState, ReadAction, ReadOutcome};
pub use queue::{dispatch, Dispatch, WriteQueue};
pub use readiness::{ready_slots, Readiness};
pub use registry::{InitError, LabelIndex};
pub use setting::{DataBits, FlowControl, Parity, SerialPlugin, SerialSetting, StopBits};
pub use write::{WriteDrain, WriteOutcome, WriteStep};
