//! Labelled byte buffers that cross the boundary between host and engine.

use vstd::prelude::*;

verus! {

/// What a labelled buffer holds: the label of a port and a byte sequence.
pub struct Message {
    pub label: Seq<char>,
    pub bytes: Seq<u8>,
}

/// Bytes received from the port with the given label: everything that one
/// drain of the port took in, in the order in which the device produced it.
#[derive(Debug, Clone, PartialEq, Eq)]
pub struct SerialReadEvent(pub String, pub Vec<u8>);

/// Bytes to be sent to the port with the given label.
#[derive(Debug, Clone, PartialEq, Eq)]
pub struct SerialWriteEvent(pub String, pub Vec<u8>);

impl View for SerialReadEvent {
    type V = Message;

    open spec fn view(&self) -> Message {
        Message { label: self.0@, bytes: self.1@ }
    }
}

impl View for SerialWriteEvent {
    type V = Message;

    open spec fn view(&self) -> Message {
        Message { label: self.0@, bytes: self.1@ }
    }
}

} // verus!
