//! Reports on operations that did not run to their end.

use vstd::prelude::*;

verus! {

/// The operation during which a condition was met.
#[derive(Debug, Clone, Copy, PartialEq, Eq, Structural)]
pub enum Phase {
    Open,
    Read,
    Write,
}

/// Why an operation on a port stopped.
#[derive(Debug, Clone, PartialEq, Eq)]
pub enum Cause {
    /// A read returned zero bytes: the other side has closed the connection.
    Closed,
    /// The port was found closed before any I/O was tried.
    NotConnected,
    /// No configured port has the label that was asked for.
    UnknownLabel,
    /// The operating system failed the call; the text is its description.
    Os(String),
}

/// What a [`Cause`] holds.
pub enum CauseView {
    Closed,
    NotConnected,
    UnknownLabel,
    Os(Seq<char>),
}

impl View for Cause {
    type V = CauseView;

    open spec fn view(&self) -> CauseView {
        match self {
            Cause::Closed => CauseView::Closed,
            Cause::NotConnected => CauseView::NotConnected,
            Cause::UnknownLabel => CauseView::UnknownLabel,
            Cause::Os(text) => CauseView::Os(text@),
        }
    }
}

/// A report for the host's diagnostics: which port, during what, and why.
#[derive(Debug, Clone, PartialEq, Eq)]
pub struct Diagnostic {
    pub label: String,
    pub phase: Phase,
    pub cause: Cause,
}

/// What a [`Diagnostic`] holds.
pub struct DiagnosticView {
    pub label: Seq<char>,
    pub phase: Phase,
    pub cause: CauseView,
}

impl View for Diagnostic {
    type V = DiagnosticView;

    open spec fn view(&self) -> DiagnosticView {
        DiagnosticView { label: self.label@, phase: self.phase, cause: self.cause@ }
    }
}

} // verus!
