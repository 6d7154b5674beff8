//! The fixed set of ports: their slots, their labels, their initial state.
//!
//! A port's slot is its position in the configuration. It never changes, and
//! the host registers the port for readiness under that number, so a
//! readiness token leads straight back to the port.

use vstd::prelude::*;
use crate::diagnostic::{Cause, CauseView, Diagnostic, DiagnosticView, Phase};
use crate::event::SerialWriteEvent;
use crate::port::{PortModel, PortState};
use crate::setting::{SerialPlugin, SerialSetting};

verus! {

/// The labels under which the ports of `settings` are addressed, by slot.
pub open spec fn resolved_labels(settings: Seq<SerialSetting>) -> Seq<Seq<char>> {
    settings.map_values(|setting: SerialSetting| setting.spec_resolved_label())
}

/// `second` is the first slot whose label an earlier slot has already, and
/// `first` is that earlier slot.
pub open spec fn is_first_duplicate(labels: Seq<Seq<char>>, first: int, second: int) -> bool {
    &&& 0 <= first < second < labels.len()
    &&& labels[first] == labels[second]
    &&& labels.subrange(0, second).no_duplicates()
}

/// The report on a write request whose label no port has.
pub open spec fn unknown_label(label: Seq<char>) -> DiagnosticView {
    DiagnosticView { label, phase: Phase::Write, cause: CauseView::UnknownLabel }
}

/// The slot that has the given label, if there is one.
pub open spec fn slot_of_label(labels: Seq<Seq<char>>, label: Seq<char>) -> Option<int> {
    if labels.contains(label) {
        Some(labels.index_of(label))
    } else {
        None
    }
}

/// Labels and slots correspond one to one where no two slots have the same
/// label: the label of each slot leads to that slot, a label leads to no slot
/// but the one that carries it, and two labels that lead to one slot are the
/// same label.
pub proof fn lemma_labels_and_slots_correspond(labels: Seq<Seq<char>>)
    requires
        labels.no_duplicates(),
    ensures
        forall|slot: int|
            0 <= slot < labels.len() ==> slot_of_label(labels, #[trigger] labels[slot]) == Some(
                slot,
            ),
        forall|label: Seq<char>|
            (#[trigger] slot_of_label(labels, label)) matches Some(slot) ==> 0 <= slot
                < labels.len() && labels[slot] == label,
        forall|a: Seq<char>, b: Seq<char>|
            (#[trigger] slot_of_label(labels, a)) is Some && slot_of_label(labels, a)
                == #[trigger] slot_of_label(labels, b) ==> a == b,
        forall|label: Seq<char>|
            (#[trigger] slot_of_label(labels, label)) is None <==> !labels.contains(label),
{
    assert forall|slot: int| 0 <= slot < labels.len() implies slot_of_label(
        labels,
        #[trigger] labels[slot],
    ) == Some(slot) by {
        assert(labels.contains(labels[slot]));
        let found = labels.index_of(labels[slot]);
        assert(labels[found] == labels[slot]);
    }
}

/// Why a configuration was turned down.
#[derive(Debug, Clone, PartialEq, Eq)]
pub enum InitError {
    /// The read buffers would start with no capacity at all.
    ZeroIncrement,
    /// Two ports would be addressed by one label.
    DuplicateLabel { label: String, first: usize, second: usize },
}

/// The label of each slot. No two slots have the same label.
#[derive(Debug, PartialEq, Eq)]
pub struct LabelIndex {
    labels: Vec<String>,
}

impl View for LabelIndex {
    type V = Seq<Seq<char>>;

    closed spec fn view(&self) -> Seq<Seq<char>> {
        self.labels@.map_values(|label: String| label@)
    }
}

impl LabelIndex {
    #[verifier::type_invariant]
    spec fn inv(self) -> bool {
        self@.no_duplicates()
    }

    /// Number of ports.
    pub fn len(&self) -> (len: usize)
        ensures
            len == self@.len(),
    {
        self.labels.len()
    }

    /// Whether no port is configured.
    pub fn is_empty(&self) -> (empty: bool)
        ensures
            empty == (self@.len() == 0),
    {
        self.labels.len() == 0
    }

    /// The label of a slot.
    pub fn label_of(&self, slot: usize) -> (label: Option<&String>)
        ensures
            slot < self@.len() <==> label is Some,
            label matches Some(l) ==> l@ == self@[slot as int],
    {
        if slot < self.labels.len() {
            Some(&self.labels[slot])
        } else {
            None
        }
    }

    /// The slot that has the given label.
    pub fn slot_of(&self, label: &String) -> (slot: Option<usize>)
        ensures
            self@.no_duplicates(),
            slot matches Some(s) ==> s < self@.len() && self@[s as int] == label@,
            slot is None ==> !self@.contains(label@),
            slot_of_label(self@, label@) == match slot {
                Some(s) => Some(s as int),
                None => None::<int>,
            },
    {
        proof {
            use_type_invariant(self);
        }
        let found = find_label(&self.labels, label);
        proof {
            if let Some(s) = found {
                assert(self@[s as int] == label@);
                assert(self@.contains(label@));
                let k = self@.index_of(label@);
                assert(k == s);
            } else {
                assert forall|i: int| 0 <= i < self@.len() implies self@[i] != label@ by {
                    assert(self@[i] == self.labels@[i]@);
                }
            }
        }
        found
    }

    /// The slot that a write request goes to; for a label that no port has,
    /// the report on it.
    pub fn route(&self, request: &SerialWriteEvent) -> (slot: Result<usize, Diagnostic>)
        ensures
            self@.no_duplicates(),
            match slot {
                Ok(s) => {
                    &&& s < self@.len()
                    &&& self@[s as int] == request@.label
                    &&& slot_of_label(self@, request@.label) == Some(s as int)
                },
                Err(diagnostic) => {
                    &&& slot_of_label(self@, request@.label) is None
                    &&& diagnostic@ == unknown_label(request@.label)
                },
            },
    {
        match self.slot_of(&request.0) {
            Some(s) => Ok(s),
            None => Err(
                Diagnostic {
                    label: request.0.clone(),
                    phase: Phase::Write,
                    cause: Cause::UnknownLabel,
                },
            ),
        }
    }
}

/// The first position at which `labels` holds `label`.
fn find_label(labels: &Vec<String>, label: &String) -> (found: Option<usize>)
    ensures
        match found {
            Some(s) => {
                &&& s < labels@.len()
                &&& labels@[s as int]@ == label@
                &&& forall|i: int| 0 <= i < s ==> labels@[i]@ != label@
            },
            None => forall|i: int| 0 <= i < labels@.len() ==> labels@[i]@ != label@,
        },
{
    let mut i: usize = 0;
    while i < labels.len()
        invariant
            i <= labels@.len(),
            forall|k: int| 0 <= k < i ==> labels@[k]@ != label@,
        decreases labels@.len() - i,
    {
        if labels[i] == *label {
            return Some(i);
        }
        i += 1;
    }
    None
}

impl SerialSetting {
    /// The report on a device that could not be opened, or not registered
    /// for readiness, with the description of the failure. Such a failure
    /// ends the startup.
    pub fn open_failure(&self, description: String) -> (diagnostic: Diagnostic)
        ensures
            diagnostic@ == (DiagnosticView {
                label: self.spec_resolved_label(),
                phase: Phase::Open,
                cause: CauseView::Os(description@),
            }),
    {
        Diagnostic {
            label: self.resolved_label(),
            phase: Phase::Open,
            cause: Cause::Os(description),
        }
    }
}

impl SerialPlugin {
    /// What [`SerialPlugin::initialize`] returns for a configuration that it
    /// accepts: one connected port per setting, in slot order, with nothing
    /// read yet, and the index of their labels.
    pub open spec fn initialized(
        &self,
        increment: usize,
        ports: Vec<PortState>,
        index: LabelIndex,
    ) -> bool {
        let labels = resolved_labels(self.settings@);
        &&& index@ == labels
        &&& ports@.len() == labels.len()
        &&& forall|slot: int|
            0 <= slot < labels.len() ==> (#[trigger] ports@[slot])@ == PortModel::fresh(
                labels[slot],
                increment as nat,
            )
    }

    /// Lays out the ports of the configuration: assigns each setting its
    /// slot, resolves its label, and sets up its state. No device is touched:
    /// the host opens the devices once this has succeeded, so a configuration
    /// that is turned down leaves nothing behind.
    ///
    /// `increment` is the capacity with which each read buffer starts and by
    /// which it grows.
    pub fn initialize(&self, increment: usize) -> (result: Result<
        (Vec<PortState>, LabelIndex),
        InitError,
    >)
        ensures
            match result {
                Ok((ports, index)) => {
                    &&& increment > 0
                    &&& resolved_labels(self.settings@).no_duplicates()
                    &&& self.initialized(increment, ports, index)
                },
                Err(InitError::ZeroIncrement) => increment == 0,
                Err(InitError::DuplicateLabel { label, first, second }) => {
                    &&& increment > 0
                    &&& is_first_duplicate(
                        resolved_labels(self.settings@),
                        first as int,
                        second as int,
                    )
                    &&& label@ == resolved_labels(self.settings@)[second as int]
                },
            },
    {
        if increment == 0 {
            return Err(InitError::ZeroIncrement);
        }
        let ghost all = resolved_labels(self.settings@);
        let mut labels: Vec<String> = Vec::new();
        let mut ports: Vec<PortState> = Vec::new();
        let mut slot: usize = 0;
        while slot < self.settings.len()
            invariant
                increment > 0,
                all == resolved_labels(self.settings@),
                slot <= self.settings@.len(),
                labels@.len() == slot,
                ports@.len() == slot,
                forall|k: int| 0 <= k < slot ==> (#[trigger] labels@[k])@ == all[k],
                forall|k: int|
                    0 <= k < slot ==> (#[trigger] ports@[k])@ == PortModel::fresh(
                        all[k],
                        increment as nat,
                    ),
                all.subrange(0, slot as int).no_duplicates(),
            decreases self.settings@.len() - slot,
        {
            let label = self.settings[slot].resolved_label();
            assert(label@ == all[slot as int]);
            match find_label(&labels, &label) {
                Some(first) => {
                    assert(all[first as int] == all[slot as int]);
                    return Err(InitError::DuplicateLabel { label, first, second: slot });
                },
                None => {},
            }
            proof {
                let before = all.subrange(0, slot as int);
                let after = all.subrange(0, slot + 1);
                assert forall|i: int, j: int|
                    0 <= i < after.len() && 0 <= j < after.len() && i != j implies after[i]
                    != after[j] by {
                    if i < slot && j < slot {
                        assert(before[i] != before[j]);
                    } else if i < slot {
                        assert(labels@[i]@ == all[i]);
                    } else {
                        assert(labels@[j]@ == all[j]);
                    }
                }
            }
            match PortState::new(label.clone(), increment) {
                Some(port) => {
                    ports.push(port);
                },
                None => {},
            }
            labels.push(label);
            slot += 1;
        }
        proof {
            assert(all.subrange(0, slot as int) == all);
            assert(labels@.map_values(|label: String| label@) =~= all);
        }
        Ok((ports, LabelIndex { labels }))
    }
}

} // verus!
