//! What a readiness poll reports, turned into the slots to drain.
//!
//! The host registers each port for read readiness under its slot number and
//! polls with a short, bounded timeout. Write readiness is not asked for:
//! writes are tried at once and give way when the port would block.

use vstd::prelude::*;

verus! {

/// The longest that one poll may wait, in microseconds: long enough that the
/// host does not spin, short enough that its other work is not held up.
pub const POLL_TIMEOUT_MICROS: u64 = 1;

/// One event of a readiness poll: the token under which a stream was
/// registered, and whether the stream is readable.
#[derive(Debug, Clone, Copy, PartialEq, Eq, Structural)]
pub struct Readiness {
    pub token: usize,
    pub readable: bool,
}

impl Readiness {
    /// Whether the event asks for a drain: it reports read readiness, and
    /// its token is the slot of one of the `ports` ports.
    pub open spec fn asks_for_drain(self, ports: nat) -> bool {
        self.readable && self.token < ports
    }
}

/// The slots that a poll asks to drain.
pub open spec fn slots_to_drain(events: Seq<Readiness>, ports: nat) -> Seq<usize> {
    events.filter(|event: Readiness| event.asks_for_drain(ports)).map_values(
        |event: Readiness| event.token,
    )
}

/// Returns the slots to drain after a poll, in the order in which the poll
/// reported them: the tokens of the events that report read readiness for
/// one of the `ports` ports.
pub fn ready_slots(events: &Vec<Readiness>, ports: usize) -> (slots: Vec<usize>)
    ensures
        slots@ == slots_to_drain(events@, ports as nat),
{
    let mut slots: Vec<usize> = Vec::new();
    let mut i: usize = 0;
    while i < events.len()
        invariant
            i <= events@.len(),
            slots@ == slots_to_drain(events@.take(i as int), ports as nat),
        decreases events@.len() - i,
    {
        let event = events[i];
        proof {
            let seen = events@.take(i as int);
            let wanted = |event: Readiness| event.asks_for_drain(ports as nat);
            assert(events@.take(i + 1) =~= seen.push(event));
            seen.lemma_filter_push(event, wanted);
            if wanted(event) {
                let kept = seen.filter(wanted);
                assert(kept.push(event).map_values(|event: Readiness| event.token)
                    =~= kept.map_values(|event: Readiness| event.token).push(event.token));
            }
        }
        if event.readable && event.token < ports {
            slots.push(event.token);
        }
        i += 1;
    }
    assert(events@.take(i as int) =~= events@);
    slots
}

} // verus!
