use bevy_serial::readiness::POLL_TIMEOUT_MICROS;
use bevy_serial::{ready_slots, Readiness};

fn event(token: usize, readable: bool) -> Readiness {
    Readiness { token, readable }
}

#[test]
fn readable_events_of_known_ports_are_drained_in_poll_order() {
    let events = vec![event(2, true), event(0, false), event(1, true), event(0, true)];
    assert_eq!(ready_slots(&events, 3), vec![2, 1, 0]);
}

#[test]
fn tokens_beyond_the_ports_are_left_out() {
    let events = vec![event(3, true), event(1, true), event(usize::MAX, true)];
    assert_eq!(ready_slots(&events, 3), vec![1]);
    assert_eq!(ready_slots(&events, 0), Vec::<usize>::new());
}

#[test]
fn event_reported_twice_is_drained_twice() {
    let events = vec![event(1, true), event(1, true)];
    assert_eq!(ready_slots(&events, 2), vec![1, 1]);
}

#[test]
fn no_events_no_slots() {
    assert_eq!(ready_slots(&Vec::new(), 4), Vec::<usize>::new());
    assert_eq!(ready_slots(&vec![event(0, false), event(1, false)], 4), Vec::<usize>::new());
}

#[test]
fn poll_timeout_is_short_but_not_zero() {
    assert_eq!(POLL_TIMEOUT_MICROS, 1);
}
