use bevy_serial::{
    Cause, Diagnostic, Phase, PortState, ReadOutcome, SerialWriteEvent, WriteDrain, WriteOutcome,
    WriteStep,
};

fn port(label: &str) -> PortState {
    PortState::new(label.to_string(), 2048).unwrap()
}

fn request(label: &str, payload: &[u8]) -> SerialWriteEvent {
    SerialWriteEvent(label.to_string(), payload.to_vec())
}

fn offered(step: WriteStep<'_>) -> WriteDrain<'_> {
    match step {
        WriteStep::Offer(drain) => drain,
        other => panic!("the drain has ended: {:?}", other),
    }
}

/// A device that takes at most `chunk` bytes per write, and keeps what it took.
fn drive(port: &PortState, payload: &[u8], chunk: usize) -> (Vec<u8>, usize) {
    let mut taken = Vec::new();
    let mut writes = 0;
    let mut step = port.begin_write(payload.to_vec(), 0);
    while let WriteStep::Offer(drain) = step {
        let n = drain.offered().len().min(chunk);
        taken.extend_from_slice(&drain.offered()[..n]);
        writes += 1;
        step = drain.on_write(WriteOutcome::Accepted(n));
    }
    assert_eq!(step, WriteStep::Complete);
    (taken, writes)
}

#[test]
fn partial_write_then_would_block_hands_the_rest_back() {
    let nav = port("nav");
    let drain = offered(nav.begin_write(b"PING".to_vec(), 0));
    assert_eq!(drain.offered(), b"PING");
    assert_eq!(drain.sent_len(), 0);
    assert_eq!(drain.port().label(), "nav");
    assert!(drain.port().is_connected());
    let drain = offered(drain.on_write(WriteOutcome::Accepted(2)));
    assert_eq!(drain.offered(), b"NG");
    assert_eq!(drain.sent_len(), 2);
    assert_eq!(
        drain.on_write(WriteOutcome::WouldBlock),
        WriteStep::Requeue(request("nav", b"NG"))
    );
}

#[test]
fn whole_payload_in_one_write_completes() {
    let nav = port("nav");
    let drain = offered(nav.begin_write(b"Hello, bevy!".to_vec(), 0));
    assert_eq!(drain.on_write(WriteOutcome::Accepted(12)), WriteStep::Complete);
}

#[test]
fn payload_is_sent_byte_for_byte_in_any_number_of_parts() {
    let nav = port("nav");
    let payload: Vec<u8> = (0..=255u8).cycle().take(1000).collect();
    for chunk in [1, 2, 3, 7, 64, 999, 1000, 5000] {
        let (taken, writes) = drive(&nav, &payload, chunk);
        assert_eq!(taken, payload);
        assert_eq!(writes, (1000 + chunk - 1) / chunk);
    }
}

#[test]
fn would_block_is_retried_as_often_as_allowed() {
    let nav = port("nav");
    let drain = offered(nav.begin_write(b"abcdef".to_vec(), 2));
    let drain = offered(drain.on_write(WriteOutcome::WouldBlock));
    assert_eq!(drain.offered(), b"abcdef");
    let drain = offered(drain.on_write(WriteOutcome::Accepted(4)));
    let drain = offered(drain.on_write(WriteOutcome::WouldBlock));
    assert_eq!(drain.offered(), b"ef");
    assert_eq!(
        drain.on_write(WriteOutcome::WouldBlock),
        WriteStep::Requeue(request("nav", b"ef"))
    );
}

#[test]
fn would_block_at_once_hands_the_whole_payload_back() {
    let nav = port("nav");
    let drain = offered(nav.begin_write(b"PING".to_vec(), 0));
    assert_eq!(
        drain.on_write(WriteOutcome::WouldBlock),
        WriteStep::Requeue(request("nav", b"PING"))
    );
}

#[test]
fn requeued_rest_completes_the_payload_on_a_later_cycle() {
    let nav = port("nav");
    let mut taken = Vec::new();
    let drain = offered(nav.begin_write(b"0123456789".to_vec(), 0));
    taken.extend_from_slice(&drain.offered()[..3]);
    let drain = offered(drain.on_write(WriteOutcome::Accepted(3)));
    let rest = match drain.on_write(WriteOutcome::WouldBlock) {
        WriteStep::Requeue(rest) => rest,
        other => panic!("unexpected step {:?}", other),
    };
    assert_eq!(rest, request("nav", b"3456789"));
    let drain = offered(nav.begin_write(rest.1, 0));
    taken.extend_from_slice(drain.offered());
    assert_eq!(drain.on_write(WriteOutcome::Accepted(7)), WriteStep::Complete);
    assert_eq!(taken, b"0123456789");
}

#[test]
fn interrupted_write_offers_the_same_bytes_again() {
    let nav = port("nav");
    let drain = offered(nav.begin_write(b"PING".to_vec(), 0));
    let drain = offered(drain.on_write(WriteOutcome::Accepted(1)));
    let drain = offered(drain.on_write(WriteOutcome::Interrupted));
    assert_eq!(drain.offered(), b"ING");
    assert_eq!(drain.sent_len(), 1);
    let drain = offered(drain.on_write(WriteOutcome::Interrupted));
    assert_eq!(drain.on_write(WriteOutcome::Accepted(3)), WriteStep::Complete);
}

#[test]
fn zero_bytes_accepted_is_no_progress_and_no_fault() {
    let nav = port("nav");
    let drain = offered(nav.begin_write(b"PING".to_vec(), 0));
    let drain = offered(drain.on_write(WriteOutcome::Accepted(0)));
    assert_eq!(drain.offered(), b"PING");
    assert_eq!(drain.sent_len(), 0);
}

#[test]
fn more_accepted_than_offered_counts_as_all() {
    let nav = port("nav");
    let drain = offered(nav.begin_write(b"PING".to_vec(), 0));
    let drain = offered(drain.on_write(WriteOutcome::Accepted(3)));
    assert_eq!(drain.on_write(WriteOutcome::Accepted(usize::MAX)), WriteStep::Complete);
}

#[test]
fn failed_write_is_reported_and_drops_the_rest() {
    let nav = port("nav");
    let drain = offered(nav.begin_write(b"PING".to_vec(), 5));
    let drain = offered(drain.on_write(WriteOutcome::Accepted(1)));
    assert_eq!(
        drain.on_write(WriteOutcome::Failed("broken pipe".to_string())),
        WriteStep::Abandon(Diagnostic {
            label: "nav".to_string(),
            phase: Phase::Write,
            cause: Cause::Os("broken pipe".to_string()),
        })
    );
}

#[test]
fn empty_payload_is_complete_without_a_write() {
    let nav = port("nav");
    assert_eq!(nav.begin_write(b"".to_vec(), 0), WriteStep::Complete);
}

#[test]
fn closed_port_takes_up_no_write() {
    let mut nav = port("nav");
    nav.on_read(ReadOutcome::Bytes(Vec::new()));
    assert!(!nav.is_connected());
    let turned_away = WriteStep::Abandon(Diagnostic {
        label: "nav".to_string(),
        phase: Phase::Write,
        cause: Cause::NotConnected,
    });
    assert_eq!(nav.begin_write(b"PING".to_vec(), 0), turned_away);
    assert_eq!(nav.begin_write(b"PING".to_vec(), 9), turned_away);
    assert_eq!(nav.begin_write(b"".to_vec(), 0), turned_away);
}
