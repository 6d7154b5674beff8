use bevy_serial::{
    Cause, Diagnostic, Phase, PortState, ReadAction, ReadOutcome, SerialPlugin, SerialReadEvent,
    SerialSetting,
};

fn port(label: &str, increment: usize) -> PortState {
    PortState::new(label.to_string(), increment).unwrap()
}

fn bytes(text: &[u8]) -> ReadOutcome {
    ReadOutcome::Bytes(text.to_vec())
}

fn read_report(label: &str, cause: Cause) -> ReadAction {
    ReadAction::Halt(Diagnostic { label: label.to_string(), phase: Phase::Read, cause })
}

#[test]
fn two_ports_one_produces_a_message_the_other_nothing() {
    let plugin = SerialPlugin {
        settings: vec![
            SerialSetting {
                label: Some("nav".to_string()),
                port_name: "/dev/ttyA".to_string(),
                ..Default::default()
            },
            SerialSetting {
                label: Some("gps".to_string()),
                port_name: "/dev/ttyB".to_string(),
                ..Default::default()
            },
        ],
    };
    let (mut ports, _) = plugin.initialize(2048).unwrap();

    assert_eq!(ports[0].begin_read(), ReadAction::Read { max_len: 2048 });
    assert_eq!(ports[0].on_read(bytes(b"12 34 56\n")), ReadAction::Read { max_len: 2039 });
    assert_eq!(
        ports[0].on_read(ReadOutcome::WouldBlock),
        ReadAction::Deliver(SerialReadEvent("nav".to_string(), b"12 34 56\n".to_vec()))
    );

    assert_eq!(ports[1].begin_read(), ReadAction::Read { max_len: 2048 });
    assert_eq!(ports[1].on_read(ReadOutcome::WouldBlock), ReadAction::Idle);
    assert!(ports[1].is_connected());
    assert_eq!(ports[1].pending_len(), 0);
}

#[test]
fn message_is_the_concatenation_of_the_chunks_of_its_drain() {
    let mut nav = port("nav", 8);
    let drains: [&[&[u8]]; 4] = [
        &[b"ab", b"cdefgh", b"i"],
        &[],
        &[b"0123456789abcdef0123"],
        &[b"x", b"y", b"z"],
    ];
    let mut delivered = Vec::new();
    for chunks in drains {
        let mut action = nav.begin_read();
        for chunk in chunks {
            assert!(matches!(action, ReadAction::Read { .. }));
            action = nav.on_read(bytes(chunk));
        }
        assert!(matches!(action, ReadAction::Read { .. }));
        match nav.on_read(ReadOutcome::WouldBlock) {
            ReadAction::Deliver(SerialReadEvent(label, message)) => {
                assert_eq!(label, "nav");
                delivered.push(message);
            }
            ReadAction::Idle => {}
            other => panic!("unexpected action {:?}", other),
        }
        assert_eq!(nav.pending_len(), 0);
    }
    assert_eq!(
        delivered,
        vec![b"abcdefghi".to_vec(), b"0123456789abcdef0123".to_vec(), b"xyz".to_vec()]
    );
}

#[test]
fn buffer_grows_by_one_increment_when_it_fills() {
    let mut nav = port("nav", 4);
    assert_eq!(nav.window(), 4);
    assert_eq!(nav.on_read(bytes(b"abc")), ReadAction::Read { max_len: 1 });
    assert_eq!(nav.on_read(bytes(b"d")), ReadAction::Read { max_len: 4 });
    assert_eq!(nav.pending_len(), 4);
    assert_eq!(nav.on_read(bytes(b"efgh")), ReadAction::Read { max_len: 4 });
    assert_eq!(nav.on_read(bytes(b"i")), ReadAction::Read { max_len: 3 });
    assert_eq!(nav.pending_len(), 9);
    assert_eq!(
        nav.on_read(ReadOutcome::WouldBlock),
        ReadAction::Deliver(SerialReadEvent("nav".to_string(), b"abcdefghi".to_vec()))
    );
    assert_eq!(nav.window(), 4);
}

#[test]
fn default_buffer_takes_a_full_first_read() {
    let mut nav = port("nav", 2048);
    let chunk = vec![7u8; 2048];
    assert_eq!(nav.on_read(ReadOutcome::Bytes(chunk.clone())), ReadAction::Read { max_len: 2048 });
    assert_eq!(nav.on_read(bytes(b"\x01")), ReadAction::Read { max_len: 2047 });
    let mut expected = chunk;
    expected.push(1);
    assert_eq!(
        nav.on_read(ReadOutcome::WouldBlock),
        ReadAction::Deliver(SerialReadEvent("nav".to_string(), expected))
    );
}

#[test]
fn interrupted_read_is_tried_again_and_loses_nothing() {
    let mut nav = port("nav", 16);
    assert_eq!(nav.on_read(ReadOutcome::Interrupted), ReadAction::Read { max_len: 16 });
    assert_eq!(nav.on_read(bytes(b"he")), ReadAction::Read { max_len: 14 });
    assert_eq!(nav.on_read(ReadOutcome::Interrupted), ReadAction::Read { max_len: 14 });
    assert_eq!(nav.on_read(bytes(b"llo")), ReadAction::Read { max_len: 11 });
    assert_eq!(
        nav.on_read(ReadOutcome::WouldBlock),
        ReadAction::Deliver(SerialReadEvent("nav".to_string(), b"hello".to_vec()))
    );
}

#[test]
fn failed_read_is_reported_and_keeps_port_and_bytes() {
    let mut nav = port("nav", 16);
    assert_eq!(nav.on_read(bytes(b"abc")), ReadAction::Read { max_len: 13 });
    assert_eq!(
        nav.on_read(ReadOutcome::Failed("device busy".to_string())),
        read_report("nav", Cause::Os("device busy".to_string()))
    );
    assert!(nav.is_connected());
    assert_eq!(nav.pending_len(), 3);
    assert_eq!(nav.begin_read(), ReadAction::Read { max_len: 13 });
    assert_eq!(nav.on_read(bytes(b"de")), ReadAction::Read { max_len: 11 });
    assert_eq!(
        nav.on_read(ReadOutcome::WouldBlock),
        ReadAction::Deliver(SerialReadEvent("nav".to_string(), b"abcde".to_vec()))
    );
}

#[test]
fn zero_byte_read_closes_the_port_for_good() {
    let mut nav = port("nav", 16);
    assert_eq!(nav.on_read(bytes(b"partial")), ReadAction::Read { max_len: 9 });
    assert_eq!(nav.on_read(bytes(b"")), read_report("nav", Cause::Closed));
    assert!(!nav.is_connected());
    assert_eq!(nav.pending_len(), 0);

    let turned_away = read_report("nav", Cause::NotConnected);
    assert_eq!(nav.begin_read(), turned_away);
    assert_eq!(nav.on_read(bytes(b"late")), turned_away);
    assert_eq!(nav.on_read(ReadOutcome::WouldBlock), turned_away);
    assert_eq!(nav.on_read(ReadOutcome::Interrupted), turned_away);
    assert_eq!(nav.on_read(ReadOutcome::Failed("x".to_string())), turned_away);
    assert_eq!(nav.on_read(bytes(b"")), turned_away);
    assert!(!nav.is_connected());
    assert_eq!(nav.pending_len(), 0);
}

#[test]
fn zero_byte_read_on_an_empty_buffer_closes_too() {
    let mut gps = port("gps", 2048);
    assert_eq!(gps.on_read(ReadOutcome::Bytes(Vec::new())), read_report("gps", Cause::Closed));
    assert!(!gps.is_connected());
}

#[test]
fn port_cannot_start_without_capacity() {
    assert_eq!(PortState::new("nav".to_string(), 0), None);
    let nav = PortState::new("nav".to_string(), 1).unwrap();
    assert_eq!(nav.label(), "nav");
    assert!(nav.is_connected());
    assert_eq!(nav.window(), 1);
}

#[test]
fn increment_of_one_always_leaves_room_for_one_byte() {
    let mut nav = port("nav", 1);
    assert_eq!(nav.on_read(bytes(b"a")), ReadAction::Read { max_len: 1 });
    assert_eq!(nav.on_read(bytes(b"b")), ReadAction::Read { max_len: 1 });
    assert_eq!(
        nav.on_read(ReadOutcome::WouldBlock),
        ReadAction::Deliver(SerialReadEvent("nav".to_string(), b"ab".to_vec()))
    );
}
