use ws_relay::connection::{Action, ConnState, Connection, Event, Inbound, Outbound};

const HI: &str = r#"[{"role":"user","content":"hi"}]"#;

fn text(s: &str) -> Event {
    Event::Frame(Inbound::Text(s.to_string()))
}

fn dispatched_id(a: Action) -> u64 {
    match a {
        Action::Dispatch { id, .. } => id,
        other => panic!("expected a dispatch, got {:?}", other),
    }
}

#[test]
fn new_connection_is_open_and_idle() {
    let c = Connection::new();
    assert_eq!(c.state(), ConnState::Open);
    assert!(c.is_open());
    assert!(c.active_relays().is_empty());
    assert_eq!(c.next_relay_id(), 0);
}

#[test]
fn ping_gets_pong_with_same_payload() {
    let mut c = Connection::new();
    let a = c.handle(Event::Frame(Inbound::Ping(vec![0x01, 0x02])));
    match a {
        Action::Reply(Outbound::Pong(p)) => assert_eq!(p, vec![0x01, 0x02]),
        other => panic!("unexpected {:?}", other),
    }
    assert!(c.is_open());
    assert!(c.active_relays().is_empty());
}

#[test]
fn ping_answered_while_relay_in_flight() {
    let mut c = Connection::new();
    let id = dispatched_id(c.handle(text(HI)));
    let a = c.handle(Event::Frame(Inbound::Ping(b"keepalive".to_vec())));
    match a {
        Action::Reply(Outbound::Pong(p)) => assert_eq!(p, b"keepalive".to_vec()),
        other => panic!("unexpected {:?}", other),
    }
    assert_eq!(c.active_relays(), vec![id]);
}

#[test]
fn binary_is_echoed_verbatim() {
    let mut c = Connection::new();
    let bytes = vec![0u8, 255, 7, 0, 42];
    match c.handle(Event::Frame(Inbound::Binary(bytes.clone()))) {
        Action::Reply(Outbound::Binary(b)) => assert_eq!(b, bytes),
        other => panic!("unexpected {:?}", other),
    }
    assert!(c.is_open());
}

#[test]
fn empty_binary_is_echoed() {
    let mut c = Connection::new();
    match c.handle(Event::Frame(Inbound::Binary(vec![]))) {
        Action::Reply(Outbound::Binary(b)) => assert!(b.is_empty()),
        other => panic!("unexpected {:?}", other),
    }
}

#[test]
fn valid_text_dispatches_a_relay() {
    let mut c = Connection::new();
    match c.handle(text(HI)) {
        Action::Dispatch { id, conversation } => {
            assert_eq!(id, 0);
            assert_eq!(conversation.len(), 1);
            assert_eq!(conversation.messages()[0].content, "hi");
        }
        other => panic!("unexpected {:?}", other),
    }
    assert_eq!(c.active_relays(), vec![0]);
}

#[test]
fn same_conversation_twice_gives_two_relays() {
    let mut c = Connection::new();
    let first = dispatched_id(c.handle(text(HI)));
    let second = dispatched_id(c.handle(text(HI)));
    assert_ne!(first, second);
    assert_eq!(c.next_relay_id(), 2);
    assert_eq!(c.active_relays(), vec![first, second]);
}

#[test]
fn malformed_text_is_dropped_and_connection_stays_usable() {
    let mut c = Connection::new();
    assert!(matches!(c.handle(text("not json")), Action::Nothing));
    assert!(c.is_open());
    assert!(c.active_relays().is_empty());
    let id = dispatched_id(c.handle(text(HI)));
    assert_eq!(c.active_relays(), vec![id]);
}

#[test]
fn empty_text_frames_are_dropped() {
    let mut c = Connection::new();
    assert!(matches!(c.handle(text("")), Action::Nothing));
    assert!(matches!(c.handle(text("[]")), Action::Nothing));
    assert!(c.is_open());
    assert!(c.active_relays().is_empty());
}

#[test]
fn finished_relay_leaves_the_registry() {
    let mut c = Connection::new();
    let a = dispatched_id(c.handle(text(HI)));
    let b = dispatched_id(c.handle(text(HI)));
    let d = dispatched_id(c.handle(text(HI)));
    assert!(matches!(c.handle(Event::RelayFinished { id: b }), Action::Nothing));
    assert_eq!(c.active_relays(), vec![a, d]);
    assert!(c.is_open());
    assert!(matches!(c.handle(Event::RelayFinished { id: 99 }), Action::Nothing));
    assert_eq!(c.active_relays(), vec![a, d]);
}

#[test]
fn failed_relay_keeps_connection_open() {
    let mut c = Connection::new();
    let id = dispatched_id(c.handle(text(HI)));
    assert!(matches!(c.handle(Event::RelayFinished { id }), Action::Nothing));
    assert!(c.is_open());
    let next = dispatched_id(c.handle(text(HI)));
    assert_eq!(next, id + 1);
}

#[test]
fn close_frame_shuts_down_and_cancels_relays() {
    let mut c = Connection::new();
    let a = dispatched_id(c.handle(text(HI)));
    let b = dispatched_id(c.handle(text(HI)));
    match c.handle(Event::Frame(Inbound::Close)) {
        Action::Shutdown { cancel } => assert_eq!(cancel, vec![a, b]),
        other => panic!("unexpected {:?}", other),
    }
    assert_eq!(c.state(), ConnState::Closed);
    assert!(c.active_relays().is_empty());
}

#[test]
fn pong_frame_terminates() {
    let mut c = Connection::new();
    assert!(matches!(
        c.handle(Event::Frame(Inbound::Pong(vec![1]))),
        Action::Shutdown { .. }
    ));
    assert!(!c.is_open());
}

#[test]
fn inbound_end_shuts_down() {
    let mut c = Connection::new();
    match c.handle(Event::InboundEnded) {
        Action::Shutdown { cancel } => assert!(cancel.is_empty()),
        other => panic!("unexpected {:?}", other),
    }
    assert_eq!(c.state(), ConnState::Closed);
}

#[test]
fn write_failure_is_fatal() {
    let mut c = Connection::new();
    let id = dispatched_id(c.handle(text(HI)));
    match c.handle(Event::WriteFailed) {
        Action::Shutdown { cancel } => assert_eq!(cancel, vec![id]),
        other => panic!("unexpected {:?}", other),
    }
    assert_eq!(c.state(), ConnState::Closed);
}

#[test]
fn closed_connection_ignores_everything() {
    let mut c = Connection::new();
    c.handle(Event::Frame(Inbound::Close));
    assert!(matches!(c.handle(text(HI)), Action::Nothing));
    assert!(matches!(c.handle(Event::Frame(Inbound::Ping(vec![1]))), Action::Nothing));
    assert!(matches!(c.handle(Event::Frame(Inbound::Binary(vec![1]))), Action::Nothing));
    assert!(matches!(c.handle(Event::WriteFailed), Action::Nothing));
    assert_eq!(c.state(), ConnState::Closed);
}
