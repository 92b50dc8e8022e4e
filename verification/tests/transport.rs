use devtools_link::connection::Connection;
use devtools_link::message::{Frame, Message, Method, ProtocolDecodeError};
use devtools_link::ws::{
    Event, Incoming, Outbound, Phase, ReaderAction, Response, TransportError, WebSocketTransport,
};

fn open_connection() -> Connection {
    let mut transport = WebSocketTransport::new();
    assert!(matches!(
        transport.connected(true),
        Ok(Response::Meta(Event::Connected))
    ));
    Connection::new("ws://127.0.0.1:9222/devtools/browser/abc".to_string(), transport, 25)
}

fn response(id: u64) -> Incoming {
    Incoming::Text(format!("{{\"id\":{},\"result\":{{}}}}", id))
}

#[test]
fn transport_starts_connecting() {
    let transport = WebSocketTransport::new();
    assert_eq!(transport.phase(), Phase::Connecting);
    assert_eq!(transport.pending_count(), 0);
}

#[test]
fn failed_handshake_closes() {
    let mut transport = WebSocketTransport::new();
    assert!(matches!(transport.connected(false), Err(TransportError::ConnectionError)));
    assert_eq!(transport.phase(), Phase::Closed);
    assert!(matches!(transport.connected(true), Err(TransportError::ConnectionError)));
    assert_eq!(transport.phase(), Phase::Closed);
}

#[test]
fn send_before_open_is_refused() {
    let mut transport = WebSocketTransport::new();
    assert_eq!(transport.send("x".to_string(), 1), Err(TransportError::ConnectionClosed));
    assert_eq!(transport.pending_count(), 0);
    assert!(transport.next_outbound().is_none());
}

#[test]
fn ids_start_at_one_and_increase() {
    let mut connection = open_connection();
    assert_eq!(connection.issued(), 0);
    let message = Message::new(Method::Browser_getVersion);
    let mut last = 0;
    for expected in 1..=20u64 {
        let id = connection.send(&message).unwrap();
        assert_eq!(id, expected);
        assert!(id > last);
        last = id;
    }
    assert_eq!(connection.issued(), 20);
}

#[test]
fn connection_keeps_endpoint_and_delay() {
    let connection = open_connection();
    assert_eq!(connection.endpoint(), "ws://127.0.0.1:9222/devtools/browser/abc");
    assert_eq!(connection.slow_mo(), 25);
    assert_eq!(connection.phase(), Phase::Open);
}

#[test]
fn frames_are_written_in_call_order() {
    let mut connection = open_connection();
    let first = Message::new(Method::Browser_getVersion);
    let second = Message::new_with_params(
        Method::Page_navigate,
        vec![("url".to_string(), "https://example.com".to_string())],
    );
    connection.send(&first).unwrap();
    connection.send(&second).unwrap();
    match connection.next_outbound() {
        Some(Outbound::Text(text)) => {
            assert_eq!(text, "{\"id\":1,\"method\":\"Browser.getVersion\"}")
        }
        other => panic!("unexpected {:?}", other),
    }
    match connection.next_outbound() {
        Some(Outbound::Text(text)) => assert_eq!(
            text,
            "{\"id\":2,\"method\":\"Page.navigate\",\"params\":{\"url\":\"https://example.com\"}}"
        ),
        other => panic!("unexpected {:?}", other),
    }
    assert!(connection.next_outbound().is_none());
}

#[test]
fn responses_are_matched_by_id_in_any_order() {
    let mut connection = open_connection();
    let message = Message::new(Method::Browser_getVersion);
    for _ in 0..5 {
        connection.send(&message).unwrap();
    }
    let mut fulfilled = Vec::new();
    for id in [3u64, 5, 1, 4, 2] {
        match connection.receive(response(id)) {
            ReaderAction::Fulfill { id: got, response: Response::Frame(text) } => {
                assert_eq!(got, id);
                assert_eq!(text, format!("{{\"id\":{},\"result\":{{}}}}", id));
                fulfilled.push(got);
            }
            other => panic!("unexpected {:?}", other),
        }
        assert!(!connection.is_pending(id));
    }
    assert_eq!(fulfilled.len(), 5);
    for id in 1..=5u64 {
        assert!(!connection.is_pending(id));
    }
}

#[test]
fn duplicate_response_is_unmatched() {
    let mut connection = open_connection();
    let message = Message::new(Method::Browser_getVersion);
    connection.send(&message).unwrap();
    assert!(matches!(connection.receive(response(1)), ReaderAction::Fulfill { id: 1, .. }));
    assert!(matches!(connection.receive(response(1)), ReaderAction::Unmatched { id: 1 }));
    assert!(matches!(connection.receive(response(77)), ReaderAction::Unmatched { id: 77 }));
    assert_eq!(connection.phase(), Phase::Open);
}

#[test]
fn timeout_removes_the_request() {
    let mut connection = open_connection();
    let message = Message::new(Method::Browser_getVersion);
    let id = connection.send(&message).unwrap();
    assert!(connection.is_pending(id));
    assert_eq!(connection.timeout(id), Some(TransportError::Timeout));
    assert!(!connection.is_pending(id));
    assert!(matches!(connection.receive(response(id)), ReaderAction::Unmatched { id: 1 }));
    assert_eq!(connection.timeout(id), None);
    assert_eq!(connection.phase(), Phase::Open);
    assert_eq!(connection.send(&message), Ok(2));
}

#[test]
fn close_fails_pending_and_later_sends() {
    let mut connection = open_connection();
    let message = Message::new(Method::Browser_getVersion);
    connection.send(&message).unwrap();
    connection.send(&message).unwrap();
    connection.send(&message).unwrap();
    assert!(matches!(connection.receive(response(2)), ReaderAction::Fulfill { id: 2, .. }));
    assert_eq!(connection.close(), vec![1, 3]);
    assert_eq!(connection.phase(), Phase::Closed);
    assert_eq!(connection.send(&message), Err(TransportError::ConnectionClosed));
    assert_eq!(connection.issued(), 3);
    assert!(connection.next_outbound().is_none());
    assert!(connection.close().is_empty());
    assert!(matches!(connection.receive(response(1)), ReaderAction::Ignored));
}

#[test]
fn events_and_bad_frames_do_not_disturb() {
    let mut connection = open_connection();
    let message = Message::new(Method::Browser_getVersion);
    connection.send(&message).unwrap();
    match connection.receive(Incoming::Text("{\"method\":\"Page.loaded\"}".to_string())) {
        ReaderAction::Event { payload } => assert_eq!(payload, "{\"method\":\"Page.loaded\"}"),
        other => panic!("unexpected {:?}", other),
    }
    assert!(matches!(
        connection.receive(Incoming::Text("{oops".to_string())),
        ReaderAction::Dropped(ProtocolDecodeError::Malformed)
    ));
    assert!(matches!(
        connection.receive(Incoming::Text("[]".to_string())),
        ReaderAction::Dropped(ProtocolDecodeError::MissingStructure)
    ));
    assert!(matches!(connection.receive(Incoming::Other), ReaderAction::Ignored));
    assert!(connection.is_pending(1));
    assert_eq!(connection.phase(), Phase::Open);
}

#[test]
fn event_before_any_request_is_passed_on() {
    let mut connection = open_connection();
    assert!(matches!(
        connection.receive(Incoming::Text("{\"method\":\"Target.targetCreated\"}".to_string())),
        ReaderAction::Event { .. }
    ));
    assert_eq!(connection.issued(), 0);
}

#[test]
fn ping_is_answered_with_pong() {
    let mut connection = open_connection();
    assert!(matches!(
        connection.receive(Incoming::Ping(vec![1, 2, 3])),
        ReaderAction::Ponged
    ));
    match connection.next_outbound() {
        Some(Outbound::Pong(data)) => assert_eq!(data, vec![1, 2, 3]),
        other => panic!("unexpected {:?}", other),
    }
}

#[test]
fn peer_close_shuts_down() {
    let mut connection = open_connection();
    let message = Message::new(Method::Browser_getVersion);
    connection.send(&message).unwrap();
    connection.send(&message).unwrap();
    match connection.receive(Incoming::Close) {
        ReaderAction::Shutdown { failed } => assert_eq!(failed, vec![1, 2]),
        other => panic!("unexpected {:?}", other),
    }
    assert_eq!(connection.phase(), Phase::Closing);
    assert_eq!(connection.send(&message), Err(TransportError::ConnectionClosed));
    assert!(matches!(connection.next_outbound(), Some(Outbound::Text(_))));
    assert!(matches!(connection.next_outbound(), Some(Outbound::Text(_))));
    assert_eq!(connection.phase(), Phase::Closing);
    assert!(matches!(connection.next_outbound(), Some(Outbound::Close)));
    assert_eq!(connection.phase(), Phase::Closed);
    assert!(connection.next_outbound().is_none());
}

#[test]
fn read_failure_shuts_down() {
    let mut connection = open_connection();
    let message = Message::new(Method::Browser_getVersion);
    connection.send(&message).unwrap();
    match connection.receive(Incoming::Failed) {
        ReaderAction::Shutdown { failed } => assert_eq!(failed, vec![1]),
        other => panic!("unexpected {:?}", other),
    }
    assert!(matches!(connection.receive(Incoming::Failed), ReaderAction::Ignored));
}

#[test]
fn settle_on_the_transport() {
    let mut transport = WebSocketTransport::new();
    transport.connected(true).unwrap();
    transport.send("a".to_string(), 8).unwrap();
    transport.send("b".to_string(), 8).unwrap();
    assert_eq!(transport.pending_count(), 1);
    assert!(transport.is_pending(8));
    let frame = Frame::Response { id: 8, payload: "p".to_string() };
    match transport.settle(Ok(frame)) {
        ReaderAction::Fulfill { id, response: Response::Frame(text) } => {
            assert_eq!(id, 8);
            assert_eq!(text, "p");
        }
        other => panic!("unexpected {:?}", other),
    }
    assert!(!transport.expire(8));
    assert!(matches!(
        transport.settle(Err(ProtocolDecodeError::Malformed)),
        ReaderAction::Dropped(ProtocolDecodeError::Malformed)
    ));
    assert_eq!(transport.close(), Vec::<u64>::new());
}

#[test]
fn failed_write_tears_down() {
    let mut connection = open_connection();
    let message = Message::new(Method::Browser_getVersion);
    connection.send(&message).unwrap();
    connection.send(&message).unwrap();
    assert!(matches!(connection.next_outbound(), Some(Outbound::Text(_))));
    assert_eq!(connection.write_failed(), vec![1, 2]);
    assert_eq!(connection.phase(), Phase::Closed);
    assert!(connection.next_outbound().is_none());
    assert_eq!(connection.send(&message), Err(TransportError::ConnectionClosed));
}

#[test]
fn separate_connections_count_separately() {
    let mut first = open_connection();
    let mut second = open_connection();
    let message = Message::new(Method::Browser_getVersion);
    assert_eq!(first.send(&message), Ok(1));
    assert_eq!(first.send(&message), Ok(2));
    assert_eq!(second.send(&message), Ok(1));
    assert_eq!(first.send(&message), Ok(3));
}
