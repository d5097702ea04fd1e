use engine::error::FetchError;
use engine::exchange::{Action, Event, Exchange, Fetcher, Phase};
use engine::request::{HttpMethod, HttpRequest, HttpVersion};

fn exchange(limit: usize) -> Exchange {
    let mut f = Fetcher::new();
    f.max_response_bytes = limit;
    let r = HttpRequest {
        method: HttpMethod::Get,
        address: "example.com/".to_string(),
        version: HttpVersion::Http11,
        user_agent: "T".to_string(),
        headers: Vec::new(),
        body: None,
    };
    f.begin(&r).unwrap()
}

fn receiving(limit: usize) -> Exchange {
    let mut x = exchange(limit);
    assert!(matches!(x.pending(), Action::Connect));
    assert!(matches!(x.on_event(Event::Connected), Action::Send));
    assert!(matches!(x.on_event(Event::Sent), Action::Read));
    assert_eq!(x.phase, Phase::Receiving);
    x
}

#[test]
fn first_bytes_are_kept() {
    let mut x = receiving(1024);
    assert!(matches!(x.on_event(Event::Received(b"HTTP/1.1 200 OK\r\n".to_vec())), Action::Read));
    assert!(matches!(x.on_event(Event::Received(b"\r\nhello".to_vec())), Action::Read));
    match x.on_event(Event::Closed) {
        Action::Deliver(v) => assert_eq!(v, b"HTTP/1.1 200 OK\r\n\r\nhello".to_vec()),
        other => panic!("unexpected {other:?}"),
    }
    assert_eq!(x.phase, Phase::Done);
    assert!(matches!(x.on_event(Event::Closed), Action::Idle));
}

#[test]
fn binary_payload_is_returned_unchanged() {
    let payload: Vec<u8> = (0..=255u8).chain([0xff, 0xfe, 0x00, 0xc3]).collect();
    let mut x = receiving(4096);
    x.on_event(Event::Received(payload[..100].to_vec()));
    x.on_event(Event::Received(Vec::new()));
    x.on_event(Event::Received(payload[100..].to_vec()));
    match x.on_event(Event::Closed) {
        Action::Deliver(v) => assert_eq!(v, payload),
        other => panic!("unexpected {other:?}"),
    }
}

#[test]
fn empty_response() {
    let mut x = receiving(10);
    match x.on_event(Event::Closed) {
        Action::Deliver(v) => assert!(v.is_empty()),
        other => panic!("unexpected {other:?}"),
    }
}

#[test]
fn unreachable_host_fails_to_connect() {
    let mut x = exchange(10);
    match x.on_event(Event::ConnectFailed("connection refused".to_string())) {
        Action::Fail(e) => {
            assert_eq!(e, FetchError::ConnectionFailed("connection refused".to_string()))
        }
        other => panic!("unexpected {other:?}"),
    }
    assert_eq!(x.phase, Phase::Done);
}

#[test]
fn send_failure() {
    let mut x = exchange(10);
    x.on_event(Event::Connected);
    match x.on_event(Event::SendFailed("broken pipe".to_string())) {
        Action::Fail(e) => assert_eq!(e, FetchError::SendFailed("broken pipe".to_string())),
        other => panic!("unexpected {other:?}"),
    }
}

#[test]
fn receive_failure_drops_partial_response() {
    let mut x = receiving(100);
    x.on_event(Event::Received(b"partial".to_vec()));
    match x.on_event(Event::ReceiveFailed("reset".to_string())) {
        Action::Fail(e) => assert_eq!(e, FetchError::ReceiveFailed("reset".to_string())),
        other => panic!("unexpected {other:?}"),
    }
    assert!(x.received.is_empty());
}

#[test]
fn read_timeout() {
    let mut x = receiving(100);
    match x.on_event(Event::TimedOut) {
        Action::Fail(e) => assert_eq!(e, FetchError::ReadTimeout),
        other => panic!("unexpected {other:?}"),
    }
}

#[test]
fn response_bound_exact_and_exceeded() {
    let mut x = receiving(5);
    assert!(matches!(x.on_event(Event::Received(b"12345".to_vec())), Action::Read));
    match x.on_event(Event::Received(b"6".to_vec())) {
        Action::Fail(e) => assert_eq!(e, FetchError::ResponseTooLarge),
        other => panic!("unexpected {other:?}"),
    }
    assert_eq!(x.phase, Phase::Done);
}

#[test]
fn out_of_order_event_changes_nothing() {
    let mut x = exchange(10);
    assert!(matches!(x.on_event(Event::Sent), Action::Connect));
    assert!(matches!(x.on_event(Event::Received(b"x".to_vec())), Action::Connect));
    assert_eq!(x.phase, Phase::Connecting);
    assert!(x.received.is_empty());
}
