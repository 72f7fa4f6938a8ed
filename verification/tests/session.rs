use conductor_relay::codec::{encode, request, Message};
use conductor_relay::frame::{Frame, RelayError};
use conductor_relay::session::{AppConnection, SessionEvent};

type Reply = Result<String, RelayError>;

fn response_frame(id: &[u8], data: &[u8]) -> Frame {
    Frame::Binary(encode(&Message::Response { id: id.to_vec(), data: data.to_vec() }))
}

fn signal_frame(data: &[u8]) -> Frame {
    Frame::Binary(encode(&Message::Signal { data: data.to_vec() }))
}

#[test]
fn session_routes_replies_by_id_independent_of_order() {
    let mut conn = AppConnection::new();
    let (tx_a, rx_a) = crossbeam::channel::bounded::<Reply>(1);
    let (tx_b, rx_b) = crossbeam::channel::bounded::<Reply>(1);
    assert!(conn.register(b"a".to_vec(), tx_a));
    assert!(conn.register(b"b".to_vec(), tx_b));

    // Replies arrive in the opposite order of the requests.
    assert_eq!(conn.handle_frame(response_frame(b"b", &[2])), SessionEvent::Delivered);
    assert_eq!(conn.handle_frame(response_frame(b"a", &[1])), SessionEvent::Delivered);

    assert_eq!(rx_a.recv().unwrap(), Ok(base64::encode(&[1u8])));
    assert_eq!(rx_b.recv().unwrap(), Ok(base64::encode(&[2u8])));
}

#[test]
fn signals_accumulate_in_order_and_are_never_delivered_to_waiters() {
    let mut conn = AppConnection::new();
    let (tx_a, rx_a) = crossbeam::channel::bounded::<Reply>(1);
    assert!(conn.register(b"a".to_vec(), tx_a));

    assert_eq!(conn.handle_frame(signal_frame(&[1])), SessionEvent::SignalStored);
    assert_eq!(conn.handle_frame(response_frame(b"a", &[5])), SessionEvent::Delivered);
    assert_eq!(conn.handle_frame(signal_frame(&[2])), SessionEvent::SignalStored);

    // The waiter saw only its response, no signal.
    assert_eq!(rx_a.recv().unwrap(), Ok("BQ==".to_string()));
    assert!(rx_a.try_recv().is_err());

    // Signals drain in arrival order; a second drain yields nothing.
    assert_eq!(conn.drain_signals(), vec!["AQ==".to_string(), "Ag==".to_string()]);
    assert_eq!(conn.drain_signals(), Vec::<String>::new());
}

#[test]
fn signal_payload_is_standard_base64() {
    let mut conn = AppConnection::new();
    conn.handle_frame(signal_frame(&[1, 2, 3]));
    conn.handle_frame(signal_frame(&[0xff]));
    let drained = conn.drain_signals();
    assert_eq!(drained, vec!["AQID".to_string(), "/w==".to_string()]);
    assert_eq!(drained[0], base64::encode(&[1u8, 2, 3]));
}

#[test]
fn unmatched_response_is_dropped_and_harmless() {
    let mut conn = AppConnection::new();
    let (tx_a, rx_a) = crossbeam::channel::bounded::<Reply>(1);
    assert!(conn.register(b"a".to_vec(), tx_a));

    assert_eq!(conn.handle_frame(response_frame(b"zz", &[9])), SessionEvent::UnmatchedResponse);

    // The pending call is untouched and still deliverable.
    assert_eq!(conn.handle_frame(response_frame(b"a", &[1])), SessionEvent::Delivered);
    assert_eq!(rx_a.recv().unwrap(), Ok(base64::encode(&[1u8])));
}

#[test]
fn inbound_request_is_dropped() {
    let mut conn = AppConnection::new();
    let frame = Frame::Binary(encode(&Message::Request { id: b"x".to_vec(), data: vec![1] }));
    assert_eq!(conn.handle_frame(frame), SessionEvent::UnexpectedRequest);
    assert_eq!(conn.drain_signals(), Vec::<String>::new());
}

#[test]
fn undecodable_frame_is_dropped_without_effect() {
    let mut conn = AppConnection::new();
    assert_eq!(
        conn.handle_frame(Frame::Binary(vec![0x00, 0x01])),
        SessionEvent::BadFrame(RelayError::MalformedFrame)
    );
    assert_eq!(
        conn.handle_frame(Frame::Text("ping".to_string())),
        SessionEvent::BadFrame(RelayError::UnexpectedFrameKind)
    );
    assert_eq!(conn.drain_signals(), Vec::<String>::new());
}

#[test]
fn begin_call_builds_request_and_refuses_duplicates() {
    let mut conn = AppConnection::new();
    let (tx1, _rx1) = crossbeam::channel::bounded::<Reply>(1);
    let (tx2, _rx2) = crossbeam::channel::bounded::<Reply>(1);

    let frame = conn.begin_call(b"a".to_vec(), vec![1, 2], tx1).unwrap();
    assert_eq!(frame, request(b"a".to_vec(), vec![1, 2]));

    assert_eq!(
        conn.begin_call(b"a".to_vec(), vec![3], tx2),
        Err(RelayError::DuplicateRequestId)
    );
}

#[test]
fn register_frees_id_after_delivery() {
    let mut conn = AppConnection::new();
    let (tx1, _rx1) = crossbeam::channel::bounded::<Reply>(1);
    let (tx2, _rx2) = crossbeam::channel::bounded::<Reply>(1);
    assert!(conn.register(b"a".to_vec(), tx1));
    conn.handle_frame(response_frame(b"a", &[1]));
    // The id is free again once its response was delivered.
    assert!(conn.register(b"a".to_vec(), tx2));
}

#[test]
fn close_fails_every_pending_call() {
    let mut conn = AppConnection::new();
    let (tx_a, rx_a) = crossbeam::channel::bounded::<Reply>(1);
    let (tx_b, rx_b) = crossbeam::channel::bounded::<Reply>(1);
    assert!(conn.register(b"a".to_vec(), tx_a));
    assert!(conn.register(b"b".to_vec(), tx_b));

    conn.close();

    assert_eq!(rx_a.recv().unwrap(), Err(RelayError::SessionClosed));
    assert_eq!(rx_b.recv().unwrap(), Err(RelayError::SessionClosed));
}
