use conductor_relay::codec::{encode, request, Message};
use conductor_relay::frame::{Frame, RelayError};
use conductor_relay::oneshot::{parse_holochain_response, OneShotCall};

#[test]
fn one_shot_request_frame_has_empty_id() {
    let (_call, frame) = OneShotCall::begin(vec![1, 2, 3]);
    assert_eq!(frame, request(Vec::new(), vec![1, 2, 3]));
}

#[test]
fn one_shot_returns_response_payload() {
    // The reply's payload comes back whatever the request carried.
    for q in [Vec::new(), vec![9u8; 40]] {
        let (mut call, _frame) = OneShotCall::begin(q);
        let reply = encode(&Message::Response { id: Vec::new(), data: vec![10, 20, 30] });
        let got = call.on_frame(Frame::Binary(reply));
        assert_eq!(got, Some(Ok(vec![10, 20, 30])));
    }
}

#[test]
fn one_shot_response_id_is_ignored() {
    let (mut call, _frame) = OneShotCall::begin(vec![1]);
    let reply = encode(&Message::Response { id: b"whatever".to_vec(), data: vec![5] });
    assert_eq!(call.on_frame(Frame::Binary(reply)), Some(Ok(vec![5])));
}

#[test]
fn one_shot_signal_reply_is_shape_error() {
    let (mut call, _frame) = OneShotCall::begin(vec![1]);
    let reply = encode(&Message::Signal { data: vec![5] });
    assert_eq!(call.on_frame(Frame::Binary(reply)), Some(Err(RelayError::ProtocolShape)));
}

#[test]
fn one_shot_request_reply_is_shape_error() {
    let reply = encode(&Message::Request { id: b"x".to_vec(), data: vec![5] });
    assert_eq!(parse_holochain_response(Frame::Binary(reply)), Err(RelayError::ProtocolShape));
}

#[test]
fn one_shot_text_frame_is_rejected() {
    let (mut call, _frame) = OneShotCall::begin(vec![1]);
    let got = call.on_frame(Frame::Text("hello".to_string()));
    assert_eq!(got, Some(Err(RelayError::UnexpectedFrameKind)));
}

#[test]
fn one_shot_garbage_reply_is_malformed() {
    let (mut call, _frame) = OneShotCall::begin(vec![1]);
    assert_eq!(
        call.on_frame(Frame::Binary(vec![0xff, 0x00])),
        Some(Err(RelayError::MalformedFrame))
    );
}

#[test]
fn one_shot_second_frame_is_ignored() {
    let (mut call, _frame) = OneShotCall::begin(vec![1]);
    let reply = encode(&Message::Response { id: Vec::new(), data: vec![5] });
    assert_eq!(call.on_frame(Frame::Binary(reply.clone())), Some(Ok(vec![5])));
    assert_eq!(call.on_frame(Frame::Binary(reply)), None);
}

#[test]
fn one_shot_after_send_failure_ignores_frames() {
    let (mut call, _frame) = OneShotCall::begin(vec![1]);
    call.mark_send_failed();
    let reply = encode(&Message::Response { id: Vec::new(), data: vec![5] });
    assert_eq!(call.on_frame(Frame::Binary(reply)), None);
}
