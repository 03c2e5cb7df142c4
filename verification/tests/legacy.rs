use std::sync::Arc;

use protosocket::examples::{messagepack, proto, spawn, spawn_stream};
use protosocket::io_errors::{interrupted, kind_interrupted, kind_would_block, would_block};
use protosocket::legacy_server::{
    request_step, DeserializeError, Deserializer, ReceiveState, RequestStep, SendState, Serializer, BUFFER_INCREMENT,
    MAX_RECEIVE_BUFFER, SERIALIZER_BUFFERS,
};
use protosocket::prost_error::Error;

/// Requests framed as one length byte and that many bytes; 0xff is invalid.
struct LengthByte;

impl Deserializer for LengthByte {
    type Request = Vec<u8>;

    fn decode(&mut self, buffer: &[u8]) -> Result<(usize, Vec<u8>), DeserializeError> {
        match buffer.first() {
            None => Err(DeserializeError::IncompleteBuffer { next_message_size: 1 }),
            Some(0xff) => Err(DeserializeError::InvalidMessage),
            Some(&length) => {
                let total = 1 + length as usize;
                if buffer.len() < total {
                    Err(DeserializeError::IncompleteBuffer { next_message_size: total })
                } else {
                    Ok((total, buffer[1..total].to_vec()))
                }
            }
        }
    }
}

struct Plain;

impl Serializer for Plain {
    type Response = Vec<u8>;

    fn encode(&mut self, response: Vec<u8>, buffer: &mut Vec<u8>) {
        buffer.extend_from_slice(&response);
    }
}

fn unsent(state: &SendState) -> Vec<u8> {
    let mut bytes = Vec::new();
    for index in 0..state.queued_len() {
        bytes.extend_from_slice(state.queued_at(index));
    }
    bytes
}

#[test]
fn receive_state_grows_by_a_quarter_at_least_one_increment() {
    let mut state = ReceiveState::new();
    assert_eq!(state.prepare_read(), BUFFER_INCREMENT);
    state.commit_read(&vec![1u8; BUFFER_INCREMENT - 10]);
    // Less than an increment free: resized to max(increment, capacity / 4),
    // which is no bigger, so nothing changes.
    assert_eq!(state.prepare_read(), 10);
    assert!(BUFFER_INCREMENT < MAX_RECEIVE_BUFFER);
}

#[test]
fn receive_state_decodes_requests_in_order() {
    let mut state = ReceiveState::new();
    state.prepare_read();
    state.commit_read(&[1, 10, 2, 20, 21, 3, 30]);
    let requests = state.decode_requests(&mut LengthByte);
    assert_eq!(requests, vec![vec![10], vec![20, 21]]);
    state.commit_read(&[31, 32]);
    let requests = state.decode_requests(&mut LengthByte);
    assert_eq!(requests, vec![vec![30, 31, 32]]);
    assert!(state.decode_requests(&mut LengthByte).is_empty());
}

#[test]
fn an_invalid_request_discards_what_was_read() {
    let mut state = ReceiveState::new();
    state.prepare_read();
    state.commit_read(&[1, 10, 0xff, 4, 4]);
    assert_eq!(state.decode_requests(&mut LengthByte), vec![vec![10]]);
    state.commit_read(&[1, 11]);
    assert_eq!(state.decode_requests(&mut LengthByte), vec![vec![11]]);
}

#[test]
fn send_state_recycles_written_buffers() {
    let mut state = SendState::new();
    assert_eq!(state.queued_len(), 0);
    assert!(state.has_free_buffer());
    state.enqueue_response(&mut Plain, vec![1, 2, 3]);
    state.enqueue_response(&mut Plain, vec![4, 5]);
    assert_eq!(state.queued_len(), 2);
    state.rotate_send_buffers(4);
    assert_eq!(unsent(&state), vec![5]);
    state.rotate_send_buffers(0);
    assert_eq!(unsent(&state), vec![5]);
    state.rotate_send_buffers(1);
    assert_eq!(state.queued_len(), 0);
    state.rotate_send_buffers(3);
    assert_eq!(state.queued_len(), 0);
}

#[test]
fn send_state_runs_out_of_free_buffers() {
    let mut state = SendState::new();
    for i in 0..SERIALIZER_BUFFERS {
        assert!(state.has_free_buffer());
        state.enqueue_response(&mut Plain, vec![i as u8]);
    }
    assert!(!state.has_free_buffer());
    state.rotate_send_buffers(2);
    assert!(state.has_free_buffer());
    assert_eq!(state.queued_len(), SERIALIZER_BUFFERS - 2);
}

#[test]
fn io_error_kinds() {
    assert!(kind_would_block(std::io::ErrorKind::WouldBlock));
    assert!(!kind_would_block(std::io::ErrorKind::Interrupted));
    assert!(kind_interrupted(std::io::ErrorKind::Interrupted));
    assert!(!kind_interrupted(std::io::ErrorKind::Other));
    assert!(would_block(&std::io::Error::from(std::io::ErrorKind::WouldBlock)));
    assert!(!would_block(&std::io::Error::from(std::io::ErrorKind::BrokenPipe)));
    assert!(interrupted(&std::io::Error::from(std::io::ErrorKind::Interrupted)));
}

#[test]
fn client_errors_wrap_their_causes() {
    let io = Arc::new(std::io::Error::from(std::io::ErrorKind::ConnectionRefused));
    match Error::io_failure(io) {
        Error::IoFailure(error) => assert_eq!(error.kind(), std::io::ErrorKind::ConnectionRefused),
        other => panic!("unexpected {other:?}"),
    }
    let parse = "not an address".parse::<core::net::SocketAddr>().unwrap_err();
    let error = Error::address_error(parse.clone());
    match error.clone() {
        Error::AddressError(cloned) => assert_eq!(cloned, parse),
        other => panic!("unexpected {other:?}"),
    }
    assert!(matches!(Error::Dead("registry"), Error::Dead("registry")));
}

#[test]
fn proto_echo_copies_the_request() {
    let request = proto::Request {
        request_id: 42,
        body: Some(proto::EchoRequest { message: "hey".to_string(), nanotime: 7 }),
    };
    assert_eq!(request.message_id(), 42);
    assert_eq!(request.control_code(), protosocket::control::ProtosocketControlCode::Normal);
    let response = proto::echo_response(request);
    assert_eq!(response.request_id, 42);
    assert_eq!(response.body, Some(proto::EchoResponse { message: "hey".to_string(), nanotime: 7 }));
    let mut cancelled = proto::Request::cancelled();
    assert_eq!(cancelled.control_code(), protosocket::control::ProtosocketControlCode::Cancel);
    cancelled.set_message_id(9);
    assert_eq!(cancelled.message_id(), 9);
    assert_eq!(proto::echo_response(cancelled).body, None);
}

#[test]
fn spawn_messages_carry_codes_and_behaviors() {
    let request = spawn::Request { request_id: 3, code: 2, body: None, response_behavior: 1 };
    assert_eq!(request.control_code(), protosocket::control::ProtosocketControlCode::End);
    assert_eq!(request.response_behavior(), spawn::ResponseBehavior::Stream);
    let unknown = spawn::Request { request_id: 3, code: 258, body: None, response_behavior: 7 };
    assert_eq!(unknown.control_code(), protosocket::control::ProtosocketControlCode::End);
    assert_eq!(unknown.response_behavior(), spawn::ResponseBehavior::Unary);
    let cancelled = spawn::Request::cancelled(5);
    assert_eq!((cancelled.request_id, cancelled.code, cancelled.response_behavior), (5, 1, 0));
    let ended = spawn::Response::ended(6);
    assert_eq!((ended.request_id, ended.code), (6, 2));
    assert_eq!(spawn::ResponseBehavior::Stream.as_i32(), 1);
    let response = spawn::immediate_echo_response(8, spawn::EchoRequest { message: "m".to_string(), nanotime: 1 });
    assert_eq!(response.code, 0);
    assert_eq!(
        response.kind,
        Some(spawn::EchoResponseKind::Echo(spawn::EchoResponse { message: "m".to_string(), nanotime: 1 }))
    );
}

#[test]
fn stream_and_messagepack_messages() {
    let mut request = spawn_stream::Request::ended(4);
    assert_eq!(request.control_code(), protosocket::control::ProtosocketControlCode::End);
    request.set_message_id(10);
    assert_eq!(request.message_id(), 10);
    let response = spawn_stream::Response::cancelled(11);
    assert_eq!(response.control_code(), protosocket::control::ProtosocketControlCode::Cancel);
    let echoed = messagepack::echo_request(12, messagepack::EchoRequest { message: "x".to_string(), nanotime: 2 });
    assert_eq!(echoed.request_id, 12);
    assert_eq!(echoed.control_code(), protosocket::control::ProtosocketControlCode::Normal);
}

#[test]
fn request_steps_for_each_result() {
    assert_eq!(request_step(10, Ok(4)), RequestStep::Take { length: 4 });
    assert_eq!(request_step(10, Ok(10)), RequestStep::Take { length: 10 });
    assert_eq!(request_step(10, Ok(0)), RequestStep::TakeAndStop { consumed: 0 });
    assert_eq!(request_step(10, Ok(11)), RequestStep::TakeAndStop { consumed: 10 });
    assert_eq!(request_step(10, Err(DeserializeError::IncompleteBuffer { next_message_size: 50 })), RequestStep::Stop);
    assert_eq!(request_step(10, Err(DeserializeError::InvalidMessage)), RequestStep::DiscardAll);
}

#[test]
fn connection_tokens_are_handed_out_in_turn() {
    let mut count = 0usize;
    assert_eq!(protosocket::legacy_server::next_connection_token(&mut count), 0);
    assert_eq!(protosocket::legacy_server::next_connection_token(&mut count), 1);
    assert_eq!(count, 2);
}
