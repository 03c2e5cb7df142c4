use protosocket::codec::{Decoder, DeserializeError, Encoder, MessageReactor, OutboundBuffer, OwnedBuffer, ReactorStatus};
use protosocket::efa::driver::BUFFER_SIZE;
use protosocket::efa::stream::{coalesce, take_write_chunk, StreamReadState};
use protosocket::receive::{pass_step, PassStep, ReadBufferState, ReadOutcome, ReceiveBuffer};
use protosocket::send::{SendBudget, SendQueue, WriteOutcome, WriteStep, MAX_WRITE_BUFFERS};

/// Messages framed as one length byte followed by that many bytes; a
/// length byte of 0xff marks an invalid stream, 0xfe asks to skip 3 bytes.
struct LengthByteDecoder;

impl Decoder for LengthByteDecoder {
    type Message = Vec<u8>;

    fn decode(&mut self, buffer: &[u8]) -> Result<(usize, Vec<u8>), DeserializeError> {
        match buffer.first() {
            None => Err(DeserializeError::IncompleteBuffer { next_message_size: 1 }),
            Some(0xff) => Err(DeserializeError::InvalidBuffer),
            Some(0xfe) => Err(DeserializeError::SkipMessage { distance: 3 }),
            Some(&length) => {
                let total = 1 + length as usize;
                if buffer.len() < total {
                    Err(DeserializeError::IncompleteBuffer { next_message_size: total })
                } else {
                    Ok((total, buffer[1..total].to_vec()))
                }
            }
        }
    }
}

/// A decoder that claims more bytes than it was given.
struct GreedyDecoder;

impl Decoder for GreedyDecoder {
    type Message = ();

    fn decode(&mut self, buffer: &[u8]) -> Result<(usize, ()), DeserializeError> {
        Ok((buffer.len() + 1, ()))
    }
}

#[derive(Default)]
struct Collector {
    received: Vec<Vec<u8>>,
    stop_after: Option<usize>,
}

impl MessageReactor for Collector {
    type Inbound = Vec<u8>;
    type Outbound = Vec<u8>;
    type LogicalOutbound = Vec<u8>;

    fn on_inbound_message(&mut self, message: Vec<u8>) -> ReactorStatus {
        self.received.push(message);
        match self.stop_after {
            Some(limit) if self.received.len() >= limit => ReactorStatus::Disconnect,
            _ => ReactorStatus::Continue,
        }
    }

    fn on_outbound_message(&mut self, message: Vec<u8>) -> Vec<u8> {
        message
    }
}

struct Unit;

impl MessageReactor for Unit {
    type Inbound = ();
    type Outbound = ();
    type LogicalOutbound = ();

    fn on_inbound_message(&mut self, _message: ()) -> ReactorStatus {
        ReactorStatus::Continue
    }

    fn on_outbound_message(&mut self, message: ()) {
        message
    }
}

/// Encodes byte vectors as they are and counts returned buffers.
#[derive(Default)]
struct BytesEncoder {
    returned: usize,
}

impl Encoder for BytesEncoder {
    type Message = Vec<u8>;
    type Serialized = OwnedBuffer;

    fn encode(&mut self, message: Vec<u8>) -> OwnedBuffer {
        OwnedBuffer::new(message)
    }

    fn return_buffer(&mut self, _buffer: OwnedBuffer) {
        self.returned += 1;
    }
}

fn filled(receive: &mut ReceiveBuffer, bytes: &[u8]) {
    let space = receive.prepare_read();
    assert!(bytes.len() <= space);
    let state = receive.complete_read(ReadOutcome::Filled(bytes.to_vec()));
    assert!(matches!(state, ReadBufferState::MoreToRead));
}

fn queued_bytes(queue: &SendQueue<OwnedBuffer>) -> Vec<u8> {
    let mut bytes = Vec::new();
    for index in 0..queue.len() {
        bytes.extend_from_slice(queue.get(index).chunk());
    }
    bytes
}

#[test]
fn receive_buffer_grows_by_one_increment() {
    let mut receive = ReceiveBuffer::new(64, 16);
    assert_eq!(receive.capacity_len(), 0);
    assert_eq!(receive.prepare_read(), 16);
    assert_eq!(receive.capacity_len(), 16);
    // Enough free space: no growth.
    assert_eq!(receive.prepare_read(), 16);
    receive.commit_read(&[1; 10]);
    assert_eq!(receive.unread_len(), 10);
    assert_eq!(receive.prepare_read(), 22);
    assert_eq!(receive.capacity_len(), 32);
}

#[test]
fn receive_buffer_stops_growing_at_its_maximum() {
    let mut receive = ReceiveBuffer::new(20, 16);
    receive.prepare_read();
    receive.commit_read(&[0; 16]);
    assert_eq!(receive.prepare_read(), 16);
    receive.commit_read(&[0; 16]);
    assert_eq!(receive.capacity_len(), 32);
    assert_eq!(receive.prepare_read(), 0);
    assert_eq!(receive.capacity_len(), 32);
}

#[test]
fn read_outcomes_map_to_states() {
    let mut receive = ReceiveBuffer::new(64, 16);
    receive.prepare_read();
    assert!(matches!(receive.complete_read(ReadOutcome::Filled(vec![])), ReadBufferState::Disconnected));
    assert!(matches!(receive.complete_read(ReadOutcome::NotReady), ReadBufferState::Pending));
    let would_block = std::io::Error::from(std::io::ErrorKind::WouldBlock);
    assert!(matches!(receive.complete_read(ReadOutcome::Failed { kind: would_block.kind(), error: would_block }), ReadBufferState::Pending));
    let interrupted = std::io::Error::from(std::io::ErrorKind::Interrupted);
    assert!(matches!(receive.complete_read(ReadOutcome::Failed { kind: interrupted.kind(), error: interrupted }), ReadBufferState::MoreToRead));
    let reset = std::io::Error::from(std::io::ErrorKind::ConnectionReset);
    match receive.complete_read(ReadOutcome::Failed { kind: reset.kind(), error: reset }) {
        ReadBufferState::Error { error, kind } => {
            assert_eq!(error.kind(), std::io::ErrorKind::ConnectionReset);
            assert_eq!(kind, std::io::ErrorKind::ConnectionReset);
        },
        _ => panic!("expected an error"),
    }
    assert_eq!(receive.unread_len(), 0);
    assert!(matches!(receive.complete_read(ReadOutcome::Filled(vec![1, 2])), ReadBufferState::MoreToRead));
    assert_eq!(receive.unread_len(), 2);
}

#[test]
fn decodes_every_whole_message_and_keeps_the_rest() {
    let mut receive = ReceiveBuffer::new(64, 32);
    filled(&mut receive, &[2, 10, 11, 1, 12, 3, 13]);
    let mut reactor = Collector::default();
    let state = receive.read_inbound_messages_and_react(&mut LengthByteDecoder, &mut reactor);
    assert!(matches!(state, ReadBufferState::Pending));
    assert_eq!(reactor.received, vec![vec![10, 11], vec![12]]);
    assert_eq!(receive.unread_len(), 2);
    // The rest of the partial message arrives.
    filled(&mut receive, &[14, 15]);
    let state = receive.read_inbound_messages_and_react(&mut LengthByteDecoder, &mut reactor);
    assert!(matches!(state, ReadBufferState::Pending));
    assert_eq!(reactor.received, vec![vec![10, 11], vec![12], vec![13, 14, 15]]);
    assert_eq!(receive.unread_len(), 0);
}

#[test]
fn oversized_message_disconnects() {
    let mut receive = ReceiveBuffer::new(8, 16);
    filled(&mut receive, &[20, 1, 2]);
    let mut reactor = Collector::default();
    let state = receive.read_inbound_messages_and_react(&mut LengthByteDecoder, &mut reactor);
    assert!(matches!(state, ReadBufferState::Disconnected));
    assert!(reactor.received.is_empty());
}

#[test]
fn invalid_message_disconnects() {
    let mut receive = ReceiveBuffer::new(64, 16);
    filled(&mut receive, &[1, 5, 0xff]);
    let mut reactor = Collector::default();
    let state = receive.read_inbound_messages_and_react(&mut LengthByteDecoder, &mut reactor);
    assert!(matches!(state, ReadBufferState::Disconnected));
    assert_eq!(reactor.received, vec![vec![5]]);
}

#[test]
fn reactor_can_disconnect() {
    let mut receive = ReceiveBuffer::new(64, 16);
    filled(&mut receive, &[1, 5, 1, 6]);
    let mut reactor = Collector { received: Vec::new(), stop_after: Some(1) };
    let state = receive.read_inbound_messages_and_react(&mut LengthByteDecoder, &mut reactor);
    assert!(matches!(state, ReadBufferState::Disconnected));
    assert_eq!(reactor.received, vec![vec![5]]);
}

#[test]
fn skips_when_the_bytes_are_here() {
    let mut receive = ReceiveBuffer::new(64, 16);
    filled(&mut receive, &[0xfe, 9, 9, 1, 7]);
    let mut reactor = Collector::default();
    let state = receive.read_inbound_messages_and_react(&mut LengthByteDecoder, &mut reactor);
    assert!(matches!(state, ReadBufferState::Pending));
    assert_eq!(reactor.received, vec![vec![7]]);
    assert_eq!(receive.unread_len(), 0);

    filled(&mut receive, &[0xfe, 9]);
    let state = receive.read_inbound_messages_and_react(&mut LengthByteDecoder, &mut reactor);
    assert!(matches!(state, ReadBufferState::Pending));
    assert_eq!(receive.unread_len(), 2);
}

#[test]
fn decoder_overrun_fails_the_connection() {
    let mut receive = ReceiveBuffer::new(64, 16);
    filled(&mut receive, &[1, 2, 3]);
    match receive.read_inbound_messages_and_react(&mut GreedyDecoder, &mut Unit) {
        ReadBufferState::Error { error, kind } => {
            assert_eq!(error.kind(), std::io::ErrorKind::InvalidData);
            assert_eq!(kind, std::io::ErrorKind::InvalidData);
        },
        _ => panic!("expected an error"),
    }
}

#[test]
fn consume_moves_the_rest_to_the_front() {
    let mut receive = ReceiveBuffer::new(64, 16);
    filled(&mut receive, &[1, 2, 3, 4, 5]);
    receive.consume(2);
    assert_eq!(receive.unread_len(), 3);
    let mut reactor = Collector::default();
    receive.read_inbound_messages_and_react(&mut LengthByteDecoder, &mut reactor);
    // [3, 4, 5]: a length of 3 with only two bytes after it.
    assert!(reactor.received.is_empty());
    receive.consume(3);
    assert_eq!(receive.unread_len(), 0);
}

#[test]
fn partial_write_advances_the_front_buffer() {
    let mut queue: SendQueue<OwnedBuffer> = SendQueue::new();
    let mut encoder = BytesEncoder::default();
    queue.push_back(OwnedBuffer::new(vec![1, 2, 3]));
    queue.push_back(OwnedBuffer::new(vec![4, 5]));
    queue.push_back(OwnedBuffer::new(vec![6]));
    assert_eq!(queue.advance_send_buffers(&mut encoder, 4), 0);
    assert_eq!(queue.len(), 2);
    assert_eq!(encoder.returned, 1);
    assert_eq!(queued_bytes(&queue), vec![5, 6]);
    assert_eq!(queue.get(0).remaining(), 1);
    assert_eq!(queue.advance_send_buffers(&mut encoder, 0), 0);
    assert_eq!(queued_bytes(&queue), vec![5, 6]);
    assert_eq!(queue.advance_send_buffers(&mut encoder, 2), 0);
    assert!(queue.is_empty());
    assert_eq!(encoder.returned, 3);
}

#[test]
fn overlong_write_reports_the_excess() {
    let mut queue: SendQueue<OwnedBuffer> = SendQueue::new();
    let mut encoder = BytesEncoder::default();
    queue.push_back(OwnedBuffer::new(vec![1, 2]));
    assert_eq!(queue.advance_send_buffers(&mut encoder, 5), 3);
    assert!(queue.is_empty());
}

#[test]
fn serializes_pending_messages_up_to_the_limit() {
    let mut queue: SendQueue<OwnedBuffer> = SendQueue::new();
    let mut encoder = BytesEncoder::default();
    let mut pending = vec![vec![3], vec![2], vec![1]];
    assert_eq!(queue.serialize_outbound_messages(&mut encoder, &mut pending, 2), 2);
    assert_eq!(pending, vec![vec![3]]);
    assert_eq!(queued_bytes(&queue), vec![1, 2]);
    assert_eq!(queue.serialize_outbound_messages(&mut encoder, &mut pending, 2), 0);
    assert_eq!(queue.serialize_outbound_messages(&mut encoder, &mut pending, 10), 1);
    assert!(pending.is_empty());
    assert_eq!(queued_bytes(&queue), vec![1, 2, 3]);
    assert_eq!(queue.serialize_outbound_messages(&mut encoder, &mut pending, 10), 0);
}

#[test]
fn send_budget_admits_the_room_left() {
    assert_eq!(SendBudget::new(4, 1).remaining(), 3);
    assert_eq!(SendBudget::new(4, 9).remaining(), 0);
    let mut queue: SendQueue<OwnedBuffer> = SendQueue::new();
    let mut encoder = BytesEncoder::default();
    let mut budget = SendBudget::new(1, 0);
    let permit = budget.reserve().expect("room for one");
    permit.send(&mut encoder, &mut queue, vec![8, 9]);
    assert_eq!(budget.remaining(), 0);
    assert!(budget.reserve().is_none());
    assert_eq!(queued_bytes(&queue), vec![8, 9]);
}

#[test]
fn dropped_permit_keeps_its_capacity() {
    let mut budget = SendBudget::new(2, 0);
    {
        let _permit = budget.reserve().expect("room");
    }
    assert_eq!(budget.remaining(), 2);
}

#[test]
fn owned_buffer_advances_its_cursor() {
    let mut buffer = OwnedBuffer::new(vec![1, 2, 3, 4]);
    assert_eq!(buffer.remaining(), 4);
    buffer.advance(3);
    assert_eq!(buffer.remaining(), 1);
    assert_eq!(buffer.chunk(), &[4]);
    buffer.advance(1);
    assert_eq!(buffer.remaining(), 0);
    assert!(buffer.chunk().is_empty());
}

#[test]
fn stream_reads_hand_out_chunks_in_order() {
    let mut state = StreamReadState::new();
    assert!(!state.has_buffered());
    assert!(!state.accept_chunk(Vec::new()));
    assert!(state.accept_chunk(vec![1, 2, 3, 4, 5]));
    let mut destination = [0u8; 2];
    assert_eq!(state.read_into(&mut destination), 2);
    assert_eq!(destination, [1, 2]);
    let mut destination = [9u8; 5];
    assert_eq!(state.read_into(&mut destination), 3);
    assert_eq!(destination, [3, 4, 5, 9, 9]);
    assert!(!state.has_buffered());
    assert_eq!(state.read_into(&mut destination), 0);
    assert_eq!(destination, [3, 4, 5, 9, 9]);
}

#[test]
fn writes_are_cut_at_one_buffer() {
    let small = take_write_chunk(&[1, 2, 3]);
    assert_eq!(small, vec![1, 2, 3]);
    let big = vec![7u8; BUFFER_SIZE + 10];
    assert_eq!(take_write_chunk(&big).len(), BUFFER_SIZE);
}

#[test]
fn vectored_writes_coalesce_in_order() {
    let first = [1u8, 2];
    let second: [u8; 0] = [];
    let third = [3u8, 4, 5];
    assert_eq!(coalesce(&[&first[..], &second[..], &third[..]]), vec![1, 2, 3, 4, 5]);
    assert!(coalesce(&[] as &[&[u8]]).is_empty());
    let big = vec![1u8; BUFFER_SIZE - 1];
    let chunk = coalesce(&[&big[..], &third[..]]);
    assert_eq!(chunk.len(), BUFFER_SIZE);
    assert_eq!(chunk[BUFFER_SIZE - 1], 3);
}

#[test]
fn pass_steps_for_each_decode_result() {
    assert_eq!(pass_step(10, 100, Ok(4)), PassStep::Deliver { length: 4 });
    assert_eq!(pass_step(10, 100, Ok(0)), PassStep::Deliver { length: 0 });
    assert_eq!(pass_step(10, 100, Err(DeserializeError::IncompleteBuffer { next_message_size: 100 })), PassStep::Wait);
    assert_eq!(
        pass_step(10, 100, Err(DeserializeError::IncompleteBuffer { next_message_size: 101 })),
        PassStep::Disconnect
    );
    assert_eq!(pass_step(10, 100, Err(DeserializeError::InvalidBuffer)), PassStep::Disconnect);
    assert_eq!(pass_step(10, 100, Err(DeserializeError::SkipMessage { distance: 10 })), PassStep::Skip { distance: 10 });
    assert_eq!(pass_step(10, 100, Err(DeserializeError::SkipMessage { distance: 11 })), PassStep::Wait);
    assert_eq!(pass_step(10, 100, Err(DeserializeError::SkipMessage { distance: 0 })), PassStep::Skip { distance: 0 });
}

#[test]
fn write_chunks_offer_the_front_of_each_buffer() {
    let mut queue: SendQueue<OwnedBuffer> = SendQueue::new();
    let mut encoder = BytesEncoder::default();
    assert!(queue.write_chunks().is_empty());
    queue.push_back(OwnedBuffer::new(vec![1, 2, 3]));
    queue.push_back(OwnedBuffer::new(vec![4]));
    queue.advance_send_buffers(&mut encoder, 1);
    let chunks = queue.write_chunks();
    assert_eq!(chunks, vec![&[2u8, 3][..], &[4u8][..]]);
    let mut many: SendQueue<OwnedBuffer> = SendQueue::new();
    for i in 0..(MAX_WRITE_BUFFERS + 3) {
        many.push_back(OwnedBuffer::new(vec![i as u8]));
    }
    assert_eq!(many.write_chunks().len(), MAX_WRITE_BUFFERS);
}

#[test]
fn write_outcomes_map_to_steps() {
    let mut queue: SendQueue<OwnedBuffer> = SendQueue::new();
    let mut encoder = BytesEncoder::default();
    queue.push_back(OwnedBuffer::new(vec![1, 2, 3]));
    assert!(matches!(queue.complete_write(&mut encoder, WriteOutcome::NotReady), WriteStep::Idle));
    assert!(matches!(queue.complete_write(&mut encoder, WriteOutcome::Written(0)), WriteStep::Closed));
    assert_eq!(queued_bytes(&queue), vec![1, 2, 3]);
    assert!(matches!(queue.complete_write(&mut encoder, WriteOutcome::Written(2)), WriteStep::Continue));
    assert_eq!(queued_bytes(&queue), vec![3]);
    let would_block = std::io::Error::from(std::io::ErrorKind::WouldBlock);
    assert!(matches!(queue.complete_write(&mut encoder, WriteOutcome::Failed { kind: would_block.kind(), error: would_block }), WriteStep::Continue));
    let interrupted = std::io::Error::from(std::io::ErrorKind::Interrupted);
    assert!(matches!(queue.complete_write(&mut encoder, WriteOutcome::Failed { kind: interrupted.kind(), error: interrupted }), WriteStep::Continue));
    let broken = std::io::Error::from(std::io::ErrorKind::BrokenPipe);
    match queue.complete_write(&mut encoder, WriteOutcome::Failed { kind: broken.kind(), error: broken }) {
        WriteStep::Failed(error) => assert_eq!(error.kind(), std::io::ErrorKind::BrokenPipe),
        other => panic!("unexpected {other:?}"),
    }
    assert_eq!(queued_bytes(&queue), vec![3]);
}

/// A decoder that reports a message of no bytes.
struct EmptyMessageDecoder;

impl Decoder for EmptyMessageDecoder {
    type Message = ();

    fn decode(&mut self, _buffer: &[u8]) -> Result<(usize, ()), DeserializeError> {
        Ok((0, ()))
    }
}

/// A decoder that asks to skip no bytes.
struct StandStillDecoder;

impl Decoder for StandStillDecoder {
    type Message = ();

    fn decode(&mut self, _buffer: &[u8]) -> Result<(usize, ()), DeserializeError> {
        Err(DeserializeError::SkipMessage { distance: 0 })
    }
}

#[test]
fn empty_message_ends_the_pass_to_decode_again() {
    let mut receive = ReceiveBuffer::new(64, 16);
    filled(&mut receive, &[1, 2, 3]);
    let state = receive.read_inbound_messages_and_react(&mut EmptyMessageDecoder, &mut Unit);
    assert!(matches!(state, ReadBufferState::MoreToRead));
    assert_eq!(receive.unread_len(), 3);
}

#[test]
fn skip_of_nothing_ends_the_pass_to_decode_again() {
    let mut receive = ReceiveBuffer::new(64, 16);
    filled(&mut receive, &[0xfe, 9, 9, 1, 7]);
    let mut reactor = Collector::default();
    let state = receive.read_inbound_messages_and_react(&mut LengthByteDecoder, &mut reactor);
    assert!(matches!(state, ReadBufferState::Pending));
    filled(&mut receive, &[4, 5]);
    let state = receive.read_inbound_messages_and_react(&mut StandStillDecoder, &mut Unit);
    assert!(matches!(state, ReadBufferState::MoreToRead));
    assert_eq!(receive.unread_len(), 2);
}

#[test]
fn a_full_buffer_decodes_before_reading() {
    let mut receive = ReceiveBuffer::new(16, 16);
    assert_eq!(receive.begin_read().ok(), Some(16));
    receive.commit_read(&[0; 16]);
    match receive.begin_read() {
        Err(ReadBufferState::MoreToRead) => {},
        other => panic!("expected MoreToRead, got {:?}", other.map_err(|state| format!("{state:?}"))),
    }
    assert_eq!(receive.capacity_len(), 16);
}

#[test]
fn written_buffers_go_back_to_the_encoder() {
    let mut queue: SendQueue<OwnedBuffer> = SendQueue::new();
    let mut encoder = BytesEncoder::default();
    queue.push_back(OwnedBuffer::new(vec![1, 2]));
    queue.push_back(OwnedBuffer::new(vec![3]));
    queue.push_back(OwnedBuffer::new(vec![4, 5]));
    queue.advance_send_buffers(&mut encoder, 4);
    assert_eq!(encoder.returned, 2);
    assert_eq!(queued_bytes(&queue), vec![5]);
}

#[test]
fn successive_reads_hand_out_received_bytes_in_order() {
    let mut state = StreamReadState::new();
    let mut out = Vec::new();
    for chunk in [vec![1u8, 2, 3, 4, 5], vec![6u8, 7]] {
        assert!(state.accept_chunk(chunk));
        while state.has_buffered() {
            let mut destination = [0u8; 2];
            let count = state.read_into(&mut destination);
            assert!(count >= 1);
            out.extend_from_slice(&destination[..count]);
        }
    }
    assert_eq!(out, vec![1, 2, 3, 4, 5, 6, 7]);
}
