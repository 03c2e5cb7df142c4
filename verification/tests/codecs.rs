use std::sync::atomic::{AtomicUsize, Ordering};
use std::sync::Arc;

use protosocket::client::ClientSettings;
use protosocket::codec::{DeserializeError, Encoder, OutboundBuffer, Serialize};
use protosocket::control::ProtosocketControlCode;
use protosocket::legacy_prost::ProtocolBufferSocket;
use protosocket::legacy_server;
use protosocket::level::{
    balance_workers, less_loaded, thread_name_prefix_of, worker_thread_name, Concurrency, ConcurrencyTracker,
};
use protosocket::listener::listen_backlog;
use protosocket::messagepack::MessagePackSerializer;
use protosocket::pooled::{PooledEncoder, DEFAULT_POOL_SIZE};
use protosocket::prost_codec::{check_frame, ProstDecoder, ProstSerializer};
use protosocket::text::{append_decimal, with_decimal};

/// A serializer that writes the bytes it is given.
struct RawBytes;

impl Serialize for RawBytes {
    type Message = Vec<u8>;

    fn serialize_into_buffer(&mut self, message: Vec<u8>, buffer: &mut Vec<u8>) {
        buffer.extend_from_slice(&message);
    }
}

struct Worker {
    load: usize,
    name: &'static str,
}

impl Concurrency for Worker {
    fn concurrency(&self) -> usize {
        self.load
    }
}

#[test]
fn prost_serializer_writes_a_length_delimited_message() {
    let mut buffer = vec![0xaa];
    ProstSerializer::<String>::new().serialize_into_buffer("hi".to_string(), &mut buffer);
    assert_eq!(buffer, vec![0xaa, 4, 0x0a, 2, b'h', b'i']);
}

#[test]
fn prost_decoder_reads_back_what_was_written() {
    let mut buffer = Vec::new();
    ProstSerializer::<String>::new().serialize_into_buffer("hello".to_string(), &mut buffer);
    buffer.extend_from_slice(&[9, 9]);
    let (length, message) = ProstDecoder::<String>::new().decode(&buffer).expect("a whole frame");
    assert_eq!(length, 8);
    assert_eq!(message, "hello");
}

#[test]
fn prost_decoder_waits_for_the_whole_frame() {
    let mut decoder = ProstDecoder::<String>::new();
    assert_eq!(
        decoder.decode(&[4, 0x0a, 2]).unwrap_err(),
        DeserializeError::IncompleteBuffer { next_message_size: 5 }
    );
    assert_eq!(decoder.decode(&[]).unwrap_err(), DeserializeError::IncompleteBuffer { next_message_size: 10 });
    assert_eq!(decoder.decode(&[0x80]).unwrap_err(), DeserializeError::IncompleteBuffer { next_message_size: 10 });
    assert_eq!(
        decoder.decode(&[0x80, 0x01]).unwrap_err(),
        DeserializeError::IncompleteBuffer { next_message_size: 130 }
    );
}

#[test]
fn prost_decoder_rejects_a_bad_message() {
    let mut decoder = ProstDecoder::<String>::new();
    assert_eq!(decoder.decode(&[2, 0xff, 0xff]).unwrap_err(), DeserializeError::InvalidBuffer);
}

#[test]
fn prost_decoder_reads_an_empty_message() {
    let (length, message) = ProstDecoder::<String>::new().decode(&[0]).unwrap();
    assert_eq!(length, 1);
    assert_eq!(message, "");
}

#[test]
fn frame_check_asks_for_the_whole_frame() {
    assert_eq!(check_frame(3, None), Err(DeserializeError::IncompleteBuffer { next_message_size: 10 }));
    assert_eq!(check_frame(3, Some(4)), Err(DeserializeError::IncompleteBuffer { next_message_size: 5 }));
    assert_eq!(check_frame(5, Some(4)), Ok(5));
    assert_eq!(check_frame(500, Some(200)), Ok(202));
    assert_eq!(check_frame(100, Some(200)), Err(DeserializeError::IncompleteBuffer { next_message_size: 202 }));
    assert_eq!(
        check_frame(100, Some(usize::MAX)),
        Err(DeserializeError::IncompleteBuffer { next_message_size: usize::MAX })
    );
}

#[test]
fn messagepack_frames_behind_a_u32_header() {
    let mut buffer = Vec::new();
    MessagePackSerializer::<String>::new().serialize_into_buffer("hi".to_string(), &mut buffer);
    assert_eq!(buffer, vec![0xce, 0, 0, 0, 3, 0xa2, b'h', b'i']);
}

#[test]
fn messagepack_header_covers_the_whole_buffer() {
    let mut buffer = vec![1, 2];
    MessagePackSerializer::<u8>::new().serialize_into_buffer(7, &mut buffer);
    // Five placeholder bytes and the fixint 7 follow the two bytes; the
    // header over the first five bytes announces the length less five.
    assert_eq!(buffer, vec![0xce, 0, 0, 0, 3, 0, 0, 7]);
}

#[test]
fn messagepack_header_is_big_endian() {
    let mut buffer = vec![0u8; 5 + 0x0102];
    MessagePackSerializer::<u8>::write_header(&mut buffer);
    assert_eq!(&buffer[..5], &[0xce, 0, 0, 1, 2]);
    assert_eq!(buffer.len(), 5 + 0x0102);
}

#[test]
fn legacy_prost_decodes_a_request() {
    let (mut socket, mut serializer, _) =
        ProtocolBufferSocket::<u32, String, String, ()>::on_connect(&7u32);
    assert_eq!(*socket.server_state(), 7);
    *socket.server_state() = 8;
    assert_eq!(*socket.server_state(), 8);
    let mut buffer = Vec::new();
    serializer.encode("ok".to_string(), &mut buffer);
    assert_eq!(buffer, vec![4, 0x0a, 2, b'o', b'k']);
    let (length, request) = serializer.decode(&buffer).unwrap();
    assert_eq!(length, 5);
    assert_eq!(request, "ok");
    assert_eq!(serializer.decode(&[]).unwrap_err(), legacy_server::DeserializeError::InvalidMessage);
}

#[test]
fn pooled_encoder_hands_out_what_the_serializer_wrote() {
    let mut encoder = PooledEncoder::new(RawBytes);
    let mut first = encoder.encode(vec![1, 2, 3]);
    assert_eq!(first.as_slice(), &[1, 2, 3]);
    assert!(first.has_remaining());
    first.advance(2);
    assert_eq!(first.chunk(), &[3]);
    first.advance(1);
    assert!(!first.has_remaining());
    drop(first);
    // The next message starts from an empty vector, pooled or not.
    let second = encoder.encode(vec![4]);
    assert_eq!(second.as_slice(), &[4]);
    assert_eq!(second.remaining(), 1);
    let mut sized = PooledEncoder::new_with_pool_size(1, RawBytes);
    let third = sized.encode(vec![5, 6]);
    assert_eq!(third.as_slice(), &[5, 6]);
    assert_eq!(DEFAULT_POOL_SIZE, 8);
}

#[test]
fn control_codes_round_trip() {
    for code in [ProtosocketControlCode::Normal, ProtosocketControlCode::Cancel, ProtosocketControlCode::End] {
        assert_eq!(ProtosocketControlCode::from_u8(code.as_u8()), code);
    }
    assert_eq!(ProtosocketControlCode::Normal.as_u8(), 0);
    assert_eq!(ProtosocketControlCode::Cancel.as_u8(), 1);
    assert_eq!(ProtosocketControlCode::End.as_u8(), 2);
    assert_eq!(ProtosocketControlCode::from_u8(3), ProtosocketControlCode::Cancel);
    assert_eq!(ProtosocketControlCode::from_u8(255), ProtosocketControlCode::Cancel);
}

#[test]
fn decimal_rendering() {
    assert_eq!(with_decimal("n=", 0), "n=0");
    assert_eq!(with_decimal("", 1234567890), "1234567890");
    assert_eq!(with_decimal("max ", u64::MAX), "max 18446744073709551615");
    let mut s = String::from("x");
    append_decimal(&mut s, 40);
    assert_eq!(s, "x40");
}

#[test]
fn listen_backlog_is_capped() {
    assert_eq!(listen_backlog(1024), 1024);
    assert_eq!(listen_backlog(0), 0);
    assert_eq!(listen_backlog(u32::MAX), i32::MAX);
    assert_eq!(listen_backlog(2147483648), i32::MAX);
}

#[test]
fn the_less_loaded_worker_wins() {
    assert_eq!(less_loaded(0, 1, 1, 5), 0);
    assert_eq!(less_loaded(0, 5, 1, 1), 1);
    assert_eq!(less_loaded(0, 3, 1, 3), 1);
}

#[test]
fn balance_picks_one_of_the_workers() {
    let workers = [Worker { load: 0, name: "a" }, Worker { load: 9, name: "b" }];
    for _ in 0..20 {
        let chosen = balance_workers(&workers[..]);
        assert!(chosen.name == "a" || chosen.name == "b");
    }
    let single = [Worker { load: 3, name: "only" }];
    assert_eq!(balance_workers(&single[..]).name, "only");
}

#[test]
fn tracker_counts_while_alive() {
    let count = Arc::new(AtomicUsize::new(0));
    let mut tracker = ConcurrencyTracker::wrap(count.clone(), 5u32);
    assert_eq!(count.load(Ordering::Relaxed), 1);
    *tracker.future_mut() += 1;
    assert_eq!(*tracker.future_mut(), 6);
    let second = ConcurrencyTracker::wrap(count.clone(), 0u32);
    assert_eq!(count.load(Ordering::Relaxed), 2);
    drop(tracker);
    assert_eq!(count.load(Ordering::Relaxed), 1);
    drop(second);
    assert_eq!(count.load(Ordering::Relaxed), 0);
}

#[test]
fn poll_backoff_adapts_within_bounds() {
    let mut backoff = legacy_server::PollBackoff::new();
    assert_eq!(backoff.nanos(), 200_000_000);
    backoff.increase_poll_rate();
    assert_eq!(backoff.nanos(), 100_000_000);
    for _ in 0..40 {
        backoff.increase_poll_rate();
    }
    assert_eq!(backoff.nanos(), 1_000_000);
    backoff.decrease_poll_rate();
    assert_eq!(backoff.nanos(), 11_000_000);
    for _ in 0..200 {
        backoff.decrease_poll_rate();
    }
    assert_eq!(backoff.nanos(), 1_000_000_000);
}

#[test]
fn thread_names() {
    assert_eq!(thread_name_prefix_of("abcdefghijklmnop"), "abcdefghijkl");
    assert_eq!(thread_name_prefix_of("server"), "server");
    assert_eq!(thread_name_prefix_of("exactly12chr"), "exactly12chr");
    assert_eq!(worker_thread_name("level", 3), "level-03");
    assert_eq!(worker_thread_name("level", 12), "level-12");
    assert_eq!(worker_thread_name("w", 100), "w-100");
    assert_eq!(worker_thread_name("", 0), "-00");
}

#[test]
fn client_settings_defaults_and_setters() {
    let mut settings = ClientSettings::new();
    assert_eq!(settings.max_buffer_length, 4 * (1 << 20));
    assert_eq!(settings.buffer_allocation_increment, 1 << 20);
    assert_eq!(settings.max_queued_outbound_messages, 256);
    settings.set_max_read_buffer_length(1024);
    settings.set_max_queued_outbound_messages(3);
    assert_eq!(
        settings,
        ClientSettings { max_buffer_length: 1024, buffer_allocation_increment: 1 << 20, max_queued_outbound_messages: 3 }
    );
}

#[test]
fn prost_decoder_counts_the_delimiter_and_the_message() {
    let mut decoder = ProstDecoder::<u32>::new();
    assert_eq!(decoder.decode(&[0x02, 0x08, 0x05, 0x07]), Ok((3, 5u32)));
}

#[test]
fn prost_decoder_counts_a_long_delimiter_as_written() {
    // The delimiter 2 written in two bytes: the count covers both.
    let mut decoder = ProstDecoder::<u32>::new();
    assert_eq!(decoder.decode(&[0x82, 0x00, 0x08, 0x05]), Ok((4, 5u32)));
}

#[test]
fn messagepack_frame_is_finished_or_cut_back() {
    let mut buffer = vec![9, 0, 0, 0, 0, 0, 0xa1, b'x'];
    MessagePackSerializer::<String>::finish_frame(&mut buffer, 1, false);
    assert_eq!(buffer, vec![9]);
    let mut buffer = vec![0, 0, 0, 0, 0, 0xa1, b'x'];
    MessagePackSerializer::<String>::finish_frame(&mut buffer, 0, true);
    assert_eq!(buffer, vec![0xce, 0, 0, 0, 2, 0xa1, b'x']);
}

#[test]
fn prost_frame_round_trips_whatever_follows() {
    let mut buffer = Vec::new();
    ProstSerializer::<u32>::new().serialize_into_buffer(300u32, &mut buffer);
    let frame_len = buffer.len();
    assert_eq!(frame_len, 4);
    buffer.extend_from_slice(&[0xff, 0x01]);
    assert_eq!(ProstDecoder::<u32>::new().decode(&buffer), Ok((frame_len, 300u32)));
}

#[test]
fn prost_decoder_rejects_an_overlong_delimiter_as_incomplete() {
    let mut decoder = ProstDecoder::<u32>::new();
    assert_eq!(
        decoder.decode(&[0xff; 11]),
        Err(DeserializeError::IncompleteBuffer { next_message_size: 10 })
    );
}
