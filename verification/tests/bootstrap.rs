use protosocket::efa::bootstrap::{decode_header, encode_hello, HEADER_LEN, MAX_ADDR_LEN, PROTOCOL_VERSION};
use protosocket::efa::error::{check, EfaError};
use protosocket::efa::provider::Provider;

fn bootstrap_message(result: Result<usize, EfaError>) -> String {
    match result {
        Err(EfaError::Bootstrap(message)) => message,
        other => panic!("expected a bootstrap error, got {other:?}"),
    }
}

#[test]
fn header_round_trips() {
    let address = vec![1u8, 2, 3, 4, 5, 6, 7, 8];
    let frame = encode_hello(&address);
    let addr_len = decode_header(&frame[..HEADER_LEN]).expect("valid header");
    assert_eq!(addr_len, address.len());
    assert_eq!(&frame[HEADER_LEN..], &address[..]);
}

#[test]
fn rejects_bad_magic() {
    let mut frame = encode_hello(&[9, 9, 9]);
    frame[0] = b'X';
    assert!(decode_header(&frame[..HEADER_LEN]).is_err());
}

#[test]
fn rejects_bad_version() {
    let mut frame = encode_hello(&[9, 9, 9]);
    frame[4] = 99;
    assert!(decode_header(&frame[..HEADER_LEN]).is_err());
}

#[test]
fn rejects_zero_and_oversized_length() {
    let zero = {
        let mut f = encode_hello(&[1]);
        f[5..9].copy_from_slice(&0u32.to_le_bytes());
        f
    };
    assert!(decode_header(&zero[..HEADER_LEN]).is_err());

    let huge = {
        let mut f = encode_hello(&[1]);
        f[5..9].copy_from_slice(&(MAX_ADDR_LEN as u32 + 1).to_le_bytes());
        f
    };
    assert!(decode_header(&huge[..HEADER_LEN]).is_err());
}

#[test]
fn rejects_short_header() {
    assert!(decode_header(&[0u8; HEADER_LEN - 1]).is_err());
}

#[test]
fn efa_is_named_efa() {
    assert_eq!(Provider::Efa.prov_name(), "efa");
}

#[test]
fn hello_frame_layout() {
    let frame = encode_hello(&[0xaa, 0xbb, 0xcc]);
    assert_eq!(frame, vec![b'P', b'S', b'E', b'F', PROTOCOL_VERSION, 3, 0, 0, 0, 0xaa, 0xbb, 0xcc]);
    let empty = encode_hello(&[]);
    assert_eq!(empty, vec![b'P', b'S', b'E', b'F', 1, 0, 0, 0, 0]);
}

#[test]
fn hello_length_is_little_endian() {
    let address = vec![7u8; 300];
    let frame = encode_hello(&address);
    assert_eq!(&frame[5..9], &[44, 1, 0, 0]);
    assert_eq!(decode_header(&frame[..HEADER_LEN]).unwrap(), 300);
    assert_eq!(frame.len(), HEADER_LEN + 300);
}

#[test]
fn header_round_trips_at_the_largest_address() {
    let address = vec![5u8; MAX_ADDR_LEN];
    let frame = encode_hello(&address);
    assert_eq!(decode_header(&frame[..HEADER_LEN]).unwrap(), MAX_ADDR_LEN);
    assert_eq!(&frame[HEADER_LEN..], &address[..]);
}

#[test]
fn decode_header_ignores_bytes_after_the_header() {
    let frame = encode_hello(&[1, 2]);
    assert_eq!(decode_header(&frame).unwrap(), 2);
}

#[test]
fn header_error_messages() {
    assert_eq!(bootstrap_message(decode_header(&[0u8; 3])), "handshake header too short");
    let mut frame = encode_hello(&[9]);
    frame[3] = b'G';
    assert_eq!(bootstrap_message(decode_header(&frame)), "handshake magic mismatch");
    let mut frame = encode_hello(&[9]);
    frame[4] = 99;
    assert_eq!(bootstrap_message(decode_header(&frame)), "unsupported handshake version 99");
    let mut frame = encode_hello(&[9]);
    frame[4] = 0;
    assert_eq!(bootstrap_message(decode_header(&frame)), "unsupported handshake version 0");
    let mut frame = encode_hello(&[9]);
    frame[5..9].copy_from_slice(&0u32.to_le_bytes());
    assert_eq!(bootstrap_message(decode_header(&frame)), "implausible fabric address length 0");
    let mut frame = encode_hello(&[9]);
    frame[5..9].copy_from_slice(&4097u32.to_le_bytes());
    assert_eq!(bootstrap_message(decode_header(&frame)), "implausible fabric address length 4097");
    let mut frame = encode_hello(&[9]);
    frame[5..9].copy_from_slice(&u32::MAX.to_le_bytes());
    assert_eq!(bootstrap_message(decode_header(&frame)), "implausible fabric address length 4294967295");
}

#[test]
fn provider_names() {
    assert_eq!(Provider::Tcp.prov_name(), "tcp");
    assert_eq!(Provider::Udp.prov_name(), "udp");
    assert_eq!(Provider::Verbs.prov_name(), "verbs");
    assert_eq!(Provider::Shm.prov_name(), "shm");
}

#[test]
fn libfabric_errors_carry_the_positive_code() {
    match EfaError::libfabric("fi_getinfo", -61, "No data available".to_string()) {
        EfaError::Libfabric { call, code, message } => {
            assert_eq!(call, "fi_getinfo");
            assert_eq!(code, 61);
            assert_eq!(message, "No data available");
        }
        other => panic!("unexpected {other:?}"),
    }
}

#[test]
fn check_splits_counts_from_error_codes() {
    assert_eq!(check(0), Ok(0));
    assert_eq!(check(17), Ok(17));
    assert_eq!(check(-11), Err(11));
    assert_eq!(check(i32::MAX), Ok(i32::MAX));
    assert_eq!(check(-i32::MAX), Err(i32::MAX));
}
