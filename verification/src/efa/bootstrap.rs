//! The TCP side-channel format used to bootstrap a fabric connection.
//!
//! Reliable-datagram endpoints have no `connect`/`accept`: before two peers can
//! exchange fabric messages each must learn the other's raw fabric address.
//! That exchange happens over an ordinary TCP connection. Each side sends one
//! frame:
//!
//! ```text
//! magic:    4 bytes  b"PSEF"
//! version:  1 byte   PROTOCOL_VERSION
//! addr_len: 4 bytes  little-endian u32
//! addr:     addr_len bytes
//! ```

use vstd::prelude::*;

use super::error::EfaError;
use crate::text::{decimal_chars, with_decimal};

verus! {

/// The handshake protocol version this side speaks.
pub const PROTOCOL_VERSION: u8 = 1;
/// Bytes in the fixed header: magic, version, address length.
pub const HEADER_LEN: usize = 9;
/// Largest address length accepted from a peer.
pub const MAX_ADDR_LEN: usize = 4096;

/// The four magic bytes `b"PSEF"` that open every frame.
pub open spec fn magic() -> Seq<u8> {
    seq![0x50u8, 0x53u8, 0x45u8, 0x46u8]
}

/// The little-endian encoding of a 32-bit value.
pub open spec fn le_u32_bytes(v: u32) -> Seq<u8> {
    seq![(v % 256) as u8, ((v / 256) % 256) as u8, ((v / 65536) % 256) as u8, (v / 16777216) as u8]
}

/// The hello frame announcing `address`: header, then the address bytes.
/// The length field holds the address length taken modulo 2^32.
pub open spec fn hello_frame(address: Seq<u8>) -> Seq<u8> {
    magic().push(PROTOCOL_VERSION) + le_u32_bytes(address.len() as u32) + address
}

/// The address length announced by a header (bytes 5..9, little endian).
pub open spec fn announced_length(header: Seq<u8>) -> nat {
    header[5] as nat + 256 * (header[6] as nat) + 65536 * (header[7] as nat)
        + 16777216 * (header[8] as nat)
}

/// What reading a header yields: the announced address length, or the
/// message of the error that rejects it.
pub open spec fn header_outcome(header: Seq<u8>) -> Result<nat, Seq<char>> {
    if header.len() < HEADER_LEN {
        Err("handshake header too short"@)
    } else if header.subrange(0, 4) != magic() {
        Err("handshake magic mismatch"@)
    } else if header[4] != PROTOCOL_VERSION {
        Err("unsupported handshake version "@ + decimal_chars(header[4] as nat))
    } else if announced_length(header) == 0 || announced_length(header) > MAX_ADDR_LEN {
        Err("implausible fabric address length "@ + decimal_chars(announced_length(header)))
    } else {
        Ok(announced_length(header))
    }
}

/// Encode a `hello` frame announcing our raw fabric `address`.
pub fn encode_hello(address: &[u8]) -> (frame: Vec<u8>)
    ensures
        frame@ == hello_frame(address@),
{
    let mut frame: Vec<u8> = Vec::new();
    frame.push(0x50u8);
    frame.push(0x53u8);
    frame.push(0x45u8);
    frame.push(0x46u8);
    frame.push(PROTOCOL_VERSION);
    let length: u32 = address.len() as u32;
    frame.push((length % 256) as u8);
    frame.push(((length / 256) % 256) as u8);
    frame.push(((length / 65536) % 256) as u8);
    frame.push((length / 16777216) as u8);
    let ghost header = frame@;
    assert(header =~= magic().push(PROTOCOL_VERSION) + le_u32_bytes(address@.len() as u32));
    let mut i: usize = 0;
    while i < address.len()
        invariant
            i <= address@.len(),
            frame@ == header + address@.subrange(0, i as int),
        decreases address@.len() - i,
    {
        frame.push(address[i]);
        i = i + 1;
        assert(frame@ =~= header + address@.subrange(0, i as int));
    }
    assert(address@.subrange(0, address@.len() as int) =~= address@);
    frame
}

/// Parse the fixed header, returning the announced address length.
pub fn decode_header(header: &[u8]) -> (result: Result<usize, EfaError>)
    ensures
        match header_outcome(header@) {
            Ok(length) => result == Ok::<usize, EfaError>(length as usize),
            Err(message) => result matches Err(EfaError::Bootstrap(m)) && m@ == message,
        },
{
    proof {
        reveal_strlit("handshake header too short");
        reveal_strlit("handshake magic mismatch");
    }
    if header.len() < HEADER_LEN {
        return Err(EfaError::Bootstrap(String::from_str("handshake header too short")));
    }
    if !(header[0] == 0x50u8 && header[1] == 0x53u8 && header[2] == 0x45u8 && header[3] == 0x46u8) {
        assert(header@.subrange(0, 4) != magic()) by {
            if header@.subrange(0, 4) == magic() {
                assert(header@.subrange(0, 4)[0] == header@[0]);
                assert(header@.subrange(0, 4)[1] == header@[1]);
                assert(header@.subrange(0, 4)[2] == header@[2]);
                assert(header@.subrange(0, 4)[3] == header@[3]);
            }
        }
        return Err(EfaError::Bootstrap(String::from_str("handshake magic mismatch")));
    }
    assert(header@.subrange(0, 4) =~= magic());
    if header[4] != PROTOCOL_VERSION {
        return Err(EfaError::Bootstrap(with_decimal("unsupported handshake version ", header[4] as u64)));
    }
    let length: u32 = header[5] as u32 + 256 * (header[6] as u32) + 65536 * (header[7] as u32)
        + 16777216 * (header[8] as u32);
    let address_length = length as usize;
    if address_length == 0 || address_length > MAX_ADDR_LEN {
        return Err(EfaError::Bootstrap(with_decimal("implausible fabric address length ", length as u64)));
    }
    Ok(address_length)
}

/// Reading back the header of a hello frame gives the announced address's
/// length, and the bytes after the header are the address itself, for every
/// address whose length the header check accepts.
pub proof fn lemma_hello_round_trip(address: Seq<u8>)
    requires
        0 < address.len() <= MAX_ADDR_LEN,
    ensures
        header_outcome(hello_frame(address).subrange(0, HEADER_LEN as int)) == Ok::<nat, Seq<char>>(address.len()),
        hello_frame(address).subrange(HEADER_LEN as int, hello_frame(address).len() as int) == address,
{
    let frame = hello_frame(address);
    let header = frame.subrange(0, HEADER_LEN as int);
    let v = address.len() as u32;
    assert(v as nat == address.len());
    assert(header.subrange(0, 4) =~= magic());
    assert(header[4] == PROTOCOL_VERSION);
    assert(header[5] == (v % 256) as u8);
    assert(header[6] == ((v / 256) % 256) as u8);
    assert(header[7] == ((v / 65536) % 256) as u8);
    assert(header[8] == (v / 16777216) as u8);
    assert(announced_length(header) == v as nat) by (nonlinear_arith)
        requires
            header[5] == (v % 256) as u8,
            header[6] == ((v / 256) % 256) as u8,
            header[7] == ((v / 65536) % 256) as u8,
            header[8] == (v / 16777216) as u8,
            announced_length(header) == header[5] as nat + 256 * (header[6] as nat) + 65536 * (header[7] as nat)
                + 16777216 * (header[8] as nat),
    ;
    assert(frame.subrange(HEADER_LEN as int, frame.len() as int) =~= address);
}

} // verus!
