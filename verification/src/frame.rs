//! The binary frame envelope of the raw TCP transport.
//!
//! A frame on the wire is one command byte, the payload length as two
//! big-endian bytes, and the payload itself. The length field caps the
//! payload at 65535 bytes; a larger payload is a hard error, never
//! truncated.

use vstd::prelude::*;
use crate::ProtocolError;

verus! {

/// Command: the payload is a run-length encoded grid.
pub const CMD_NEW_GRID: u8 = 0;

/// Command: the payload is UTF-8 log text.
pub const CMD_LOG_MSG: u8 = 1;

/// Command: the payload is the grid's width and height, two big-endian u16.
pub const CMD_GRID_DIMENSIONS: u8 = 2;

/// One more than the largest payload a frame can carry.
pub const MAX_CONTENT_SIZE: usize = 65536;

/// Size in bytes of the command header.
pub const CMD_HEADER_SIZE: usize = 1;

/// Size in bytes of the big-endian length header.
pub const SIZE_HEADER_SIZE: usize = 2;

/// The value of a two-byte big-endian field.
pub open spec fn be16(hi: u8, lo: u8) -> nat {
    hi as nat * 256 + lo as nat
}

/// The wire form of a frame: command byte, payload length as two
/// big-endian bytes, payload.
pub open spec fn frame_bytes(command: u8, payload: Seq<u8>) -> Seq<u8>
    recommends
        payload.len() < MAX_CONTENT_SIZE,
{
    seq![command, (payload.len() / 256) as u8, (payload.len() % 256) as u8] + payload
}

/// Decoding of the frame standing at the head of `data`: the command byte
/// and the payload the length field announces. Too few bytes for the header
/// or for the announced payload mean the peer closed mid-frame.
pub open spec fn frame_decode(data: Seq<u8>) -> Result<(u8, Seq<u8>), ProtocolError> {
    if data.len() < 3 {
        Err(ProtocolError::ConnectionClosed)
    } else if data.len() < 3 + be16(data[1], data[2]) {
        Err(ProtocolError::ConnectionClosed)
    } else {
        Ok((data[0], data.subrange(3, 3 + be16(data[1], data[2]) as int)))
    }
}

/// Frame encoder: `[command] ++ be16(payload.len()) ++ payload`.
/// A payload that does not fit the two-byte length field is rejected,
/// never truncated.
pub fn encode_frame(command: u8, payload: &[u8]) -> (out: Result<Vec<u8>, ProtocolError>)
    ensures
        payload@.len() < MAX_CONTENT_SIZE ==> (out matches Ok(v) && v@ == frame_bytes(
            command,
            payload@,
        )),
        payload@.len() >= MAX_CONTENT_SIZE ==> out == Err::<Vec<u8>, ProtocolError>(
            ProtocolError::PayloadTooLarge,
        ),
{
    if payload.len() >= MAX_CONTENT_SIZE {
        return Err(ProtocolError::PayloadTooLarge);
    }
    let len = payload.len();
    let mut out: Vec<u8> = Vec::new();
    out.push(command);
    out.push((len / 256) as u8);
    out.push((len % 256) as u8);
    out.extend_from_slice(payload);
    proof {
        assert(out@ =~= frame_bytes(command, payload@));
    }
    Ok(out)
}

/// Reads the command and announced payload size out of a frame header.
/// Fewer than three bytes mean the peer closed before the header was
/// complete: no partial header is ever interpreted.
pub fn decode_header(header: &[u8]) -> (out: Result<(u8, u16), ProtocolError>)
    ensures
        header@.len() >= 3 ==> (out matches Ok((command, size)) && command == header@[0] && size
            == be16(header@[1], header@[2])),
        header@.len() < 3 ==> out == Err::<(u8, u16), ProtocolError>(
            ProtocolError::ConnectionClosed,
        ),
{
    if header.len() < 3 {
        return Err(ProtocolError::ConnectionClosed);
    }
    let size: u16 = (header[1] as u16) * 256 + (header[2] as u16);
    Ok((header[0], size))
}

/// Takes the `size` payload bytes off the head of `data`. Fewer bytes
/// than announced mean the peer closed mid-payload.
pub fn decode_payload(data: &[u8], size: u16) -> (out: Result<Vec<u8>, ProtocolError>)
    ensures
        data@.len() >= size ==> (out matches Ok(v) && v@ == data@.subrange(0, size as int)),
        data@.len() < size ==> out == Err::<Vec<u8>, ProtocolError>(ProtocolError::ConnectionClosed),
{
    if data.len() < size as usize {
        return Err(ProtocolError::ConnectionClosed);
    }
    let payload = vstd::slice::slice_to_vec(&data[0..size as usize]);
    Ok(payload)
}

/// One-shot decoder for a buffer holding a whole frame at its head:
/// header, then payload, exactly as `frame_decode` states.
pub fn decode_frame(data: &[u8]) -> (out: Result<(u8, Vec<u8>), ProtocolError>)
    ensures
        match (out, frame_decode(data@)) {
            (Ok((command, payload)), Ok(spec_frame)) => command == spec_frame.0 && payload@
                == spec_frame.1,
            (Err(e1), Err(e2)) => e1 == e2,
            _ => false,
        },
{
    if data.len() < 3 {
        return Err(ProtocolError::ConnectionClosed);
    }
    let size: usize = (data[1] as usize) * 256 + (data[2] as usize);
    if data.len() - 3 < size {
        return Err(ProtocolError::ConnectionClosed);
    }
    let payload = vstd::slice::slice_to_vec(&data[3..3 + size]);
    Ok((data[0], payload))
}

/// Round trip: decoding an encoded frame gives the command and payload
/// back, for every command byte and every payload the length field can
/// carry.
pub proof fn lemma_frame_round_trip(command: u8, payload: Seq<u8>)
    requires
        payload.len() < MAX_CONTENT_SIZE,
    ensures
        frame_decode(frame_bytes(command, payload)) == Ok::<(u8, Seq<u8>), ProtocolError>(
            (command, payload),
        ),
{
    let data = frame_bytes(command, payload);
    assert(be16(data[1], data[2]) == payload.len()) by {
        vstd::arithmetic::div_mod::lemma_fundamental_div_mod(payload.len() as int, 256);
    }
    assert(data.subrange(3, 3 + payload.len() as int) =~= payload);
}

} // verus!
