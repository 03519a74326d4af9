use gol_multi::frame::{
    decode_frame, decode_header, decode_payload, encode_frame, CMD_GRID_DIMENSIONS, CMD_LOG_MSG,
    CMD_NEW_GRID,
};
use gol_multi::ProtocolError;

#[test]
fn frame_encode_exact_bytes() {
    let out = encode_frame(CMD_NEW_GRID, &[1, 2, 3]).unwrap();
    assert_eq!(out, vec![0, 0, 3, 1, 2, 3]);
}

#[test]
fn frame_encode_length_is_big_endian() {
    let payload = vec![9u8; 300];
    let out = encode_frame(CMD_LOG_MSG, &payload).unwrap();
    assert_eq!(out[0], 1);
    assert_eq!(out[1], 1);
    assert_eq!(out[2], 44);
    assert_eq!(&out[3..], payload.as_slice());
}

#[test]
fn frame_round_trip() {
    let payload = vec![0u8, 255, 17, 4];
    let encoded = encode_frame(CMD_GRID_DIMENSIONS, &payload).unwrap();
    let (command, decoded) = decode_frame(&encoded).unwrap();
    assert_eq!(command, CMD_GRID_DIMENSIONS);
    assert_eq!(decoded, payload);
}

#[test]
fn frame_round_trip_largest_payload() {
    let payload = vec![8u8; 65535];
    let encoded = encode_frame(CMD_NEW_GRID, &payload).unwrap();
    let (command, decoded) = decode_frame(&encoded).unwrap();
    assert_eq!(command, CMD_NEW_GRID);
    assert_eq!(decoded, payload);
}

#[test]
fn frame_encode_payload_too_large() {
    let payload = vec![0u8; 65536];
    assert_eq!(encode_frame(CMD_NEW_GRID, &payload), Err(ProtocolError::PayloadTooLarge));
}

#[test]
fn frame_decode_header_reads_big_endian() {
    assert_eq!(decode_header(&[2, 1, 0]), Ok((2, 256)));
    assert_eq!(decode_header(&[0, 0, 100]), Ok((0, 100)));
}

#[test]
fn frame_decode_header_short_is_closed() {
    assert_eq!(decode_header(&[]), Err(ProtocolError::ConnectionClosed));
    assert_eq!(decode_header(&[0, 1]), Err(ProtocolError::ConnectionClosed));
}

#[test]
fn frame_decode_payload_takes_prefix() {
    assert_eq!(decode_payload(&[1, 2, 3, 4], 2), Ok(vec![1, 2]));
}

#[test]
fn frame_decode_payload_short_is_closed() {
    assert_eq!(decode_payload(&[1], 2), Err(ProtocolError::ConnectionClosed));
}

#[test]
fn frame_decode_truncated_is_closed() {
    assert_eq!(decode_frame(&[0, 0, 3, 1]), Err(ProtocolError::ConnectionClosed));
}
