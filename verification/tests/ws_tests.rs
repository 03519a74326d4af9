use gol_multi::ws::{
    compute_accept_key, decode_ws_frame, decode_ws_header, encode_dimensions_msg, encode_ws_frame,
    encode_ws_text_msg, find_ws_key, handshake_reply, unmask_payload, ws_payload_len,
};
use gol_multi::ProtocolError;

#[test]
fn accept_key_matches_reference_value() {
    // the sample key and accept value of the protocol's specification
    let key = b"dGhlIHNhbXBsZSBub25jZQ==";
    let accept = compute_accept_key(key);
    assert_eq!(accept, b"s3pPLMBiTxaQ9kYGzzhZRbK+xOo=".to_vec());
}

#[test]
fn handshake_reply_full_response() {
    let lines: Vec<Vec<u8>> = vec![
        b"GET / HTTP/1.1".to_vec(),
        b"Host: example".to_vec(),
        b"Sec-WebSocket-Key: dGhlIHNhbXBsZSBub25jZQ==".to_vec(),
        b"Upgrade: websocket".to_vec(),
    ];
    let response = handshake_reply(&lines).unwrap();
    let expected = b"HTTP/1.1 101 Switching Protocols\r\nUpgrade: websocket\r\nConnection: Upgrade\r\nSec-WebSocket-Accept: s3pPLMBiTxaQ9kYGzzhZRbK+xOo=\r\n\r\n";
    assert_eq!(response, expected.to_vec());
}

#[test]
fn handshake_key_header_any_case() {
    let lines: Vec<Vec<u8>> = vec![b"SEC-WEBSOCKET-KEY:  abc123".to_vec()];
    let key = find_ws_key(&lines).unwrap();
    assert_eq!(key, b"abc123".to_vec());
}

#[test]
fn handshake_missing_key() {
    let lines: Vec<Vec<u8>> = vec![b"GET / HTTP/1.1".to_vec(), b"Host: example".to_vec()];
    assert_eq!(handshake_reply(&lines), Err(ProtocolError::MissingKey));
}

#[test]
fn unmask_restores_plaintext() {
    let plain = b"hello ws".to_vec();
    let mask = [0x37u8, 0xfa, 0x21, 0x3d];
    let masked = unmask_payload(&plain, &mask);
    assert_ne!(masked, plain);
    let unmasked = unmask_payload(&masked, &mask);
    assert_eq!(unmasked, plain);
}

#[test]
fn ws_header_fields() {
    let h = decode_ws_header(0x82, 0x85);
    assert!(h.fin);
    assert!(!h.rsv1);
    assert!(!h.rsv2);
    assert!(!h.rsv3);
    assert_eq!(h.opcode, 2);
    assert!(h.masked);
    assert_eq!(h.length_indicator, 5);
}

#[test]
fn ws_payload_len_direct_and_extended() {
    assert_eq!(ws_payload_len(125), Ok(125));
    assert_eq!(ws_payload_len(126), Err(ProtocolError::UnsupportedFrameLength));
    assert_eq!(ws_payload_len(127), Err(ProtocolError::UnsupportedFrameLength));
}

#[test]
fn ws_decode_masked_frame() {
    let mask = [1u8, 2, 3, 4];
    let plain = b"hello";
    let mut data = vec![0x82u8, 0x85, 1, 2, 3, 4];
    for (i, b) in plain.iter().enumerate() {
        data.push(b ^ mask[i % 4]);
    }
    let (h, payload) = decode_ws_frame(&data).unwrap();
    assert!(h.masked);
    assert_eq!(h.opcode, 2);
    assert_eq!(payload, plain.to_vec());
}

#[test]
fn ws_decode_unmasked_frame() {
    let data = vec![0x82u8, 3, 7, 8, 9];
    let (h, payload) = decode_ws_frame(&data).unwrap();
    assert!(!h.masked);
    assert_eq!(payload, vec![7, 8, 9]);
}

#[test]
fn ws_decode_extended_length_rejected() {
    assert_eq!(decode_ws_frame(&[0x82, 126, 0, 5]), Err(ProtocolError::UnsupportedFrameLength));
    assert_eq!(decode_ws_frame(&[0x82, 127]), Err(ProtocolError::UnsupportedFrameLength));
}

#[test]
fn ws_decode_short_frame_is_closed() {
    assert_eq!(decode_ws_frame(&[0x82]), Err(ProtocolError::ConnectionClosed));
    assert_eq!(decode_ws_frame(&[0x82, 0x85, 1, 2]), Err(ProtocolError::ConnectionClosed));
    assert_eq!(decode_ws_frame(&[0x82, 3, 1]), Err(ProtocolError::ConnectionClosed));
}

#[test]
fn ws_encode_short_frame() {
    let out = encode_ws_frame(&[0], &[0, 3], &[9, 9, 9]).unwrap();
    assert_eq!(out, vec![0x82, 6, 0, 0, 3, 9, 9, 9]);
}

#[test]
fn ws_encode_extended_frame() {
    let data = vec![1u8; 130];
    let out = encode_ws_frame(&[0], &[0, 130], &data).unwrap();
    assert_eq!(out[0], 0x82);
    assert_eq!(out[1], 126);
    assert_eq!(out[2], 0);
    assert_eq!(out[3], 133);
    assert_eq!(out.len(), 4 + 133);
}

#[test]
fn ws_encode_too_large() {
    let data = vec![0u8; 1048576];
    assert_eq!(encode_ws_frame(&[], &[], &data), Err(ProtocolError::PayloadTooLarge));
}

#[test]
fn ws_text_msg_bytes() {
    let out = encode_ws_text_msg(b"hi").unwrap();
    assert_eq!(out, vec![0x82, 5, 1, 0, 2, 104, 105]);
}

#[test]
fn ws_text_msg_too_large() {
    let message = vec![b'a'; 65536];
    assert_eq!(encode_ws_text_msg(&message), Err(ProtocolError::PayloadTooLarge));
}

#[test]
fn ws_dimensions_msg_bytes() {
    let out = encode_dimensions_msg(48, 31);
    assert_eq!(out, vec![0x82, 7, 2, 0, 4, 0, 48, 0, 31]);
}

#[test]
fn ws_dimensions_msg_wide_grid() {
    let out = encode_dimensions_msg(300, 2);
    assert_eq!(out, vec![0x82, 7, 2, 0, 4, 1, 44, 0, 2]);
}

#[test]
fn handshake_first_key_line_wins() {
    let lines: Vec<Vec<u8>> = vec![
        b"Sec-WebSocket-Key: first".to_vec(),
        b"Sec-WebSocket-Key: second".to_vec(),
    ];
    let key = find_ws_key(&lines).unwrap();
    assert_eq!(key, b"first".to_vec());
}
