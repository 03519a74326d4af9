//! The WebSocket side of the transport: the opening handshake and a
//! subset of the frame protocol.
//!
//! The handshake computes the accept value `base64(SHA-1(key ++ MAGIC))`
//! from the client's `Sec-WebSocket-Key` header and answers with an HTTP
//! `101 Switching Protocols` response. Frames use binary opcode 0x2; the
//! server sends unmasked frames, clients send masked ones that are
//! unmasked by XOR with the four mask bytes. Extended frame lengths are
//! outside this subset: the receive path accepts only the direct 7-bit
//! length, and the send path uses at most a two-byte extension.

use vstd::prelude::*;
use vstd::string::StrSliceExecFns;
use vstd::string::StringSliceAdditionalSpecFns;
use base64::Engine;
use sha1::Digest;
use crate::ProtocolError;

verus! {

/// The fixed GUID every WebSocket handshake appends to the client key
/// before hashing.
pub open spec fn ws_magic() -> Seq<u8> {
    "258EAFA5-E914-47DA-95CA-C5AB0DC85B11".spec_bytes()
}

/// The SHA-1 digest of a byte sequence, as the sha1 crate computes it.
pub uninterp spec fn sha1_of(data: Seq<u8>) -> Seq<u8>;

/// The padded standard-alphabet base64 encoding of a byte sequence, as
/// the base64 crate computes it.
pub uninterp spec fn base64_of(data: Seq<u8>) -> Seq<u8>;

/// Relies on sha1::Sha1 through digest::Digest::digest: the SHA-1 digest,
/// a 20-byte function of the input bytes alone.
#[verifier::external_body]
fn sha1_digest(data: &[u8]) -> (r: Vec<u8>)
    ensures
        r@ == sha1_of(data@),
        r@.len() == 20,
{
    sha1::Sha1::digest(data).to_vec()
}

/// Relies on base64::Engine::encode with the general-purpose STANDARD
/// engine: padded base64, a function of the input bytes alone, four
/// output bytes for every started group of three input bytes. The length
/// bound keeps the output length computation inside `usize`, where the
/// engine would otherwise panic.
#[verifier::external_body]
fn base64_encode_bytes(data: &[u8]) -> (r: Vec<u8>)
    requires
        data@.len() < 0x4000_0000,
    ensures
        r@ == base64_of(data@),
        r@.len() == 4 * ((data@.len() + 2) / 3),
{
    base64::engine::general_purpose::STANDARD.encode(data).into_bytes()
}

/// The accept value owed for a client key: base64 of the SHA-1 digest of
/// the key followed by the handshake GUID.
pub open spec fn accept_key_of(key: Seq<u8>) -> Seq<u8> {
    base64_of(sha1_of(key + ws_magic()))
}

/// Computes the `Sec-WebSocket-Accept` value for a client key.
pub fn compute_accept_key(key: &[u8]) -> (r: Vec<u8>)
    ensures
        r@ == accept_key_of(key@),
        r@.len() == 28,
{
    let mut material = vstd::slice::slice_to_vec(key);
    let mut magic = ("258EAFA5-E914-47DA-95CA-C5AB0DC85B11").as_bytes_vec();
    material.append(&mut magic);
    let digest = sha1_digest(material.as_slice());
    base64_encode_bytes(digest.as_slice())
}

/// ASCII lower-casing of one byte; other bytes pass unchanged.
pub open spec fn ascii_lower(b: u8) -> u8 {
    if 65 <= b <= 90 {
        (b + 32) as u8
    } else {
        b
    }
}

/// The header name the handshake scans for, in lower case, colon included.
pub open spec fn key_header_name() -> Seq<u8> {
    "sec-websocket-key:".spec_bytes()
}

/// Whether a request line carries the `Sec-WebSocket-Key` header: it
/// starts with the header name, compared without regard to ASCII case.
pub open spec fn is_key_line(line: Seq<u8>) -> bool {
    line.len() >= key_header_name().len() && (forall|k: int|
        0 <= k < key_header_name().len() ==> ascii_lower(#[trigger] line[k])
            == key_header_name()[k])
}

/// A byte sequence with its leading ASCII spaces removed.
pub open spec fn strip_leading_spaces(s: Seq<u8>) -> Seq<u8>
    decreases s.len(),
{
    if s.len() > 0 && s[0] == 32 {
        strip_leading_spaces(s.skip(1))
    } else {
        s
    }
}

/// The key a request line carries: what follows the header name, with
/// the space after the colon removed.
pub open spec fn key_value_of(line: Seq<u8>) -> Seq<u8>
    recommends
        is_key_line(line),
{
    strip_leading_spaces(line.skip(key_header_name().len() as int))
}

/// The client key carried by the first key header among the request
/// lines, if any line carries one.
pub open spec fn find_key(lines: Seq<Seq<u8>>) -> Option<Seq<u8>>
    decreases lines.len(),
{
    if lines.len() == 0 {
        None
    } else if is_key_line(lines[0]) {
        Some(key_value_of(lines[0]))
    } else {
        find_key(lines.skip(1))
    }
}

/// Removing the leading spaces of a sequence removes exactly the spaces
/// standing before the first non-space position.
proof fn lemma_strip_leading_spaces(s: Seq<u8>, b: int)
    requires
        0 <= b <= s.len(),
        forall|k: int| 0 <= k < b ==> #[trigger] s[k] == 32,
        b < s.len() ==> s[b] != 32,
    ensures
        strip_leading_spaces(s) == s.skip(b),
    decreases b,
{
    if b == 0 {
        assert(s.skip(0) =~= s);
    } else {
        assert(s[0] == 32);
        lemma_strip_leading_spaces(s.skip(1), b - 1);
        assert(s.skip(1).skip(b - 1) =~= s.skip(b));
    }
}

/// Whether a line starts with the `Sec-WebSocket-Key` header name,
/// compared without regard to ASCII case.
pub fn line_is_key_header(line: &[u8]) -> (r: bool)
    ensures
        r == is_key_line(line@),
{
    let name = ("sec-websocket-key:").as_bytes_vec();
    if line.len() < name.len() {
        return false;
    }
    let mut k: usize = 0;
    while k < name.len()
        invariant
            0 <= k <= name@.len(),
            name@ == key_header_name(),
            line@.len() >= name@.len(),
            forall|m: int| 0 <= m < k ==> ascii_lower(#[trigger] line@[m]) == name@[m],
        decreases name@.len() - k,
    {
        let b = line[k];
        let lowered = if 65 <= b && b <= 90 {
            b + 32
        } else {
            b
        };
        if lowered != name[k] {
            return false;
        }
        k += 1;
    }
    true
}

/// The key a request line carries, as a fresh vector: the bytes after the
/// header name, leading spaces removed.
pub fn key_value_of_line(line: &[u8]) -> (r: Vec<u8>)
    requires
        is_key_line(line@),
    ensures
        r@ == key_value_of(line@),
{
    let name = ("sec-websocket-key:").as_bytes_vec();
    let mut start: usize = name.len();
    while start < line.len() && line[start] == 32
        invariant
            name@.len() <= start <= line@.len(),
            forall|k: int| name@.len() <= k < start ==> #[trigger] line@[k] == 32,
        decreases line@.len() - start,
    {
        start += 1;
    }
    let value = vstd::slice::slice_to_vec(&line[start..line.len()]);
    proof {
        let tail = line@.skip(name@.len() as int);
        assert(forall|k: int| 0 <= k < start - name@.len() ==> #[trigger] tail[k] == 32);
        lemma_strip_leading_spaces(tail, start - name@.len() as int);
        assert(tail.skip(start - name@.len() as int) =~= line@.subrange(
            start as int,
            line@.len() as int,
        ));
    }
    value
}

/// Scans the request lines for the client's `Sec-WebSocket-Key` header
/// and hands back the key of the first line that carries one.
pub fn find_ws_key(lines: &Vec<Vec<u8>>) -> (r: Option<Vec<u8>>)
    ensures
        match r {
            Some(v) => find_key(lines.deep_view()) == Some(v@),
            None => find_key(lines.deep_view()) is None,
        },
{
    let mut i: usize = 0;
    proof {
        assert(lines.deep_view().skip(0) =~= lines.deep_view());
    }
    while i < lines.len()
        invariant
            0 <= i <= lines@.len(),
            lines.deep_view().len() == lines@.len(),
            find_key(lines.deep_view()) == find_key(lines.deep_view().skip(i as int)),
            forall|k: int| 0 <= k < lines@.len() ==> lines.deep_view()[k] == #[trigger] lines@[k]@,
        decreases lines@.len() - i,
    {
        let line = &lines[i];
        if line_is_key_header(line.as_slice()) {
            return Some(key_value_of_line(line.as_slice()));
        }
        proof {
            assert(lines.deep_view().skip(i as int).skip(1) =~= lines.deep_view().skip(i + 1));
        }
        i += 1;
    }
    proof {
        assert(lines.deep_view().skip(i as int) =~= Seq::<Seq<u8>>::empty());
    }
    None
}

/// The fixed part of the `101 Switching Protocols` response, up to and
/// including the name of the accept header.
pub open spec fn handshake_response_prefix() -> Seq<u8> {
    "HTTP/1.1 101 Switching Protocols\r\nUpgrade: websocket\r\nConnection: Upgrade\r\nSec-WebSocket-Accept: ".spec_bytes()
}

/// The whole upgrade response owed for a client key: the fixed prefix,
/// the accept value for that key, and the blank line ending the headers.
pub open spec fn handshake_response_bytes(key: Seq<u8>) -> Seq<u8> {
    handshake_response_prefix() + accept_key_of(key) + seq![13u8, 10u8, 13u8, 10u8]
}

/// Builds the `101 Switching Protocols` response for the request whose
/// header lines are given: finds the client key among the lines, computes
/// the accept value, and lays out the full response. A request without a
/// key header is rejected with `MissingKey`.
pub fn handshake_reply(lines: &Vec<Vec<u8>>) -> (out: Result<Vec<u8>, ProtocolError>)
    ensures
        match find_key(lines.deep_view()) {
            Some(key) => out matches Ok(resp) && resp@ == handshake_response_bytes(key),
            None => out == Err::<Vec<u8>, ProtocolError>(ProtocolError::MissingKey),
        },
{
    let key = match find_ws_key(lines) {
        Some(key) => key,
        None => {
            return Err(ProtocolError::MissingKey);
        },
    };
    let mut response = (
    "HTTP/1.1 101 Switching Protocols\r\nUpgrade: websocket\r\nConnection: Upgrade\r\nSec-WebSocket-Accept: ").as_bytes_vec();
    let mut accept = compute_accept_key(key.as_slice());
    response.append(&mut accept);
    response.push(13);
    response.push(10);
    response.push(13);
    response.push(10);
    proof {
        assert(response@ =~= handshake_response_bytes(key@));
    }
    Ok(response)
}

/// The fields packed into the first two bytes of a WebSocket frame.
#[derive(Clone, Copy, Debug, PartialEq, Eq, Structural)]
pub struct WsFrameHeader {
    pub fin: bool,
    pub rsv1: bool,
    pub rsv2: bool,
    pub rsv3: bool,
    pub opcode: u8,
    pub masked: bool,
    pub length_indicator: u8,
}

/// How the first two bytes of a frame are read: flag bits and opcode out
/// of the first byte, mask bit and 7-bit length indicator out of the
/// second.
pub open spec fn ws_header_of(b0: u8, b1: u8) -> WsFrameHeader {
    WsFrameHeader {
        fin: b0 & 0x80 == 0x80,
        rsv1: b0 & 0x40 == 0x40,
        rsv2: b0 & 0x20 == 0x20,
        rsv3: b0 & 0x10 == 0x10,
        opcode: b0 & 0x0f,
        masked: b1 & 0x80 == 0x80,
        length_indicator: b1 & 0x7f,
    }
}

/// Unpacks the two header bytes of a WebSocket frame.
pub fn decode_ws_header(b0: u8, b1: u8) -> (h: WsFrameHeader)
    ensures
        h == ws_header_of(b0, b1),
{
    WsFrameHeader {
        fin: b0 & 0x80 == 0x80,
        rsv1: b0 & 0x40 == 0x40,
        rsv2: b0 & 0x20 == 0x20,
        rsv3: b0 & 0x10 == 0x10,
        opcode: b0 & 0x0f,
        masked: b1 & 0x80 == 0x80,
        length_indicator: b1 & 0x7f,
    }
}

/// The payload length a header announces. Only the direct 7-bit form is
/// inside this protocol subset: the extended indicators 126 and 127 are
/// rejected with `UnsupportedFrameLength`, never guessed at.
pub fn ws_payload_len(length_indicator: u8) -> (out: Result<u8, ProtocolError>)
    requires
        length_indicator <= 127,
    ensures
        length_indicator < 126 ==> out == Ok::<u8, ProtocolError>(length_indicator),
        length_indicator >= 126 ==> out == Err::<u8, ProtocolError>(
            ProtocolError::UnsupportedFrameLength,
        ),
{
    if length_indicator < 126 {
        Ok(length_indicator)
    } else {
        Err(ProtocolError::UnsupportedFrameLength)
    }
}

/// Each payload byte XOR-ed with the mask byte for its position.
pub open spec fn xor_mask(payload: Seq<u8>, mask: Seq<u8>) -> Seq<u8>
    recommends
        mask.len() == 4,
{
    Seq::new(payload.len(), |i: int| payload[i] ^ mask[i % 4])
}

/// Applies the four-byte client mask: XOR of every payload byte with the
/// mask byte at its position modulo four. Masking and unmasking are the
/// same operation.
pub fn unmask_payload(payload: &[u8], mask: &[u8]) -> (r: Vec<u8>)
    requires
        mask@.len() == 4,
    ensures
        r@ == xor_mask(payload@, mask@),
{
    let mut r: Vec<u8> = Vec::new();
    let mut i: usize = 0;
    while i < payload.len()
        invariant
            0 <= i <= payload@.len(),
            mask@.len() == 4,
            r@.len() == i,
            forall|k: int| 0 <= k < i ==> r@[k] == #[trigger] payload@[k] ^ mask@[k % 4],
        decreases payload@.len() - i,
    {
        r.push(payload[i] ^ mask[i % 4]);
        i += 1;
    }
    proof {
        assert(r@ =~= xor_mask(payload@, mask@));
    }
    r
}

/// Unmasking a masked payload restores the plaintext: applying the mask
/// twice gives the original bytes back, for every payload and mask.
pub proof fn lemma_unmask_round_trip(payload: Seq<u8>, mask: Seq<u8>)
    requires
        mask.len() == 4,
    ensures
        xor_mask(xor_mask(payload, mask), mask) == payload,
{
    assert forall|i: int| 0 <= i < payload.len() implies xor_mask(xor_mask(payload, mask), mask)[i]
        == payload[i] by {
        let p = payload[i];
        let m = mask[i % 4];
        assert((p ^ m) ^ m == p) by (bit_vector);
    }
    assert(xor_mask(xor_mask(payload, mask), mask) =~= payload);
}

/// Decoding of the WebSocket frame standing at the head of `data`, as
/// the read loop performs it: header bytes, the payload length the 7-bit
/// indicator announces, the mask if the mask bit is set, and the payload,
/// unmasked when a mask was present.
pub open spec fn ws_frame_decode(data: Seq<u8>) -> Result<
    (WsFrameHeader, Seq<u8>),
    ProtocolError,
> {
    if data.len() < 2 {
        Err(ProtocolError::ConnectionClosed)
    } else {
        let h = ws_header_of(data[0], data[1]);
        if h.length_indicator >= 126 {
            Err(ProtocolError::UnsupportedFrameLength)
        } else {
            let len = h.length_indicator as int;
            if h.masked {
                if data.len() < 6 + len {
                    Err(ProtocolError::ConnectionClosed)
                } else {
                    Ok(
                        (
                            h,
                            xor_mask(
                                data.subrange(6, 6 + len),
                                data.subrange(2, 6),
                            ),
                        ),
                    )
                }
            } else {
                if data.len() < 2 + len {
                    Err(ProtocolError::ConnectionClosed)
                } else {
                    Ok((h, data.subrange(2, 2 + len)))
                }
            }
        }
    }
}

/// One-shot decoder for a buffer holding a whole client frame at its
/// head: reads the header, rejects extended lengths, reads the mask if
/// present, and hands back the unmasked payload.
pub fn decode_ws_frame(data: &[u8]) -> (out: Result<(WsFrameHeader, Vec<u8>), ProtocolError>)
    ensures
        match (out, ws_frame_decode(data@)) {
            (Ok((h, payload)), Ok(spec_frame)) => h == spec_frame.0 && payload@ == spec_frame.1,
            (Err(e1), Err(e2)) => e1 == e2,
            _ => false,
        },
{
    if data.len() < 2 {
        return Err(ProtocolError::ConnectionClosed);
    }
    let h = decode_ws_header(data[0], data[1]);
    proof {
        let b1 = data@[1];
        assert(b1 & 0x7f <= 127) by (bit_vector);
    }
    let len = match ws_payload_len(h.length_indicator) {
        Ok(len) => len as usize,
        Err(e) => {
            return Err(e);
        },
    };
    if h.masked {
        if data.len() - 2 < 4 || data.len() - 6 < len {
            return Err(ProtocolError::ConnectionClosed);
        }
        let mask = &data[2..6];
        let masked = &data[6..6 + len];
        let payload = unmask_payload(masked, mask);
        Ok((h, payload))
    } else {
        if data.len() - 2 < len {
            return Err(ProtocolError::ConnectionClosed);
        }
        let payload = vstd::slice::slice_to_vec(&data[2..2 + len]);
        Ok((h, payload))
    }
}

/// One more than the largest content length the send path accepts.
pub const MAX_WS_CONTENT: usize = 1048576;

/// The wire form of a server frame around `content`: header byte 0x82
/// (final frame, binary opcode, no mask), then the length. A content
/// shorter than 126 bytes puts its length directly in the second byte;
/// anything else uses the 126 indicator with a two-byte extension. Only
/// two of the extended-length bytes the full protocol prescribes are
/// used: lengths from 65536 up to the send cap wrap around in the
/// two-byte field, a deliberate, non-standard subset choice.
pub open spec fn ws_frame_bytes(content: Seq<u8>) -> Seq<u8>
    recommends
        content.len() < MAX_WS_CONTENT,
{
    if content.len() < 126 {
        seq![0x82u8, content.len() as u8] + content
    } else {
        seq![0x82u8, 126u8, ((content.len() / 256) % 256) as u8, (content.len() % 256) as u8]
            + content
    }
}

/// Serializes one server-to-client frame whose content is the command
/// bytes, the size bytes and the payload bytes in that order, exactly as
/// `ws_frame_bytes` lays it out. Content at or beyond the send cap is
/// rejected, never split.
pub fn encode_ws_frame(cmd: &[u8], size: &[u8], data: &[u8]) -> (out: Result<
    Vec<u8>,
    ProtocolError,
>)
    ensures
        cmd@.len() + size@.len() + data@.len() < MAX_WS_CONTENT ==> (out matches Ok(v) && v@
            == ws_frame_bytes(cmd@ + size@ + data@)),
        cmd@.len() + size@.len() + data@.len() >= MAX_WS_CONTENT ==> out == Err::<
            Vec<u8>,
            ProtocolError,
        >(ProtocolError::PayloadTooLarge),
{
    let total: u128 = cmd.len() as u128 + size.len() as u128 + data.len() as u128;
    if total >= MAX_WS_CONTENT as u128 {
        return Err(ProtocolError::PayloadTooLarge);
    }
    let len: usize = cmd.len() + size.len() + data.len();
    let mut out: Vec<u8> = Vec::new();
    out.push(0x82);
    if len < 126 {
        out.push(len as u8);
    } else {
        out.push(126);
        out.push(((len / 256) % 256) as u8);
        out.push((len % 256) as u8);
    }
    out.extend_from_slice(cmd);
    out.extend_from_slice(size);
    out.extend_from_slice(data);
    proof {
        assert(out@ =~= ws_frame_bytes(cmd@ + size@ + data@));
    }
    Ok(out)
}

/// Serializes a log-text message for the WebSocket transport: the text
/// wrapped in the `[command][length][payload]` envelope under command
/// `CMD_LOG_MSG`, and that envelope wrapped in a server frame. Text that
/// does not fit the envelope's two-byte length field is rejected.
pub fn encode_ws_text_msg(message: &[u8]) -> (out: Result<Vec<u8>, ProtocolError>)
    ensures
        message@.len() < crate::frame::MAX_CONTENT_SIZE ==> (out matches Ok(v) && v@
            == ws_frame_bytes(crate::frame::frame_bytes(crate::frame::CMD_LOG_MSG, message@))),
        message@.len() >= crate::frame::MAX_CONTENT_SIZE ==> out == Err::<Vec<u8>, ProtocolError>(
            ProtocolError::PayloadTooLarge,
        ),
{
    let inner = match crate::frame::encode_frame(crate::frame::CMD_LOG_MSG, message) {
        Ok(inner) => inner,
        Err(e) => {
            return Err(e);
        },
    };
    let empty: Vec<u8> = Vec::new();
    match encode_ws_frame(inner.as_slice(), empty.as_slice(), empty.as_slice()) {
        Ok(out) => {
            proof {
                assert(inner@ + empty@ + empty@ =~= crate::frame::frame_bytes(
                    crate::frame::CMD_LOG_MSG,
                    message@,
                ));
            }
            Ok(out)
        },
        Err(e) => Err(e),
    }
}

/// Serializes the grid-dimensions announcement: width and height as two
/// big-endian u16 in a `CMD_GRID_DIMENSIONS` envelope, wrapped in a
/// server frame.
pub fn encode_dimensions_msg(width: u16, height: u16) -> (out: Vec<u8>)
    ensures
        out@ == ws_frame_bytes(
            crate::frame::frame_bytes(
                crate::frame::CMD_GRID_DIMENSIONS,
                seq![
                    (width / 256) as u8,
                    (width % 256) as u8,
                    (height / 256) as u8,
                    (height % 256) as u8,
                ],
            ),
        ),
{
    let mut out: Vec<u8> = Vec::new();
    out.push(0x82);
    out.push(7);
    out.push(crate::frame::CMD_GRID_DIMENSIONS);
    out.push(0);
    out.push(4);
    out.push((width / 256) as u8);
    out.push((width % 256) as u8);
    out.push((height / 256) as u8);
    out.push((height % 256) as u8);
    proof {
        assert(out@ =~= ws_frame_bytes(
            crate::frame::frame_bytes(
                crate::frame::CMD_GRID_DIMENSIONS,
                seq![
                    (width / 256) as u8,
                    (width % 256) as u8,
                    (height / 256) as u8,
                    (height % 256) as u8,
                ],
            ),
        ));
    }
    out
}

} // verus!
