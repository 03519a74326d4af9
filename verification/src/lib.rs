//! A verified transport and encoding stack for broadcasting a 2D cell
//! grid to many clients at once: a run-length codec for the grid, the
//! binary frame envelope of the raw TCP transport, a server-side subset
//! of the WebSocket handshake and frame protocol, and the registry that
//! fans each snapshot out and prunes dead connections.

pub mod frame;
pub mod game;
pub mod pack;
pub mod registry;
pub mod rle;
pub mod ws;

use vstd::prelude::*;

verus! {

/// Errors of the transport and encoding stack.
///
/// Each variant marks one fallible boundary: a peer that closed its
/// socket, a payload that does not fit the two-byte length field of the
/// frame envelope, malformed run-length data, a WebSocket handshake
/// request without a key, and a WebSocket frame whose length field uses
/// an extended encoding this subset does not accept.
#[derive(Clone, Copy, Debug, PartialEq, Eq, Structural)]
pub enum ProtocolError {
    ConnectionClosed,
    PayloadTooLarge,
    InvalidRunWidth,
    TruncatedRun,
    MissingKey,
    UnsupportedFrameLength,
}

} // verus!
