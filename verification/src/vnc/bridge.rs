//! What the bridge between the viewer's websocket and the VNC server does with
//! what either side sends.

use vstd::prelude::*;

verus! {

/// Close the bridge if neither side has sent anything for this long (seconds).
pub const IDLE_TIMEOUT_SECS: u64 = 900;

/// How much is read from the VNC server at once.
pub const READ_CHUNK: usize = 32_768;

/// What the viewer's side brings.
pub enum FromViewer {
    /// The payload of a binary frame, or the bytes of a text frame.
    Payload(Vec<u8>),
    Close,
    Ping,
    Pong,
    /// The websocket failed or ended.
    Lost,
    /// Nothing came for the idle time.
    Idle,
}

/// What the VNC server's side brings.
pub enum FromServer {
    /// What was read; nothing at the end of the stream.
    Read(Vec<u8>),
    Failed,
    Idle,
}

/// What to do next.
pub enum Relay {
    /// Pass these bytes on.
    Pass(Vec<u8>),
    /// Go on waiting.
    Skip,
    /// Close the bridge.
    Stop,
}

/// What the viewer sends goes to the server as raw bytes.
pub fn from_viewer(e: FromViewer) -> (r: Relay)
    ensures
        match e {
            FromViewer::Payload(b) => r == Relay::Pass(b),
            FromViewer::Ping => r is Skip,
            FromViewer::Pong => r is Skip,
            FromViewer::Close => r is Stop,
            FromViewer::Lost => r is Stop,
            FromViewer::Idle => r is Stop,
        },
{
    match e {
        FromViewer::Payload(b) => Relay::Pass(b),
        FromViewer::Ping => Relay::Skip,
        FromViewer::Pong => Relay::Skip,
        FromViewer::Close => Relay::Stop,
        FromViewer::Lost => Relay::Stop,
        FromViewer::Idle => Relay::Stop,
    }
}

/// What the server sends goes to the viewer as a binary frame.
pub fn from_server(e: FromServer) -> (r: Relay)
    ensures
        match e {
            FromServer::Read(b) => if b@.len() == 0 {
                r is Stop
            } else {
                r == Relay::Pass(b)
            },
            FromServer::Failed => r is Stop,
            FromServer::Idle => r is Stop,
        },
{
    match e {
        FromServer::Read(b) => if b.len() == 0 {
            Relay::Stop
        } else {
            Relay::Pass(b)
        },
        FromServer::Failed => Relay::Stop,
        FromServer::Idle => Relay::Stop,
    }
}

} // verus!
