//! Manual solve over VNC: `x11vnc` attaches to the display Chromium is on, and a
//! websocket bridge carries its byte stream to the dashboard. One session at a
//! time.

pub mod bridge;
pub mod session;
pub mod x11vnc;

pub use self::session::{SessionInfo, SessionManager, SessionStarted};
