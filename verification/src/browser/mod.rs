//! Browser tier. The seam lives in [`engine`]; the default implementation speaks
//! the DevTools protocol ([`cdp`], [`cdp_engine`]) to one Chromium
//! ([`chromium`]) and never turns on the protocol's `Runtime` domain.

pub mod cdp;
pub mod cdp_engine;
pub mod chromium;
pub mod engine;
pub mod mock;
pub mod sniff;
pub mod xvfb;

pub use self::engine::{BrowserError, ContextOptions, PageLoad, SniffHit, WaitFor};
