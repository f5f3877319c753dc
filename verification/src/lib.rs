//! `cobweb`: a browser/extractor sidecar.
//!
//! The crate is the decision logic of the service: what may be fetched, which
//! tier runs next, what is remembered and what is answered. Sockets, processes
//! and the clock belong to the program around it.

pub mod text;
pub mod json;
pub mod error;
pub mod weburl;
pub mod ip;
pub mod egress;
pub mod ssrf;
pub mod util;
pub mod jar;
pub mod config;
pub mod fastpath;
pub mod glob;
pub mod browser;
pub mod ytdlp;
pub mod pipeline;
pub mod metrics;
pub mod blocklist;
pub mod settings;
pub mod flaresolverr_client;
pub mod api;
pub mod vnc;
