//! How `x11vnc` is started on the display Chromium is on.

use vstd::prelude::*;

use crate::error::{CobwebError, ErrorView};
use crate::text::{cat, cat3, dec, dec_u64, trim, trimmed};

verus! {

/// How often the port is tried before giving up, a tenth of a second apart.
pub const PORT_TRIES: usize = 50;

/// The command line. The server listens on loopback only and takes one viewer at
/// a time: a second one can replace the first but never ride along.
pub open spec fn vnc_line(disp: Seq<char>, port: u16) -> Seq<Seq<char>> {
    seq![
        "-display"@,
        disp,
        "-rfbport"@,
        dec(port as nat),
        "-localhost"@,
        "-nopw"@,
        "-forever"@,
        "-noxdamage"@,
        "-noxfixes"@,
        "-noxrandr"@,
    ]
}

/// The command line.
pub fn vnc_args(disp: &str, port: u16) -> (r: Vec<String>)
    ensures
        r.deep_view() == vnc_line(disp@, port),
{
    let mut v: Vec<String> = Vec::new();
    v.push("-display".to_owned());
    v.push(disp.to_owned());
    v.push("-rfbport".to_owned());
    v.push(dec_u64(port as u64));
    v.push("-localhost".to_owned());
    v.push("-nopw".to_owned());
    v.push("-forever".to_owned());
    v.push("-noxdamage".to_owned());
    v.push("-noxfixes".to_owned());
    v.push("-noxrandr".to_owned());
    assert(v.deep_view() =~= vnc_line(disp@, port));
    v
}

/// Where the start of the server stands.
pub enum VncStartup {
    Ready,
    /// Try again a tenth of a second later.
    Retry,
    Failed(CobwebError),
}

/// Where the start stands after `tries` tries: whether the port was open, how the
/// process ended if it did, and the tail of what it printed.
pub fn vnc_startup(tries: usize, open: bool, exited: &Option<String>, tail: &str) -> (r: VncStartup)
    ensures
        match r {
            VncStartup::Ready => open && tries < PORT_TRIES,
            VncStartup::Retry => !open && exited is None && tries < PORT_TRIES,
            VncStartup::Failed(e) => if tries >= PORT_TRIES {
                e@ == ErrorView::Browser("x11vnc did not open its RFB port: "@ + trimmed(tail@))
            } else {
                !open && exited is Some && e@ == ErrorView::Browser(
                    "x11vnc exited early ("@ + exited->Some_0@ + "): "@ + trimmed(tail@),
                )
            },
        },
{
    if tries >= PORT_TRIES {
        return VncStartup::Failed(
            CobwebError::Browser(cat("x11vnc did not open its RFB port: ", trim(tail).as_str())),
        );
    }
    if open {
        return VncStartup::Ready;
    }
    match exited {
        Some(status) => VncStartup::Failed(
            CobwebError::Browser(
                cat(
                    cat3("x11vnc exited early (", status.as_str(), "): ").as_str(),
                    trim(tail).as_str(),
                ),
            ),
        ),
        None => VncStartup::Retry,
    }
}

/// The screen server shows the display at the port, to this machine alone.
pub proof fn the_screen_is_served_locally(disp: Seq<char>, port: u16)
    ensures
        vnc_line(disp, port).contains("-localhost"@),
        vnc_line(disp, port)[0] == "-display"@,
        vnc_line(disp, port)[1] == disp,
        vnc_line(disp, port)[2] == "-rfbport"@,
        vnc_line(disp, port)[3] == dec(port as nat),
{
    assert(vnc_line(disp, port)[4] == "-localhost"@);
}

} // verus!
