//! The virtual display that a headful Chromium runs on, and how the start of a
//! helper process is waited for.

use vstd::prelude::*;

use super::engine::{BrowserError, BrowserFault};
use crate::text::{cat, cat3, dec, dec_u64};

verus! {

/// The numbers of the displays that are used.
pub const FIRST_DISPLAY: u32 = 100;

pub const END_OF_DISPLAYS: u32 = 1000;

/// How often a process that starts is looked at.
pub const START_TRIES: usize = 60;

/// The first display number from `n` on that is not taken.
pub open spec fn free_from(taken: Seq<u32>, n: int) -> Option<u32>
    decreases END_OF_DISPLAYS - n,
{
    if n >= END_OF_DISPLAYS || n < 0 {
        None
    } else if taken.contains(n as u32) {
        free_from(taken, n + 1)
    } else {
        Some(n as u32)
    }
}

fn is_taken(taken: &Vec<u32>, n: u32) -> (r: bool)
    ensures
        r == taken@.contains(n),
{
    for i in 0..taken.len()
        invariant
            forall|k: int| 0 <= k < i ==> taken@[k] != n,
    {
        if taken[i] == n {
            return true;
        }
    }
    false
}

/// First display `:N` with no X socket and no lock file; `taken` are the numbers
/// that have either.
pub fn free_display_number(taken: &Vec<u32>) -> (r: Result<u32, BrowserError>)
    ensures
        match r {
            Ok(n) => free_from(taken@, FIRST_DISPLAY as int) == Some(n),
            Err(e) => free_from(taken@, FIRST_DISPLAY as int) is None && e@
                == BrowserFault::Unavailable("no free X display number"@),
        },
{
    let mut n: u32 = FIRST_DISPLAY;
    while n < END_OF_DISPLAYS
        invariant
            FIRST_DISPLAY <= n <= END_OF_DISPLAYS,
            free_from(taken@, n as int) == free_from(taken@, FIRST_DISPLAY as int),
        decreases END_OF_DISPLAYS - n,
    {
        if !is_taken(taken, n) {
            return Ok(n);
        }
        n = n + 1;
    }
    Err(BrowserError::Unavailable("no free X display number".to_owned()))
}

/// The name of a display.
pub fn display_name(n: u32) -> (r: String)
    ensures
        r@ == ":"@ + dec(n as nat),
{
    cat(":", dec_u64(n as u64).as_str())
}

/// The arguments of the display server: one small screen, no network.
pub fn xvfb_args(disp: &str) -> (r: Vec<String>)
    ensures
        r.deep_view() == seq![
            disp@,
            "-screen"@,
            "0"@,
            "1280x720x24"@,
            "-nolisten"@,
            "tcp"@,
            "-ac"@,
            "-noreset"@,
        ],
{
    let mut v: Vec<String> = Vec::new();
    v.push(disp.to_owned());
    v.push("-screen".to_owned());
    v.push("0".to_owned());
    v.push("1280x720x24".to_owned());
    v.push("-nolisten".to_owned());
    v.push("tcp".to_owned());
    v.push("-ac".to_owned());
    v.push("-noreset".to_owned());
    assert(v.deep_view() =~= seq![
        disp@,
        "-screen"@,
        "0"@,
        "1280x720x24"@,
        "-nolisten"@,
        "tcp"@,
        "-ac"@,
        "-noreset"@,
    ]);
    v
}

/// How the start of the display server goes on.
pub enum Startup {
    Ready,
    /// Look again a little later.
    Retry,
    Failed(BrowserError),
}

/// Look at a display server that starts: `tries` is how often that was done
/// before, `ready` whether its socket is there, `exited` how it ended if it did.
pub fn xvfb_startup(disp: &str, tries: usize, ready: bool, exited: &Option<String>) -> (r: Startup)
    ensures
        match r {
            Startup::Ready => ready && tries < START_TRIES,
            Startup::Retry => !ready && exited is None && tries < START_TRIES,
            Startup::Failed(e) => if tries >= START_TRIES {
                e@ == BrowserFault::Unavailable("Xvfb "@ + disp@ + " did not come up"@)
            } else {
                !ready && exited is Some && e@ == BrowserFault::Unavailable(
                    "Xvfb "@ + disp@ + " exited early ("@ + exited->Some_0@ + ")"@,
                )
            },
        },
{
    if tries >= START_TRIES {
        return Startup::Failed(
            BrowserError::Unavailable(cat3("Xvfb ", disp, " did not come up")),
        );
    }
    if ready {
        return Startup::Ready;
    }
    match exited {
        Some(status) => Startup::Failed(
            BrowserError::Unavailable(
                cat3(
                    cat3("Xvfb ", disp, " exited early (").as_str(),
                    status.as_str(),
                    ")",
                ),
            ),
        ),
        None => Startup::Retry,
    }
}

/// A free display is one nobody has, in range, and the lowest such.
pub proof fn free_display_is_free(taken: Seq<u32>, n: int)
    requires
        FIRST_DISPLAY <= n <= END_OF_DISPLAYS,
    ensures
        free_from(taken, n) matches Some(d) ==> n <= d < END_OF_DISPLAYS && !taken.contains(d)
            && forall|k: int| n <= k < d ==> taken.contains(#[trigger] (k as u32)),
        free_from(taken, n) is None ==> forall|k: int|
            n <= k < END_OF_DISPLAYS ==> taken.contains(#[trigger] (k as u32)),
    decreases END_OF_DISPLAYS - n,
{
    if n < END_OF_DISPLAYS && taken.contains(n as u32) {
        free_display_is_free(taken, n + 1);
    }
}

} // verus!
