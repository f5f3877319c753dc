//! What a change of the settings means for those who hold a copy.

use vstd::prelude::*;

use crate::error::CobwebError;
use crate::jar::Jar;
use crate::settings::{at_least_one, RuntimeSettings, SettingsPatch, SettingsView};

verus! {

/// Apply a change, then push the lifetime and the streak into the jar. The
/// settings as they are now; the browser takes its idle time from there.
pub fn patch(
    settings: &mut RuntimeSettings,
    jar: &mut Jar,
    req: &SettingsPatch,
    made: &Result<(), String>,
) -> (r: Result<SettingsView, CobwebError>)
    requires
        old(settings).wf(),
    ensures
        final(settings).wf(),
        final(jar).root() == old(jar).root(),
        match req@.fault(
            match *made {
                Ok(()) => Ok(()),
                Err(e) => Err(e@),
            },
        ) {
            Some(f) => r matches Err(e) && e@ == f && final(settings).model() == old(settings).model() && final(jar).ttl() == old(jar).ttl() && final(jar).limit() == old(jar).limit(),
            None => {
                let now = old(settings).model().patched(req@);
                r matches Ok(v) && v@ == now && final(settings).model() == now && final(jar).ttl()
                    == now.jar_default_ttl_secs && final(jar).limit() == at_least_one(
                    now.jar_fail_streak,
                )
            },
        },
{
    match settings.apply(req, made) {
        Ok(view) => {
            jar.set_default_ttl_secs(view.jar_default_ttl_secs);
            jar.set_fail_streak(view.jar_fail_streak);
            Ok(view)
        },
        Err(e) => Err(e),
    }
}

} // verus!
