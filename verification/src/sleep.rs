//! Sleep integration: what the daemon does on each of logind's `PrepareForSleep` signals.
//!
//! A *delay* inhibitor is held between transitions. Before the system sleeps every reader is
//! suspended and only then is the inhibitor released, which lets the sleep proceed; after it
//! resumes every reader is resumed and a fresh inhibitor is taken for the next cycle (a failure
//! to take one leaves none held until the following resume).

use vstd::prelude::*;

verus! {

/// What to do on a `PrepareForSleep` signal.
#[derive(Clone, Copy, Debug, PartialEq, Eq, Structural)]
pub enum SleepAction {
    /// Suspend every reader, then release the inhibitor.
    SuspendThenRelease,
    /// Resume every reader, then take a fresh inhibitor.
    ResumeThenRearm,
}

/// The action for `PrepareForSleep(start)`, and whether an inhibitor is held afterwards, given
/// whether re-arming (after a resume) succeeded.
pub fn sleep_step(start: bool, rearmed: bool) -> (r: (SleepAction, bool))
    ensures
        start ==> r == (SleepAction::SuspendThenRelease, false),
        !start ==> r == (SleepAction::ResumeThenRearm, rearmed),
{
    if start {
        (SleepAction::SuspendThenRelease, false)
    } else {
        (SleepAction::ResumeThenRearm, rearmed)
    }
}

/// The inhibitor requested from logind: what (`sleep`), who (the daemon's bus name), why, and
/// the mode (`delay`).
pub fn inhibitor_request() -> (r: (&'static str, &'static str, &'static str, &'static str))
    ensures
        r.0@ == "sleep"@,
        r.1@ == "net.reactivated.Fprint"@,
        r.2@ == "Suspend fingerprint readers"@,
        r.3@ == "delay"@,
{
    ("sleep", "net.reactivated.Fprint", "Suspend fingerprint readers", "delay")
}

} // verus!
