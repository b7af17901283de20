//! Decisions about lock files.

use vstd::prelude::*;

verus! {

/// What a lock file says of its holder.
#[derive(Debug, Clone, Copy, PartialEq, Eq, Structural)]
pub struct LockContent {
    /// Process that holds the lock.
    pub pid: u32,
    /// When it took the lock, in milliseconds since the start of 1970.
    pub started_at: u64,
}

/// What to do about the daemon's lock.
#[derive(Debug, Clone, Copy, PartialEq, Eq, Structural)]
pub enum LockStep {
    /// The lock was taken: write the holder into the file.
    Taken,
    /// The lock is left over from a process that is gone: remove the file and try
    /// again.
    RemoveAndRetry,
    /// Another process holds the lock.
    Held,
}

/// Whether a lock is left over: its file cannot be read, or its holder is gone.
pub open spec fn stale(holder: Option<LockContent>, alive: bool) -> bool {
    holder is None || !alive
}

/// Whether a lock is left over, given what its file says, where it can be read, and
/// whether that process is alive.
pub fn is_stale_lock(holder: Option<LockContent>, alive: bool) -> (r: bool)
    ensures
        r == stale(holder, alive),
{
    holder.is_none() || !alive
}

/// Decides after an attempt to take the daemon's lock. The holder matters only
/// where the lock was not taken.
pub fn daemon_lock_step(taken: bool, holder: Option<LockContent>, alive: bool) -> (step: LockStep)
    ensures
        step == step_for(taken, holder, alive),
{
    if taken {
        LockStep::Taken
    } else if is_stale_lock(holder, alive) {
        LockStep::RemoveAndRetry
    } else {
        LockStep::Held
    }
}

/// What came of probing a lock file that others may hold.
#[derive(Debug, Clone, Copy, PartialEq, Eq, Structural)]
pub enum LockProbe {
    /// There is no file.
    Missing,
    /// The file cannot be opened.
    CannotOpen,
    /// The lock could be taken, and was given back.
    Acquired,
    /// Another process has the lock.
    Refused,
    /// The attempt failed.
    Failed,
}

/// Whether a lock counts as held: unless there is no file or the lock could be
/// taken. In doubt it does.
pub fn is_held(probe: LockProbe) -> (r: bool)
    ensures
        r == counts_as_held(probe),
{
    match probe {
        LockProbe::Missing => false,
        LockProbe::Acquired => false,
        _ => true,
    }
}

/// The directory that exists while a process is alive.
pub fn process_directory(pid: u32) -> (path: String)
    ensures
        path@ == "/proc/"@ + crate::text::decimal(pid as nat),
{
    let mut path = "/proc/".to_owned();
    path.append(crate::text::decimal_string(pid as u64).as_str());
    path
}

/// What comes after an attempt to take the lock.
pub open spec fn step_for(taken: bool, holder: Option<LockContent>, alive: bool) -> LockStep {
    if taken {
        LockStep::Taken
    } else if stale(holder, alive) {
        LockStep::RemoveAndRetry
    } else {
        LockStep::Held
    }
}

/// The lock of a process that lives is never removed; one whose holder is gone or cannot be
/// read is.
pub proof fn live_locks_are_respected(taken: bool, holder: Option<LockContent>, alive: bool)
    ensures
        holder is Some && alive ==> step_for(taken, holder, alive) != LockStep::RemoveAndRetry,
        !taken && holder is Some && alive ==> step_for(taken, holder, alive) == LockStep::Held,
        !taken && !alive ==> step_for(taken, holder, alive) == LockStep::RemoveAndRetry,
        !taken && holder is None ==> step_for(taken, holder, alive) == LockStep::RemoveAndRetry,
        step_for(taken, holder, alive) == LockStep::Taken <==> taken,
{
}

/// The lock counts as held after this look at it.
pub open spec fn counts_as_held(probe: LockProbe) -> bool {
    !(probe == LockProbe::Missing || probe == LockProbe::Acquired)
}

/// A lock is free only where that is certain: there is no file, or the lock could be taken.
pub proof fn doubtful_locks_are_held(probe: LockProbe)
    ensures
        !counts_as_held(LockProbe::Missing),
        !counts_as_held(LockProbe::Acquired),
        probe == LockProbe::CannotOpen || probe == LockProbe::Refused || probe == LockProbe::Failed ==> counts_as_held(
            probe,
        ),
{
}

} // verus!
