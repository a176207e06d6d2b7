//! Locks: how long to wait for one, and when one guards nothing.

use vstd::prelude::*;

use crate::error::BpmError;
use crate::outside;
use crate::util::text::{cat2, cat3, cat5, dec_u64, trim};
#[allow(unused_imports)]
use crate::util::text::{dec, trimmed};
use crate::util::time::{Duration, Timestamp};

verus! {

/// How long to sleep between two attempts, in milliseconds.
pub const RETRY_MS: u64 = 100;

/// What comes after an attempt to take a lock.
pub enum LockStep {
    /// See whether the lock still guards its path.
    Check,
    /// Sleep and try again.
    Wait,
    Fail(BpmError),
}

/// A lock that someone else has is not waited for any longer.
pub open spec fn gives_up(taken: bool, waited: Duration, timeout: Duration) -> bool {
    !taken && waited.ns >= timeout.ns
}

/// What comes after an attempt to take a lock for `what`: `holder` is what the file says of who
/// has it.
pub fn after_attempt(
    taken: bool,
    waited: Duration,
    timeout: Duration,
    what: &str,
    holder: &str,
) -> (r: LockStep)
    ensures
        match r {
            LockStep::Check => taken,
            LockStep::Wait => !taken && waited.ns < timeout.ns,
            LockStep::Fail(e) => !taken && waited.ns >= timeout.ns && e is Locked
                && e->Locked_holder@ == what@ + ": "@ + trimmed(holder@),
        },
        r is Fail == gives_up(taken, waited, timeout),
{
    if taken {
        LockStep::Check
    } else if waited.ns >= timeout.ns {
        LockStep::Fail(BpmError::Locked { holder: cat3(what, ": ", trim(holder).as_str()) })
    } else {
        LockStep::Wait
    }
}

/// Whether two files are one: by device and inode, where both can be read.
pub fn same_file(a: Option<(u64, u64)>, b: Option<(u64, u64)>) -> (r: bool)
    ensures
        r == (a is Some && a == b),
{
    match (a, b) {
        (Some(x), Some(y)) => x.0 == y.0 && x.1 == y.1,
        _ => false,
    }
}

/// The lock is worth having only where the file at its path is still the one that was locked: the
/// one who had it may have removed or moved it.
pub fn check_guards(same: bool, what: &str) -> (r: Result<(), BpmError>)
    ensures
        match r {
            Ok(_) => same,
            Err(e) => !same && e is Locked && e->Locked_holder@ == what@
                + ": removed or moved while waiting"@,
        },
{
    if same {
        return Ok(());
    }
    Err(BpmError::Locked { holder: cat2(what, ": removed or moved while waiting") })
}

/// What a lock file says of who has it.
pub fn description(pid: u32, since: Timestamp, argv: &str) -> (r: String)
    ensures
        r@ == "pid="@ + dec(pid as nat) + " since="@ + outside::instant_written(since.ns as int)
            + " cmd="@ + argv@,
{
    let mut s = cat5(
        "pid=",
        dec_u64(pid as u64).as_str(),
        " since=",
        outside::instant_text(since).as_str(),
        " cmd=",
    );
    s.append(argv);
    s
}

/// A lock that was taken is never given up, and any other one is waited for until the timeout, not
/// at all where that is zero.
pub proof fn law_locks_are_waited_for_until_the_timeout(waited: Duration, timeout: Duration)
    ensures
        !gives_up(true, waited, timeout),
        gives_up(false, waited, timeout) <==> timeout.ns <= waited.ns,
        timeout.ns == 0 ==> gives_up(false, waited, timeout),
{
}

} // verus!
