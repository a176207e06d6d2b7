//! Idle stages. Orphaned and archived are set by the commands, not by idle time.

use vstd::prelude::*;

use crate::config::schema::LifecyclePolicy;
use crate::store::Stage;
use crate::util::time::Duration;

verus! {

/// The stage that a time without changes leads to.
pub open spec fn idle_stage(idle: int, p: LifecyclePolicy) -> Stage {
    if idle >= p.cold_after.ns {
        Stage::Cold
    } else if idle >= p.dormant_after.ns {
        Stage::Dormant
    } else {
        Stage::Active
    }
}

/// The stage that a time without changes leads to.
pub fn stage_for_idle(idle: Duration, p: &LifecyclePolicy) -> (r: Stage)
    ensures
        r == idle_stage(idle.ns as int, *p),
{
    if idle.ns >= p.cold_after.ns {
        Stage::Cold
    } else if idle.ns >= p.dormant_after.ns {
        Stage::Dormant
    } else {
        Stage::Active
    }
}

/// How far a stage is from activity.
pub open spec fn stage_rank(s: Stage) -> int {
    match s {
        Stage::Active => 0,
        Stage::Dormant => 1,
        Stage::Cold => 2,
        Stage::Orphaned => 3,
        Stage::Archived => 4,
    }
}

/// More idle time never brings a project closer to activity, and no time at all makes it
/// orphaned or archived.
pub proof fn law_idleness_is_monotone(a: int, b: int, p: LifecyclePolicy)
    requires
        a <= b,
    ensures
        stage_rank(idle_stage(a, p)) <= stage_rank(idle_stage(b, p)),
        stage_rank(idle_stage(b, p)) <= 2,
{
}

/// A project is cold exactly from `cold_after` on, dormant exactly from `dormant_after` on as long
/// as it is not cold, and active before: each threshold is read, and counts from its own instant.
pub proof fn law_stages_begin_at_their_thresholds(idle: int, p: LifecyclePolicy)
    ensures
        idle_stage(idle, p) == Stage::Cold <==> p.cold_after.ns - idle <= 0,
        idle_stage(idle, p) == Stage::Dormant <==> p.dormant_after.ns <= idle < p.cold_after.ns,
        idle_stage(idle, p) == Stage::Active <==> idle < p.dormant_after.ns && idle
            < p.cold_after.ns,
{
}

} // verus!
