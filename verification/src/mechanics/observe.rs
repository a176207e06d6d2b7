//! The one place that updates a project's derived state: user activity and idle stage,
//! snapshot bookkeeping, and which snapshot the shrink guard looks at next, including snapshots
//! taken without stats. Operations take and delete snapshots, then report here.

use vstd::prelude::*;

use crate::btrfs::SubvolInfo;
use crate::config::schema::{LifecyclePolicy, SnapshotPolicy};
use crate::hooks::HookCtx;
use crate::mechanics::Target;
use crate::policy::change::user_changed;
#[allow(unused_imports)]
use crate::policy::change::changed_by_user;
use crate::policy::lifecycle::stage_for_idle;
#[allow(unused_imports)]
use crate::policy::lifecycle::idle_stage;
use crate::policy::shrink::reset;
#[allow(unused_imports)]
use crate::policy::shrink::mark_of;
use crate::store::{newest_at, ProjectState, SnapshotMeta, Stage};
#[allow(unused_imports)]
use crate::store::meta::counted;
#[allow(unused_imports)]
use crate::store::{is_newest, newest_index};
use crate::util::time::{age, Timestamp};
#[allow(unused_imports)]
use crate::util::time::elapsed;

verus! {

/// Whether the guard may have a snapshot counted that was taken without stats.
#[derive(Clone, Copy, Debug, PartialEq, Eq, Structural)]
pub enum Walk {
    /// Only evaluate snapshots that already have stats (commands that must stay fast).
    Never,
    /// Walk when `snapshot.stats_min_interval` allows it (the tick).
    Throttled,
    /// Always walk (explicit commands such as `unfreeze`).
    Always,
}

pub open spec fn larger(a: u64, b: u64) -> u64 {
    if a >= b {
        a
    } else {
        b
    }
}

fn max_of(a: u64, b: u64) -> (r: u64)
    ensures
        r == larger(a, b),
{
    if a >= b {
        a
    } else {
        b
    }
}

/// The earlier of two instants.
pub open spec fn earlier(a: Timestamp, b: Timestamp) -> Timestamp {
    if b.ns < a.ns {
        b
    } else {
        a
    }
}

fn min_of(a: Timestamp, b: Timestamp) -> (r: Timestamp)
    ensures
        r == earlier(a, b),
{
    if b.ns < a.ns {
        b
    } else {
        a
    }
}

/// The live subvolume holds a change of the user that no observation has counted yet.
pub open spec fn newly_changed(live: SubvolInfo, st: ProjectState) -> bool {
    changed_by_user(live, st) && live.ctransid > st.seen_ctransid
}

/// When a change happened: at the time that the subvolume gives, but not later than now.
pub open spec fn change_time(live: SubvolInfo, now: Timestamp) -> Timestamp {
    match live.ctime {
        Some(c) => earlier(c, now),
        None => earlier(now, now),
    }
}

/// The state after an observation of the live subvolume.
pub open spec fn observed(st: ProjectState, live: SubvolInfo, now: Timestamp) -> ProjectState {
    ProjectState {
        last_change_at: if newly_changed(live, st) {
            Some(change_time(live, now))
        } else {
            st.last_change_at
        },
        seen_ctransid: larger(st.seen_ctransid, live.ctransid),
        ..st
    }
}

/// Counts live changes since the previous observation as user activity. Returns true when the
/// project changed.
pub fn note_live(st: &mut ProjectState, live: &SubvolInfo, now: Timestamp) -> (r: bool)
    ensures
        r == newly_changed(*live, *old(st)),
        *final(st) == observed(*old(st), *live, now),
{
    let changed = user_changed(live, st) && live.ctransid > st.seen_ctransid;
    if changed {
        let at = match live.ctime {
            Some(c) => c,
            None => now,
        };
        st.last_change_at = Some(min_of(at, now));
    }
    st.seen_ctransid = max_of(st.seen_ctransid, live.ctransid);
    changed
}

/// The state after the tool itself changed the live tree.
pub open spec fn tool_changed(
    st: ProjectState,
    before: SubvolInfo,
    after: SubvolInfo,
    now: Timestamp,
) -> ProjectState {
    let o = observed(st, before, now);
    ProjectState {
        tool_ctransid: larger(o.tool_ctransid, after.ctransid),
        seen_ctransid: larger(o.seen_ctransid, after.ctransid),
        ..o
    }
}

/// The tool itself changed the live tree (banlist subvolumes, conversion, recompression).
/// `before` is read just before the change, so user changes made earlier still count.
pub fn note_tool_change(
    st: &mut ProjectState,
    before: &SubvolInfo,
    after: &SubvolInfo,
    now: Timestamp,
)
    ensures
        *final(st) == tool_changed(*old(st), *before, *after, now),
{
    note_live(st, before, now);
    st.tool_ctransid = max_of(st.tool_ctransid, after.ctransid);
    st.seen_ctransid = max_of(st.seen_ctransid, after.ctransid);
}

/// What the tool itself changes is no user activity: neither the change itself nor a later look
/// at the unchanged tree touches the idle clock, and every later change of the user does.
pub proof fn law_tool_changes_are_no_activity(
    st: ProjectState,
    before: SubvolInfo,
    after: SubvolInfo,
    later: SubvolInfo,
    now: Timestamp,
    then_at: Timestamp,
)
    requires
        !newly_changed(before, st),
    ensures
        tool_changed(st, before, after, now).last_change_at == st.last_change_at,
        later.ctransid <= after.ctransid ==> observed(
            tool_changed(st, before, after, now),
            later,
            then_at,
        ).last_change_at == st.last_change_at,
        (later.ctransid > after.ctransid && later.ctransid > before.ctransid && newly_changed(
            later,
            st,
        )) ==> newly_changed(later, tool_changed(st, before, after, now)),
{
}

/// Every change is counted once: a second look at the same tree finds nothing new.
pub proof fn law_changes_count_once(st: ProjectState, live: SubvolInfo, now: Timestamp)
    ensures
        !newly_changed(live, observed(st, live, now)),
{
}

pub open spec fn snapshot_noted(st: ProjectState, m: SnapshotMeta) -> ProjectState {
    ProjectState {
        last_snapshot_at: Some(m.created),
        last_stats_at: if m.stats is Some {
            Some(m.created)
        } else {
            st.last_stats_at
        },
        ..st
    }
}

pub fn note_snapshot(st: &mut ProjectState, m: &SnapshotMeta)
    ensures
        *final(st) == snapshot_noted(*old(st), *m),
{
    st.last_snapshot_at = Some(m.created);
    if m.stats.is_some() {
        st.last_stats_at = Some(m.created);
    }
}

/// Treats `m` as checked without comparing it (a state the user explicitly asked for).
pub fn mark_evaluated(st: &mut ProjectState, m: &SnapshotMeta)
    ensures
        *final(st) == (ProjectState { guard_seen: larger(old(st).guard_seen, m.id), ..*old(st) }),
{
    st.guard_seen = max_of(st.guard_seen, m.id);
}

pub open spec fn accepted(st: ProjectState, m: SnapshotMeta) -> ProjectState {
    ProjectState {
        guard_seen: larger(st.guard_seen, m.id),
        ref_stats: if counted(m) {
            Some(mark_of(m.stats->0, m.id))
        } else {
            st.ref_stats
        },
        ..st
    }
}

/// The user chose this snapshot's state (rollback, recreate): it is evaluated and becomes the
/// shrink-guard reference.
pub fn accept_as_reference(st: &mut ProjectState, m: &SnapshotMeta)
    ensures
        *final(st) == accepted(*old(st), *m),
{
    mark_evaluated(st, m);
    if let Some(s) = m.complete_stats() {
        st.ref_stats = Some(reset(s, m.id));
    }
}

/// A rollback replaced the live subvolume: counters start over and the rollback is activity.
pub fn note_replaced_live(st: &mut ProjectState, live: &SubvolInfo, now: Timestamp)
    ensures
        *final(st) == (ProjectState {
            seen_ctransid: live.ctransid,
            tool_ctransid: live.ctransid,
            last_change_at: Some(now),
            collapse_incomplete_ctransid: None,
            ..*old(st)
        }),
{
    st.seen_ctransid = live.ctransid;
    st.tool_ctransid = live.ctransid;
    st.last_change_at = Some(now);
    st.collapse_incomplete_ctransid = None;
}

/// The state of a project with a new live subvolume, of which `m` is the first snapshot.
pub open spec fn started(
    st: ProjectState,
    m: SnapshotMeta,
    info: SubvolInfo,
    p: LifecyclePolicy,
    last_change: Timestamp,
    now: Timestamp,
) -> ProjectState {
    let s = accepted(
        snapshot_noted(
            ProjectState {
                seen_ctransid: info.ctransid,
                tool_ctransid: info.ctransid,
                collapse_incomplete_ctransid: None,
                ..st
            },
            m,
        ),
        m,
    );
    ProjectState {
        last_change_at: Some(earlier(last_change, now)),
        stage: idle_stage(elapsed(now, last_change), p),
        stage_since: Some(now),
        frozen: None,
        missing_since: None,
        ..s
    }
}

/// Fresh derived state for a new live subvolume (adopt, recreate, unarchive) whose first
/// snapshot is `meta`; `info` is what btrfs says of it after a flush.
pub fn init_new_live(
    st: &mut ProjectState,
    p: &LifecyclePolicy,
    meta: &SnapshotMeta,
    info: &SubvolInfo,
    last_change: Timestamp,
    now: Timestamp,
)
    ensures
        *final(st) == started(*old(st), *meta, *info, *p, last_change, now),
{
    st.seen_ctransid = info.ctransid;
    st.tool_ctransid = info.ctransid;
    st.collapse_incomplete_ctransid = None;
    note_snapshot(st, meta);
    accept_as_reference(st, meta);
    st.last_change_at = Some(min_of(last_change, now));
    st.stage = stage_for_idle(age(now, last_change), p);
    st.stage_since = Some(now);
    st.frozen = None;
    st.missing_since = None;
}

/// The stage that the time since the last change calls for.
pub open spec fn due_stage(
    st: ProjectState,
    p: LifecyclePolicy,
    adopted: Timestamp,
    now: Timestamp,
) -> Stage {
    let since = match st.last_change_at {
        Some(t) => t,
        None => adopted,
    };
    idle_stage(elapsed(now, since), p)
}

/// Moves the idle stage to where the time since the last change puts it; says from where to
/// where, unless it is there already.
pub fn update_stage(
    st: &mut ProjectState,
    p: &LifecyclePolicy,
    adopted: Timestamp,
    now: Timestamp,
) -> (r: Option<(Stage, Stage)>)
    ensures
        ({
            let due = due_stage(*old(st), *p, adopted, now);
            if old(st).stage == due {
                r is None && *final(st) == *old(st)
            } else {
                r == Some((old(st).stage, due)) && *final(st) == (ProjectState {
                    stage: due,
                    stage_since: Some(now),
                    ..*old(st)
                })
            }
        }),
{
    let since = match st.last_change_at {
        Some(t) => t,
        None => adopted,
    };
    st.set_stage(stage_for_idle(age(now, since), p), now)
}

/// What the hooks are told of a new stage.
pub fn stage_hook(t: &Target, from: Stage, to: Stage) -> (r: HookCtx)
    ensures
        r.project == Some(t.name),
        r.project_path == Some(t.live),
        r.owner == t.owner,
        r.root == Some(t.root),
        r.snapshot is None,
        r.stage == Some((from, to)),
        r.reason@ == "idle"@,
        r.extra@ == Seq::<(String, String)>::empty(),
{
    HookCtx {
        project: Some(t.name.clone()),
        project_path: Some(t.live.clone()),
        owner: t.owner,
        root: Some(t.root.clone()),
        snapshot: None,
        stage: Some((from, to)),
        reason: "idle".to_owned(),
        extra: Vec::new(),
    }
}

/// How long the last walk took, of the snapshots that were walked.
pub open spec fn last_walk(snaps: Seq<SnapshotMeta>) -> Option<u64>
    decreases snaps.len(),
{
    if snaps.len() == 0 {
        None
    } else if snaps.last().stats is Some {
        Some(snaps.last().stats->0.walk_ms)
    } else {
        last_walk(snaps.drop_last())
    }
}

fn last_walk_ms(snaps: &Vec<SnapshotMeta>) -> (r: Option<u64>)
    ensures
        r == last_walk(snaps@),
{
    let mut i: usize = snaps.len();
    assert(snaps@.take(i as int) =~= snaps@);
    while i > 0
        invariant
            i <= snaps@.len(),
            last_walk(snaps@) == last_walk(snaps@.take(i as int)),
        decreases i,
    {
        assert(snaps@.take(i as int).drop_last() =~= snaps@.take(i - 1));
        i -= 1;
        if let Some(s) = &snaps[i].stats {
            return Some(s.walk_ms);
        }
    }
    None
}

/// A new snapshot is counted: trees that are cheap to walk every time, others at most once in an
/// interval.
pub open spec fn stats_due(
    p: SnapshotPolicy,
    st: ProjectState,
    snaps: Seq<SnapshotMeta>,
    now: Timestamp,
) -> bool {
    p.stats && (st.last_stats_at is None || match last_walk(snaps) {
        None => true,
        Some(ms) => ms < 2000 || elapsed(now, st.last_stats_at->0) >= p.stats_min_interval.ns,
    })
}

/// Counts stats for trees that are cheap to walk every time, others at most every
/// `snapshot.stats_min_interval`.
pub fn want_stats(
    p: &SnapshotPolicy,
    st: &ProjectState,
    snaps: &Vec<SnapshotMeta>,
    now: Timestamp,
) -> (r: bool)
    ensures
        r == stats_due(*p, *st, snaps@, now),
{
    if !p.stats {
        return false;
    }
    match (st.last_stats_at, last_walk_ms(snaps)) {
        (None, _) => true,
        (_, None) => true,
        (Some(t), Some(ms)) => ms < 2000 || age(now, t).ns >= p.stats_min_interval.ns,
    }
}

/// What the guard does next.
#[derive(Clone, Copy, Debug, PartialEq, Eq, Structural)]
pub enum GuardStep {
    /// It has looked at the newest snapshot, or has to wait.
    Nothing,
    /// The snapshot at this position has to be counted first.
    Count(usize),
    /// The snapshot at this position can be evaluated.
    Check(usize),
}

pub open spec fn next_guard_step(
    st: ProjectState,
    snaps: Seq<SnapshotMeta>,
    p: SnapshotPolicy,
    now: Timestamp,
    walk: Walk,
) -> GuardStep {
    match newest_index(snaps) {
        None => GuardStep::Nothing,
        Some(i) => if snaps[i].id <= st.guard_seen {
            GuardStep::Nothing
        } else if snaps[i].stats is Some {
            GuardStep::Check(i as usize)
        } else if walk == Walk::Always || (walk == Walk::Throttled && stats_due(p, st, snaps, now)) {
            GuardStep::Count(i as usize)
        } else {
            GuardStep::Nothing
        },
    }
}

/// Which snapshot the guard looks at: the newest, unless that already happened, counted first
/// where `walk` allows.
pub fn evaluate_guard(
    st: &ProjectState,
    snaps: &Vec<SnapshotMeta>,
    p: &SnapshotPolicy,
    now: Timestamp,
    walk: Walk,
) -> (r: GuardStep)
    ensures
        r == next_guard_step(*st, snaps@, *p, now, walk),
        match r {
            GuardStep::Nothing => true,
            GuardStep::Count(i) => is_newest(snaps@, i as int) && snaps@[i as int].stats is None,
            GuardStep::Check(i) => is_newest(snaps@, i as int) && snaps@[i as int].stats is Some,
        },
{
    match newest_at(snaps) {
        None => GuardStep::Nothing,
        Some(i) => {
            if snaps[i].id <= st.guard_seen {
                return GuardStep::Nothing;
            }
            if snaps[i].stats.is_some() {
                return GuardStep::Check(i);
            }
            let go = match walk {
                Walk::Never => false,
                Walk::Throttled => want_stats(p, st, snaps, now),
                Walk::Always => true,
            };
            if go {
                GuardStep::Count(i)
            } else {
                GuardStep::Nothing
            }
        },
    }
}

/// The guard has looked at the newest snapshot.
pub open spec fn guard_up_to_date(st: ProjectState, snaps: Seq<SnapshotMeta>) -> bool {
    match newest_index(snaps) {
        None => true,
        Some(i) => snaps[i].id <= st.guard_seen,
    }
}

/// Retention and collapse may delete snapshots only once the guard has seen the newest one:
/// otherwise a loss captured by a snapshot without stats would thin away the good state.
pub fn thin_allowed(st: &ProjectState, snaps: &Vec<SnapshotMeta>) -> (r: bool)
    ensures
        r == guard_up_to_date(*st, snaps@),
{
    match newest_at(snaps) {
        None => true,
        Some(i) => snaps[i].id <= st.guard_seen,
    }
}

/// The guard is up to date exactly when it has nothing left to look at.
pub proof fn law_guard_looks_at_every_snapshot(
    st: ProjectState,
    snaps: Seq<SnapshotMeta>,
    p: SnapshotPolicy,
    now: Timestamp,
    walk: Walk,
)
    ensures
        next_guard_step(st, snaps, p, now, walk) != GuardStep::Nothing ==> !guard_up_to_date(
            st,
            snaps,
        ),
        next_guard_step(st, snaps, p, now, Walk::Always) == GuardStep::Nothing
            <==> guard_up_to_date(st, snaps),
{
}

/// An observation starts the idle clock anew exactly where the content changed later than the last
/// snapshot, the last change of the tool and everything that was observed before. It starts at the
/// time that the subvolume gives, never in the future, and nothing else changes but how far was
/// looked.
pub proof fn law_observations_follow_the_counter(st: ProjectState, live: SubvolInfo, now: Timestamp)
    ensures
        ({
            let o = observed(st, live, now);
            let changed = live.ctransid > st.snap_ctransid && live.ctransid > st.tool_ctransid
                && live.ctransid > st.seen_ctransid;
            &&& newly_changed(live, st) <==> changed
            &&& changed ==> o.last_change_at is Some && o.last_change_at->0.ns <= now.ns && match live.ctime {
                Some(c) => o.last_change_at->0.ns <= c.ns && (o.last_change_at->0 == c
                    || o.last_change_at->0 == now),
                None => o.last_change_at->0 == now,
            }
            &&& !changed ==> o.last_change_at == st.last_change_at
            &&& o.seen_ctransid >= st.seen_ctransid && o.seen_ctransid >= live.ctransid
            &&& o.seen_ctransid == st.seen_ctransid || o.seen_ctransid == live.ctransid
            &&& o.tool_ctransid == st.tool_ctransid && o.snap_ctransid == st.snap_ctransid
            &&& o.stage == st.stage && o.frozen == st.frozen && o.ref_stats == st.ref_stats
        }),
{
}

/// The stage goes by the time since the last change, or since the adoption where none is known:
/// cold from `cold_after` on, dormant from `dormant_after` on, active before.
pub proof fn law_stages_follow_the_last_change(
    st: ProjectState,
    p: LifecyclePolicy,
    adopted: Timestamp,
    now: Timestamp,
)
    requires
        0 < p.dormant_after.ns <= p.cold_after.ns,
    ensures
        ({
            let since = if st.last_change_at is Some {
                st.last_change_at->0.ns
            } else {
                adopted.ns
            };
            let due = due_stage(st, p, adopted, now);
            &&& due == Stage::Cold <==> now.ns - since >= p.cold_after.ns
            &&& due == Stage::Dormant <==> p.dormant_after.ns <= now.ns - since < p.cold_after.ns
            &&& due == Stage::Active <==> now.ns - since < p.dormant_after.ns
        }),
{
}

/// The state that the user chose is what the guard compares with from then on, where it could be
/// counted, and counts as looked at; nothing else changes.
pub proof fn law_accepted_states_are_the_reference(st: ProjectState, m: SnapshotMeta)
    ensures
        ({
            let a = accepted(st, m);
            &&& a.guard_seen >= m.id && a.guard_seen >= st.guard_seen
            &&& a.guard_seen == m.id || a.guard_seen == st.guard_seen
            &&& if m.stats is Some && m.stats->0.complete {
                a.ref_stats is Some && a.ref_stats->0.files == m.stats->0.files
                    && a.ref_stats->0.bytes == m.stats->0.bytes && a.ref_stats->0.files_snap == m.id
                    && a.ref_stats->0.bytes_snap == m.id
            } else {
                a.ref_stats == st.ref_stats
            }
            &&& a.frozen == st.frozen && a.stage == st.stage && a.last_change_at
                == st.last_change_at
        }),
{
}

/// A new live subvolume starts unfrozen and not missing, with its first snapshot as the reference
/// of the guard, with nothing of it counted as a change of the user, and at the stage that the time
/// since its last change calls for.
pub proof fn law_new_projects_start_clean(
    st: ProjectState,
    m: SnapshotMeta,
    info: SubvolInfo,
    p: LifecyclePolicy,
    last_change: Timestamp,
    now: Timestamp,
)
    requires
        0 < p.dormant_after.ns <= p.cold_after.ns,
    ensures
        ({
            let n = started(st, m, info, p, last_change, now);
            &&& n.frozen is None && n.missing_since is None && n.collapse_incomplete_ctransid is None
            &&& n.guard_seen >= m.id
            &&& m.stats is Some && m.stats->0.complete ==> n.ref_stats is Some
                && n.ref_stats->0.files == m.stats->0.files && n.ref_stats->0.bytes
                == m.stats->0.bytes
            &&& n.tool_ctransid == info.ctransid && n.seen_ctransid == info.ctransid
            &&& n.last_snapshot_at == Some(m.created)
            &&& n.last_change_at is Some && n.last_change_at->0.ns <= now.ns
                && n.last_change_at->0.ns <= last_change.ns
            &&& last_change.ns <= now.ns ==> n.last_change_at == Some(last_change)
            &&& n.stage == Stage::Cold <==> now.ns - last_change.ns >= p.cold_after.ns
            &&& n.stage == Stage::Active <==> now.ns - last_change.ns < p.dormant_after.ns
            &&& !newly_changed(info, n)
        }),
{
}

/// A snapshot is counted where counting is on and either nothing was counted yet, or the last walk
/// took less than two seconds, or the last count is as old as the interval asks for.
pub proof fn law_counting_is_throttled_by_its_cost(
    p: SnapshotPolicy,
    st: ProjectState,
    snaps: Seq<SnapshotMeta>,
    k: int,
    now: Timestamp,
)
    requires
        0 <= k < snaps.len(),
        snaps[k].stats is Some,
        forall|i: int| k < i < snaps.len() ==> (#[trigger] snaps[i]).stats is None,
    ensures
        stats_due(p, st, snaps, now) <==> p.stats && (st.last_stats_at is None
            || snaps[k].stats->0.walk_ms < 2_000 || p.stats_min_interval.ns == 0 || now.ns
            - st.last_stats_at->0.ns >= p.stats_min_interval.ns),
{
    lemma_last_walk(snaps, k);
}

proof fn lemma_last_walk(snaps: Seq<SnapshotMeta>, k: int)
    requires
        0 <= k < snaps.len(),
        snaps[k].stats is Some,
        forall|i: int| k < i < snaps.len() ==> (#[trigger] snaps[i]).stats is None,
    ensures
        last_walk(snaps) == Some(snaps[k].stats->0.walk_ms),
    decreases snaps.len(),
{
    assert(snaps.last() == snaps[snaps.len() - 1]);
    if k < snaps.len() - 1 {
        let rest = snaps.drop_last();
        assert forall|i: int| k < i < rest.len() implies (#[trigger] rest[i]).stats is None by {
            assert(rest[i] == snaps[i]);
        }
        lemma_last_walk(rest, k);
    }
}

/// The guard is up to date exactly where no snapshot that is newer than all others has an id that
/// it has not seen: a snapshot beyond what it has seen keeps retention waiting.
pub proof fn law_unseen_snapshots_keep_retention_waiting(
    st: ProjectState,
    snaps: Seq<SnapshotMeta>,
    n: int,
)
    requires
        0 <= n < snaps.len(),
        forall|j: int|
            0 <= j < snaps.len() && j != n ==> (#[trigger] snaps[j]).snapshot_otransid
                < snaps[n].snapshot_otransid || (snaps[j].snapshot_otransid
                == snaps[n].snapshot_otransid && snaps[j].id < snaps[n].id),
    ensures
        guard_up_to_date(st, snaps) <==> snaps[n].id <= st.guard_seen,
        guard_up_to_date(st, Seq::empty()),
{
    crate::store::lemma_newest(snaps);
    assert(is_newest(snaps, n));
    crate::store::lemma_newest_unique(snaps, n, newest_index(snaps)->0);
}

/// A snapshot is noted with the time it was taken at, and as a count as well where it was counted.
pub proof fn law_snapshots_are_noted_with_their_time(st: ProjectState, m: SnapshotMeta)
    ensures
        ({
            let f = snapshot_noted(st, m);
            &&& f.last_snapshot_at == Some(m.created)
            &&& m.stats is Some ==> f.last_stats_at == Some(m.created)
            &&& m.stats is None ==> f.last_stats_at == st.last_stats_at
            &&& f == ProjectState {
                last_snapshot_at: f.last_snapshot_at,
                last_stats_at: f.last_stats_at,
                ..st
            }
        }),
{
}

} // verus!
