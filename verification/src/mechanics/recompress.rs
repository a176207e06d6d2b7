//! Collapse a project to a single snapshot, and recompress its live tree at a higher zstd level.

use vstd::prelude::*;

use crate::btrfs::{DefragOpts, SubvolInfo};
use crate::config::schema::RecompressPolicy;
use crate::hooks::HookCtx;
use crate::mechanics::adopt::kind_eq;
#[allow(unused_imports)]
use crate::mechanics::adopt::{entry_model, EntryModel};
use crate::mechanics::observe::{note_live, note_tool_change, thin_allowed};
#[allow(unused_imports)]
use crate::mechanics::observe::{guard_up_to_date, observed, tool_changed};
use crate::mechanics::snapshot::SnapOpts;
use crate::policy::change::identical;
#[allow(unused_imports)]
use crate::policy::change::same_content;
use crate::policy::thin::collapse_deletions;
#[allow(unused_imports)]
use crate::policy::thin::collapsed_ids;
use crate::project::ProjectRef;
use crate::store::{
    newest, newest_at, KindClass, ProjectState, RecompressRecord, SnapshotKind, SnapshotMeta,
};
#[allow(unused_imports)]
use crate::store::meta::{class_of, counted};
#[allow(unused_imports)]
use crate::store::{is_newest, lemma_newest, newest_index};
use crate::util::paths::path_starts_with;
#[allow(unused_imports)]
use crate::util::paths::below;
use crate::util::text::{cat2, cat3, cat4, dec_u64, str_eq};
#[allow(unused_imports)]
use crate::util::text::dec;
use crate::util::time::{Duration, Timestamp};
use crate::util::walk::{EntryInfo, EntryKind};

verus! {

pub struct CollapseReport {
    pub new_snapshot: Option<u64>,
    pub deleted: Vec<u64>,
    pub froze: bool,
}

impl CollapseReport {
    /// Nothing was done.
    pub fn new() -> (r: CollapseReport)
        ensures
            r.new_snapshot is None,
            r.deleted@.len() == 0,
            !r.froze,
    {
        CollapseReport { new_snapshot: None, deleted: Vec::new(), froze: false }
    }
}

/// How a collapse begins.
#[derive(Clone, Copy, Debug, PartialEq, Eq, Structural)]
pub enum CollapseStart {
    /// Nothing is deleted while the project is frozen.
    Frozen,
    /// The newest snapshot holds the live state but was taken without stats: count it.
    Count(usize),
    /// The newest snapshot holds the live state and was counted.
    Ready,
    /// Snapshot the live state.
    Take,
}

pub open spec fn collapse_begins(
    st: ProjectState,
    live: SubvolInfo,
    snaps: Seq<SnapshotMeta>,
) -> CollapseStart {
    if st.frozen is Some {
        CollapseStart::Frozen
    } else {
        match newest_index(snaps) {
            Some(i) => if !same_content(live, snaps[i]) {
                CollapseStart::Take
            } else if snaps[i].stats is None {
                CollapseStart::Count(i as usize)
            } else {
                CollapseStart::Ready
            },
            None => CollapseStart::Take,
        }
    }
}

/// Ensures that the newest snapshot equals the live state; `live` is what btrfs says of the
/// project after a flush.
pub fn collapse(
    st: &mut ProjectState,
    live: &SubvolInfo,
    snaps: &Vec<SnapshotMeta>,
    now: Timestamp,
) -> (r: CollapseStart)
    ensures
        r == collapse_begins(*old(st), *live, snaps@),
        r matches CollapseStart::Count(i) ==> is_newest(snaps@, i as int),
        *final(st) == if old(st).frozen is Some {
            *old(st)
        } else {
            observed(*old(st), *live, now)
        },
{
    if st.frozen.is_some() {
        return CollapseStart::Frozen;
    }
    note_live(st, live, now);
    match newest_at(snaps) {
        Some(i) => {
            if !identical(live, &snaps[i]) {
                CollapseStart::Take
            } else if snaps[i].stats.is_none() {
                CollapseStart::Count(i)
            } else {
                CollapseStart::Ready
            }
        },
        None => CollapseStart::Take,
    }
}

/// The snapshot that a collapse takes.
pub fn collapse_snapshot(budget: Duration) -> (r: SnapOpts)
    ensures
        r.kind == SnapshotKind::Collapse,
        r.reason@ == "collapse"@,
        r.stats && r.stats_budget == budget && !r.hold && r.pair is None,
{
    let mut o = SnapOpts::new(SnapshotKind::Collapse, "collapse".to_owned());
    o.stats_budget = budget;
    o
}

/// What a collapse deletes.
pub enum CollapseEnd {
    /// The newest snapshot could not be counted; wait until the project changes.
    Wait(String),
    /// The guard has not seen the newest snapshot.
    Blocked,
    /// Delete the snapshots with these ids.
    Delete(Vec<u64>),
}

/// The newest snapshot was counted completely.
pub open spec fn newest_counted(snaps: Seq<SnapshotMeta>) -> bool {
    match newest_index(snaps) {
        Some(i) => counted(snaps[i]),
        None => false,
    }
}

/// Which older snapshots a collapse deletes, once the newest one holds the live state and the
/// guard let it pass.
pub fn collapse_ids(
    st: &mut ProjectState,
    live: &SubvolInfo,
    snaps: &Vec<SnapshotMeta>,
    name: &str,
    now: Timestamp,
    safety_ttl: Duration,
) -> (r: CollapseEnd)
    ensures
        match r {
            CollapseEnd::Wait(m) => !newest_counted(snaps@) && *final(st) == (ProjectState {
                collapse_incomplete_ctransid: Some(live.ctransid),
                ..*old(st)
            }) && m@ == name@
                + ": counting the newest snapshot exceeded snapshot.stats_budget; not collapsing until the project changes"@,
            CollapseEnd::Blocked => newest_counted(snaps@) && *final(st) == *old(st)
                && !guard_up_to_date(*old(st), snaps@),
            CollapseEnd::Delete(ids) => newest_counted(snaps@) && *final(st) == *old(st)
                && guard_up_to_date(*old(st), snaps@) && ids@ == collapsed_ids(
                snaps@,
                snaps@.len() as int,
                now,
                safety_ttl,
                old(st).frozen is Some,
            ),
        },
{
    let complete = match newest(snaps) {
        Some(n) => n.complete_stats().is_some(),
        None => false,
    };
    if !complete {
        st.collapse_incomplete_ctransid = Some(live.ctransid);
        return CollapseEnd::Wait(
            cat2(
                name,
                ": counting the newest snapshot exceeded snapshot.stats_budget; not collapsing until the project changes",
            ),
        );
    }
    if !thin_allowed(st, snaps) {
        return CollapseEnd::Blocked;
    }
    CollapseEnd::Delete(collapse_deletions(snaps, now, safety_ttl, st.frozen.as_ref()))
}

/// The snapshots without those of one id.
pub open spec fn without_id(s: Seq<SnapshotMeta>, id: u64) -> Seq<SnapshotMeta>
    decreases s.len(),
{
    if s.len() == 0 {
        s
    } else if s.last().id == id {
        without_id(s.drop_last(), id)
    } else {
        without_id(s.drop_last(), id).push(s.last())
    }
}

/// A snapshot was deleted.
pub fn forget_snapshot(snaps: &mut Vec<SnapshotMeta>, id: u64)
    ensures
        final(snaps)@ == without_id(old(snaps)@, id),
{
    let ghost all = snaps@;
    let mut i: usize = 0;
    assert(without_id(all.take(0), id) =~= Seq::<SnapshotMeta>::empty());
    assert(all.skip(0) =~= all);
    let ghost mut done: int = 0;
    while i < snaps.len()
        invariant
            0 <= done <= all.len(),
            i <= snaps@.len(),
            snaps@.take(i as int) == without_id(all.take(done), id),
            snaps@.skip(i as int) == all.skip(done),
        decreases snaps@.len() - i,
    {
        let ghost before = snaps@;
        assert(before.skip(i as int).len() == all.skip(done).len());
        assert(before[i as int] == before.skip(i as int)[0]);
        assert(all.skip(done)[0] == all[done]);
        assert(all.take(done + 1).drop_last() =~= all.take(done));
        if snaps[i].id == id {
            snaps.remove(i);
            assert(snaps@.take(i as int) =~= before.take(i as int));
            assert(snaps@.skip(i as int) =~= before.skip(i as int).skip(1));
            assert(all.skip(done).skip(1) =~= all.skip(done + 1));
        } else {
            assert(snaps@.take(i + 1) =~= before.take(i as int).push(all[done]));
            assert(snaps@.skip(i + 1) =~= before.skip(i as int).skip(1));
            assert(all.skip(done).skip(1) =~= all.skip(done + 1));
            i += 1;
        }
        proof {
            done = done + 1;
        }
    }
    proof {
        assert(snaps@.take(i as int) =~= snaps@);
        assert(all.skip(done).len() == 0);
        assert(all.take(done) =~= all);
    }
}

/// Whether nothing is left to collapse.
pub fn collapsed(snaps: &Vec<SnapshotMeta>, now: Timestamp, safety_ttl: Duration) -> (r: bool)
    ensures
        r == (collapsed_ids(snaps@, snaps@.len() as int, now, safety_ttl, false).len() == 0),
{
    collapse_deletions(snaps, now, safety_ttl, None).len() == 0
}

/// The live tree is worth recompressing: it changed since the last time and is not too large.
pub open spec fn recompress_due(
    p: RecompressPolicy,
    st: ProjectState,
    live_ctransid: u64,
    snaps: Seq<SnapshotMeta>,
) -> bool {
    p.enabled && st.frozen is None && (st.recompress is None || live_ctransid
        > st.recompress->0.ctransid) && newest_counted(snaps)
        && snaps[newest_index(snaps)->0].stats->0.bytes <= p.max_bytes
}

pub fn needs_recompress(
    p: &RecompressPolicy,
    st: &ProjectState,
    live_ctransid: u64,
    snaps: &Vec<SnapshotMeta>,
) -> (r: bool)
    ensures
        r == recompress_due(*p, *st, live_ctransid, snaps@),
{
    let due = match &st.recompress {
        Some(r) => live_ctransid > r.ctransid,
        None => true,
    };
    let small = match newest(snaps) {
        Some(n) => match n.complete_stats() {
            Some(s) => s.bytes <= p.max_bytes,
            None => false,
        },
        None => false,
    };
    p.enabled && st.frozen.is_none() && due && small
}

/// How far apart the sampled files are.
pub open spec fn stride(n: int) -> int {
    if n / 32 >= 1 {
        n / 32
    } else {
        1
    }
}

/// Which of `n` files are sampled: at most 32, evenly spread.
pub fn sample_positions(n: usize) -> (r: Vec<usize>)
    ensures
        r@.len() <= 32,
        forall|k: int| 0 <= k < r@.len() ==> #[trigger] r@[k] == k * stride(n as int) && r@[k] < n,
        r@.len() == 32 || r@.len() * stride(n as int) >= n,
{
    let step: usize = if n / 32 >= 1 {
        n / 32
    } else {
        1
    };
    let mut out: Vec<usize> = Vec::new();
    let mut at: usize = 0;
    assert(0 * step == 0) by (nonlinear_arith);
    while out.len() < 32 && at < n
        invariant
            step == stride(n as int),
            out@.len() <= 32,
            at == out@.len() * step,
            at <= n + step,
            forall|k: int| 0 <= k < out@.len() ==> #[trigger] out@[k] == k * step && out@[k] < n,
        decreases 32 - out@.len(),
    {
        let ghost m = out@.len();
        out.push(at);
        if n - at <= step {
            assert((m + 1) * step == m * step + step) by (nonlinear_arith);
            assert(out@.len() * stride(n as int) >= n);
            return out;
        }
        at += step;
        assert((m + 1) * step == m * step + step) by (nonlinear_arith);
    }
    out
}

/// What a defragment must not change about an entry: kind, size, mtime, mode.
pub type EntryKey = (Seq<char>, EntryModel, u64, Option<i128>, u32);

/// The entry at position `i` is a directory with nothing in it.
pub open spec fn childless(l: Seq<(String, EntryInfo)>, i: int) -> bool {
    l[i].1.kind is Dir && !(i + 1 < l.len() && below(l[i + 1].0@, l[i].0@))
}

/// The keys of a listing in path order.
///
/// The mtime of an empty directory is left out: a nested subvolume's placeholder is an empty
/// directory whose mtime is the moment the kernel instantiated its inode, so it differs between
/// walks. Non-empty directories keep theirs: replacing a file by one with the same size, mode and
/// mtime (`cp -p`, `rsync -a`, `tar -x`) shows only in the parent directory's mtime.
pub open spec fn listing_keys(l: Seq<(String, EntryInfo)>) -> Seq<EntryKey> {
    Seq::new(
        l.len(),
        |i: int|
            (
                l[i].0@,
                entry_model(l[i].1.kind),
                l[i].1.size,
                if childless(l, i) {
                    None
                } else {
                    Some(l[i].1.mtime_ns)
                },
                l[i].1.mode,
            ),
    )
}

fn is_childless(l: &Vec<(String, EntryInfo)>, i: usize) -> (r: bool)
    requires
        i < l@.len(),
    ensures
        r == childless(l@, i as int),
{
    let dir = match l[i].1.kind {
        EntryKind::Dir => true,
        _ => false,
    };
    dir && !(i < l.len() - 1 && path_starts_with(l[i + 1].0.as_str(), l[i].0.as_str()))
}

/// Whether two listings in path order agree in what a defragment must not change.
pub fn same_keys(a: &Vec<(String, EntryInfo)>, b: &Vec<(String, EntryInfo)>) -> (r: bool)
    ensures
        r == (listing_keys(a@) == listing_keys(b@)),
{
    let ghost x = listing_keys(a@);
    let ghost y = listing_keys(b@);
    if a.len() != b.len() {
        assert(x.len() != y.len());
        return false;
    }
    let mut i: usize = 0;
    while i < a.len()
        invariant
            i <= a@.len(),
            a@.len() == b@.len(),
            x == listing_keys(a@),
            y == listing_keys(b@),
            forall|k: int| 0 <= k < i ==> x[k] == y[k],
        decreases a@.len() - i,
    {
        let e = &a[i];
        let f = &b[i];
        let ce = is_childless(a, i);
        let cf = is_childless(b, i);
        if !str_eq(e.0.as_str(), f.0.as_str()) || !kind_eq(&e.1.kind, &f.1.kind) || e.1.size
            != f.1.size || e.1.mode != f.1.mode || ce != cf || (!ce && e.1.mtime_ns
            != f.1.mtime_ns) {
            assert(x[i as int] != y[i as int]);
            return false;
        }
        assert(x[i as int] == y[i as int]);
        i += 1;
    }
    assert(x =~= y);
    true
}

/// Whether only extents were rewritten between two snapshots. The mtime of the root itself is
/// not in the listing: it is what a replacement at the top level changes.
pub fn untouched(
    root_before: i128,
    root_after: i128,
    before: &Vec<(String, EntryInfo)>,
    after: &Vec<(String, EntryInfo)>,
) -> (r: bool)
    ensures
        r == (root_before == root_after && listing_keys(before@) == listing_keys(after@)),
{
    root_before == root_after && same_keys(before, after)
}

pub struct RecompressReport {
    pub done: bool,
    pub skipped: Option<String>,
    pub level: u8,
    pub new_snapshot: Option<u64>,
    pub deleted: Vec<u64>,
    pub free_before: u64,
    pub free_after: u64,
}

impl RecompressReport {
    /// Nothing was done yet.
    pub fn new(level: u8) -> (r: RecompressReport)
        ensures
            !r.done,
            r.skipped is None && r.new_snapshot is None,
            r.level == level,
            r.deleted@.len() == 0,
            r.free_before == 0 && r.free_after == 0,
    {
        RecompressReport {
            done: false,
            skipped: None,
            level,
            new_snapshot: None,
            deleted: Vec::new(),
            free_before: 0,
            free_after: 0,
        }
    }
}

/// Why a project is not recompressed, as far as its state decides. `collapsed` says whether the
/// guard froze the project in the collapse before, where that was done.
pub open spec fn state_skip(frozen: bool, froze: Option<bool>, any: bool) -> Option<Seq<char>> {
    if frozen && froze is None {
        Some("project is frozen"@)
    } else if froze == Some(true) {
        Some("shrink guard froze the project"@)
    } else if froze == Some(false) && !any {
        Some("no snapshot"@)
    } else {
        None
    }
}

/// Why a project is not recompressed, as far as its state decides: asked before the collapse,
/// and again after it with whether the guard froze the project there.
pub fn skip_by_state(st: &ProjectState, froze: Option<bool>, snaps: &Vec<SnapshotMeta>) -> (r:
    Option<&'static str>)
    ensures
        match r {
            Some(s) => state_skip(st.frozen is Some, froze, snaps@.len() > 0) == Some(s@),
            None => state_skip(st.frozen is Some, froze, snaps@.len() > 0) is None,
        },
{
    match froze {
        None => if st.frozen.is_some() {
            Some("project is frozen")
        } else {
            None
        },
        Some(true) => Some("shrink guard froze the project"),
        Some(false) => if snaps.len() == 0 {
            Some("no snapshot")
        } else {
            None
        },
    }
}

/// The space that a recompression may take beside the data.
pub const SLACK: u64 = 2_147_483_648;

/// The space that has to be free for a recompression.
pub open spec fn space_needed(scaled: int, p: RecompressPolicy) -> int {
    if scaled + SLACK >= p.min_free {
        scaled + SLACK
    } else {
        p.min_free as int
    }
}

/// How much space has to be free; `scaled` is the size of the data with a tenth more.
pub fn required_free(scaled: u64, p: &RecompressPolicy) -> (r: u64)
    requires
        scaled + SLACK <= u64::MAX,
    ensures
        r == if scaled + SLACK >= p.min_free {
            (scaled + SLACK) as u64
        } else {
            p.min_free
        },
        r == space_needed(scaled as int, *p),
{
    let needed: u64 = scaled + SLACK;
    if needed >= p.min_free {
        needed
    } else {
        p.min_free
    }
}

/// Why a project is not recompressed where space is short; `need` and `have` are the figures.
pub fn skip_by_space(free: u64, min_free: u64, need: &str, have: &str) -> (r: Option<String>)
    ensures
        match r {
            Some(m) => free < min_free && m@ == "needs "@ + need@ + " free, have "@ + have@,
            None => free >= min_free,
        },
{
    if free < min_free {
        Some(cat4("needs ", need, " free, have ", have))
    } else {
        None
    }
}

/// Why a project is not recompressed where a sample shows little gain; the two are percentages.
pub fn skip_by_gain(gain: &str, least: &str) -> (r: String)
    ensures
        r@ == "sample gain "@ + gain@ + "% below "@ + least@ + "%"@,
{
    let mut m = cat4("sample gain ", gain, "% below ", least);
    m.append("%");
    m
}

/// Records that a project was not recompressed at its present state.
pub fn note_skipped(
    st: &mut ProjectState,
    level: u8,
    live: &SubvolInfo,
    free: u64,
    why: &str,
    now: Timestamp,
)
    ensures
        final(st).recompress is Some && ({
            let r = final(st).recompress->0;
            r.at == now && r.level == level && r.ctransid == live.ctransid && r.bytes_before == free
                && r.bytes_after == free && r.skipped is Some && r.skipped->0@ == why@
        }),
        *final(st) == (ProjectState { recompress: final(st).recompress, ..*old(st) }),
{
    st.recompress = Some(
        RecompressRecord {
            at: now,
            level,
            ctransid: live.ctransid,
            bytes_before: free,
            bytes_after: free,
            skipped: Some(why.to_owned()),
        },
    );
}

/// What the hooks around a recompression are told.
pub fn recompress_hook(pref: &ProjectRef, level: u8) -> (r: HookCtx)
    ensures
        r.project is Some && r.project->0@ == pref.unit.name@,
        r.project_path is Some && r.project_path->0@ == pref.record.path@,
        r.owner == Some((pref.record.owner_uid, pref.record.owner_gid)),
        r.root is Some && r.root->0@ == pref.root.path@,
        r.snapshot is None && r.stage is None,
        r.reason@ == "zstd:"@ + dec(level as nat),
        r.extra@.len() == 0,
{
    HookCtx {
        project: Some(pref.unit.name.clone()),
        project_path: Some(pref.record.path.clone()),
        owner: Some((pref.record.owner_uid, pref.record.owner_gid)),
        root: Some(pref.root.path.clone()),
        snapshot: None,
        stage: None,
        reason: cat2("zstd:", dec_u64(level as u64).as_str()),
        extra: Vec::new(),
    }
}

/// How the live tree is rewritten.
pub fn defrag_opts(level: u8) -> (r: DefragOpts)
    ensures
        r.compress@ == "zstd"@,
        r.level == Some(level),
        r.flush,
{
    DefragOpts { compress: "zstd".to_owned(), level: Some(level), flush: true }
}

/// The snapshot of the recompressed tree.
pub fn recompress_snapshot(level: u8, budget: Duration) -> (r: SnapOpts)
    ensures
        r.kind == SnapshotKind::Collapse,
        r.reason@ == "recompress zstd:"@ + dec(level as nat),
        r.stats && r.stats_budget == budget && !r.hold && r.pair is None,
{
    let mut o = SnapOpts::new(
        SnapshotKind::Collapse,
        cat2("recompress zstd:", dec_u64(level as u64).as_str()),
    );
    o.stats_budget = budget;
    o
}

/// The steps of a recompression once it is decided, and its ends.
#[derive(Clone, Copy, Debug, PartialEq, Eq, Structural)]
pub enum RecompressStep {
    PreHook,
    Defragment,
    Snapshot,
    /// Let the guard look at the new snapshot.
    Guard,
    /// Compare the snapshots before and after.
    Compare,
    /// Nothing else changed: the old snapshot can go.
    Replace,
    /// Something else changed meanwhile: the old snapshot stays.
    Keep,
    PostHook,
    Done,
    /// The guard froze the project.
    Frozen,
    Fail,
}

/// What came of a step: of `Guard` whether it let the snapshot pass, of `Compare` whether the
/// tree was untouched.
pub open spec fn after_recompress(s: RecompressStep, ok: bool) -> RecompressStep {
    match s {
        RecompressStep::PreHook => if ok {
            RecompressStep::Defragment
        } else {
            RecompressStep::Fail
        },
        RecompressStep::Defragment => if ok {
            RecompressStep::Snapshot
        } else {
            RecompressStep::Fail
        },
        RecompressStep::Snapshot => if ok {
            RecompressStep::Guard
        } else {
            RecompressStep::Fail
        },
        RecompressStep::Guard => if ok {
            RecompressStep::Compare
        } else {
            RecompressStep::Frozen
        },
        RecompressStep::Compare => if ok {
            RecompressStep::Replace
        } else {
            RecompressStep::Keep
        },
        RecompressStep::Replace => RecompressStep::PostHook,
        RecompressStep::Keep => RecompressStep::PostHook,
        RecompressStep::PostHook => if ok {
            RecompressStep::Done
        } else {
            RecompressStep::Fail
        },
        end => end,
    }
}

/// The step after one that went well or did not.
pub fn recompress(s: RecompressStep, ok: bool) -> (r: RecompressStep)
    ensures
        r == after_recompress(s, ok),
{
    match s {
        RecompressStep::PreHook if ok => RecompressStep::Defragment,
        RecompressStep::Defragment if ok => RecompressStep::Snapshot,
        RecompressStep::Snapshot if ok => RecompressStep::Guard,
        RecompressStep::Guard => if ok {
            RecompressStep::Compare
        } else {
            RecompressStep::Frozen
        },
        RecompressStep::Compare => if ok {
            RecompressStep::Replace
        } else {
            RecompressStep::Keep
        },
        RecompressStep::Replace => RecompressStep::PostHook,
        RecompressStep::Keep => RecompressStep::PostHook,
        RecompressStep::PostHook if ok => RecompressStep::Done,
        RecompressStep::Done => RecompressStep::Done,
        RecompressStep::Frozen => RecompressStep::Frozen,
        _ => RecompressStep::Fail,
    }
}

/// Where a recompression ends up when its steps go as `oks` says.
pub open spec fn recompress_run(oks: Seq<bool>) -> RecompressStep
    decreases oks.len(),
{
    if oks.len() == 0 {
        RecompressStep::PreHook
    } else {
        after_recompress(recompress_run(oks.drop_last()), oks.last())
    }
}

/// The snapshot from before is given up only when the guard let the new one pass and the two
/// agree in everything that rewriting extents leaves alone.
pub proof fn law_old_state_is_kept_unless_untouched(oks: Seq<bool>)
    ensures
        recompress_run(oks) == RecompressStep::Guard ==> oks.len() == 3,
        recompress_run(oks) == RecompressStep::Compare ==> oks.len() == 4 && oks[3],
        recompress_run(oks) == RecompressStep::Replace ==> oks.len() == 5 && oks[3] && oks[4],
    decreases oks.len(),
{
    if oks.len() > 0 {
        let rest = oks.drop_last();
        law_old_state_is_kept_unless_untouched(rest);
        lemma_recompress_start(rest);
        assert(forall|i: int| 0 <= i < rest.len() ==> rest[i] == oks[i]);
        assert(oks[oks.len() - 1] == oks.last());
    }
}

proof fn lemma_recompress_start(oks: Seq<bool>)
    ensures
        recompress_run(oks) == RecompressStep::PreHook ==> oks.len() == 0,
        recompress_run(oks) == RecompressStep::Defragment ==> oks.len() == 1,
        recompress_run(oks) == RecompressStep::Snapshot ==> oks.len() == 2,
    decreases oks.len(),
{
    if oks.len() > 0 {
        lemma_recompress_start(oks.drop_last());
    }
}

/// What becomes of the snapshot from before.
pub enum OldSnapshot {
    Delete,
    /// It stays, with this warning.
    Stay(String),
}

/// A snapshot from before a recompression stays beside the new one.
pub open spec fn stays_beside(m: SnapshotMeta) -> bool {
    m.hold || class_of(m.kind) == KindClass::Keep
}

/// What becomes of the snapshot from before, where nothing else changed.
pub fn old_snapshot(old_meta: &SnapshotMeta, name: &str) -> (r: OldSnapshot)
    ensures
        match r {
            OldSnapshot::Delete => !old_meta.hold && class_of(old_meta.kind) != KindClass::Keep,
            OldSnapshot::Stay(m) => (old_meta.hold || class_of(old_meta.kind) == KindClass::Keep)
                && m@ == name@ + ": snapshot #"@ + dec(old_meta.id as nat)
                + " is held; recompressed extents stay duplicated until it is released"@,
        },
        r is Stay == stays_beside(*old_meta),
{
    if !old_meta.hold && old_meta.kind.class() != KindClass::Keep {
        OldSnapshot::Delete
    } else {
        OldSnapshot::Stay(
            cat4(
                name,
                ": snapshot #",
                dec_u64(old_meta.id).as_str(),
                " is held; recompressed extents stay duplicated until it is released",
            ),
        )
    }
}

/// What is reported where something else changed meanwhile.
pub fn touched_message(name: &str, id: u64) -> (r: String)
    ensures
        r@ == name@ + ": the project changed during recompression; snapshot #"@ + dec(id as nat)
            + " is kept and the change counts as activity"@,
{
    cat4(
        name,
        ": the project changed during recompression; snapshot #",
        dec_u64(id).as_str(),
        " is kept and the change counts as activity",
    )
}

/// The state after a recompression: what was changed by someone else counts as activity, the
/// recompression itself does not.
pub fn note_recompressed(
    st: &mut ProjectState,
    before: &SubvolInfo,
    after: &SubvolInfo,
    was_untouched: bool,
    level: u8,
    free_before: u64,
    free_after: u64,
    now: Timestamp,
)
    ensures
        ({
            let s = if was_untouched {
                tool_changed(*old(st), *before, *after, now)
            } else {
                observed(*old(st), *after, now)
            };
            *final(st) == (ProjectState { recompress: final(st).recompress, ..s })
        }),
        final(st).recompress is Some && ({
            let r = final(st).recompress->0;
            r.at == now && r.level == level && r.ctransid == after.ctransid && r.bytes_before
                == free_before && r.bytes_after == free_after && r.skipped is None
        }),
{
    if was_untouched {
        note_tool_change(st, before, after, now);
    } else {
        note_live(st, after, now);
    }
    st.recompress = Some(
        RecompressRecord {
            at: now,
            level,
            ctransid: after.ctransid,
            bytes_before: free_before,
            bytes_after: free_after,
            skipped: None,
        },
    );
}

/// What is reported of a snapshot that a collapse could not delete.
pub fn collapse_failed(name: &str, id: u64, why: &str) -> (r: String)
    ensures
        r@ == name@ + ": collapse could not delete #"@ + dec(id as nat) + ": "@ + why@,
{
    let mut m = cat3(name, ": collapse could not delete #", dec_u64(id).as_str());
    m.append(": ");
    m.append(why);
    m
}

/// A collapse begins with a snapshot that holds the live state: one is taken unless the newest
/// one has seen the last change and was made no earlier than the last write. A frozen project is
/// left alone, whatever it holds.
pub proof fn law_collapses_begin_with_the_live_state(
    st: ProjectState,
    live: SubvolInfo,
    snaps: Seq<SnapshotMeta>,
    n: int,
)
    requires
        newest_index(snaps) == Some(n),
    ensures
        collapse_begins(st, live, snaps) is Frozen <==> st.frozen is Some,
        st.frozen is None ==> (collapse_begins(st, live, snaps) is Take <==> (live.ctransid
            != snaps[n].source_ctransid || snaps[n].snapshot_otransid < live.generation)),
        collapse_begins(st, live, snaps) is Ready ==> snaps[n].stats is Some,
        collapse_begins(st, live, snaps) matches CollapseStart::Count(i) ==> i == n as usize
            && snaps[n].stats is None,
        st.frozen is None ==> collapse_begins(st, live, Seq::empty()) is Take,
{
    lemma_newest(snaps);
}

/// A project is recompressed where the policy says so, unless it is frozen, has not changed since
/// the last time, or is larger than allowed by the complete count of its newest snapshot.
pub proof fn law_recompression_follows_a_change(
    p: RecompressPolicy,
    st: ProjectState,
    live_ctransid: u64,
    snaps: Seq<SnapshotMeta>,
    n: int,
)
    requires
        newest_index(snaps) == Some(n),
    ensures
        recompress_due(p, st, live_ctransid, snaps) <==> (p.enabled && st.frozen is None && (
        st.recompress matches Some(r) ==> r.ctransid < live_ctransid) && (snaps[n].stats matches
            Some(c) && c.complete && c.bytes <= p.max_bytes)),
        newest_counted(snaps) <==> (snaps[n].stats matches Some(c) && c.complete),
        !recompress_due(p, st, live_ctransid, Seq::empty()),
{
    lemma_newest(snaps);
}

/// A recompression that already happened at this state is not due again.
pub proof fn law_recompression_is_done_once(
    p: RecompressPolicy,
    st: ProjectState,
    live: SubvolInfo,
    snaps: Seq<SnapshotMeta>,
)
    requires
        st.recompress is Some,
        st.recompress->0.ctransid == live.ctransid,
    ensures
        !recompress_due(p, st, live.ctransid, snaps),
{
}

/// Two listings agree where they have the same paths with the same kinds, sizes, modes and
/// mtimes; only of a directory that nothing stands below the mtime may differ.
pub proof fn law_listings_agree_but_for_empty_directories(
    a: Seq<(String, EntryInfo)>,
    b: Seq<(String, EntryInfo)>,
)
    ensures
        listing_keys(a) == listing_keys(b) <==> a.len() == b.len() && (forall|i: int|
            #![trigger a[i]]
            #![trigger b[i]]
            0 <= i < a.len() ==> {
                &&& a[i].0@ == b[i].0@
                &&& entry_model(a[i].1.kind) == entry_model(b[i].1.kind)
                &&& a[i].1.size == b[i].1.size
                &&& a[i].1.mode == b[i].1.mode
                &&& a[i].1.mtime_ns == b[i].1.mtime_ns || (a[i].1.kind is Dir && (i + 1 < a.len()
                    ==> !below(a[i + 1].0@, a[i].0@)))
            }),
{
    let x = listing_keys(a);
    let y = listing_keys(b);
    if x == y {
        assert(a.len() == x.len() && b.len() == y.len());
        assert forall|i: int|
            #![trigger a[i]]
            #![trigger b[i]]
            0 <= i < a.len() implies {
            &&& a[i].0@ == b[i].0@
            &&& entry_model(a[i].1.kind) == entry_model(b[i].1.kind)
            &&& a[i].1.size == b[i].1.size
            &&& a[i].1.mode == b[i].1.mode
            &&& a[i].1.mtime_ns == b[i].1.mtime_ns || (a[i].1.kind is Dir && (i + 1 < a.len()
                ==> !below(a[i + 1].0@, a[i].0@)))
        } by {
            assert(x[i] == y[i]);
        }
    }
    if a.len() == b.len() && (forall|i: int|
        #![trigger a[i]]
        #![trigger b[i]]
        0 <= i < a.len() ==> {
            &&& a[i].0@ == b[i].0@
            &&& entry_model(a[i].1.kind) == entry_model(b[i].1.kind)
            &&& a[i].1.size == b[i].1.size
            &&& a[i].1.mode == b[i].1.mode
            &&& a[i].1.mtime_ns == b[i].1.mtime_ns || (a[i].1.kind is Dir && (i + 1 < a.len()
                ==> !below(a[i + 1].0@, a[i].0@)))
        }) {
        assert forall|i: int| 0 <= i < a.len() implies x[i] == y[i] by {
            assert(a[i].0@ == b[i].0@);
            assert(entry_model(a[i].1.kind) == entry_model(b[i].1.kind));
            if i + 1 < a.len() {
                assert(a[i + 1].0@ == b[i + 1].0@);
            }
        }
        assert(x =~= y);
    }
}

/// Forgetting a snapshot takes every one of that id off the list, no other, and keeps the order.
pub proof fn law_forgetting_takes_one_id(s: Seq<SnapshotMeta>, id: u64)
    ensures
        forall|m: SnapshotMeta| #[trigger]
            without_id(s, id).contains(m) <==> s.contains(m) && m.id != id,
        forall|m: SnapshotMeta|
            m.id != id ==> #[trigger] without_id(s.push(m), id) == without_id(s, id).push(m),
        forall|m: SnapshotMeta|
            m.id == id ==> #[trigger] without_id(s.push(m), id) == without_id(s, id),
    decreases s.len(),
{
    assert forall|m: SnapshotMeta| #[trigger] without_id(s.push(m), id) == if m.id == id {
        without_id(s, id)
    } else {
        without_id(s, id).push(m)
    } by {
        assert(s.push(m).drop_last() =~= s);
    }
    if s.len() > 0 {
        let t = s.drop_last();
        let r = without_id(t, id);
        law_forgetting_takes_one_id(t, id);
        assert(s =~= t.push(s.last()));
        assert forall|m: SnapshotMeta| #[trigger] without_id(s, id).contains(m) <==> s.contains(m)
            && m.id != id by {
            if s.contains(m) {
                let k = choose|k: int| 0 <= k < s.len() && s[k] == m;
                if k < t.len() {
                    assert(t[k] == m);
                    assert(t.contains(m));
                    if m.id != id {
                        assert(r.contains(m));
                        let q = choose|q: int| 0 <= q < r.len() && r[q] == m;
                        assert(r.push(s.last())[q] == m);
                    }
                } else if m.id != id {
                    assert(r.push(s.last())[r.len() as int] == m);
                }
            }
            if without_id(s, id).contains(m) {
                let q = choose|q: int| 0 <= q < without_id(s, id).len() && without_id(s, id)[q] == m;
                if q < r.len() {
                    assert(r[q] == m);
                    assert(r.contains(m));
                    let k = choose|k: int| 0 <= k < t.len() && t[k] == m;
                    assert(s[k] == m);
                } else {
                    assert(s[s.len() - 1] == m);
                }
            }
        }
    }
}

/// Before the collapse only a freeze stands in the way; after it, only that the guard froze the
/// project there, or that no snapshot is left.
pub proof fn law_the_state_lets_a_recompression_pass(frozen: bool, froze: bool, any: bool)
    ensures
        state_skip(frozen, None, any) is None <==> !frozen,
        state_skip(frozen, Some(froze), any) is None <==> any && !froze,
{
}

/// The sample spreads over all files: up to 32 of them each is looked at, and of more one in
/// every 32nd part.
pub proof fn law_the_sample_spreads_over_all_files(n: int)
    requires
        0 <= n,
    ensures
        n < 64 ==> stride(n) == 1,
        32 <= n ==> 32 * stride(n) <= n < 32 * (stride(n) + 1),
{
}

/// How a whole recompression ends: it fails where a hook, the rewriting or the snapshot fails,
/// it freezes the project where the guard does not let the snapshot pass, and whether the tree
/// was untouched decides neither.
pub proof fn law_recompressions_end_by_their_steps(oks: Seq<bool>)
    requires
        oks.len() == 7,
    ensures
        recompress_run(oks) == RecompressStep::Done <==> oks[0] && oks[1] && oks[2] && oks[3]
            && oks[6],
        recompress_run(oks) == RecompressStep::Frozen <==> oks[0] && oks[1] && oks[2] && !oks[3],
        recompress_run(oks) == RecompressStep::Fail <==> !oks[0] || !oks[1] || !oks[2] || (oks[3]
            && !oks[6]),
        recompress_run(oks.take(5)) == RecompressStep::Replace <==> oks[0] && oks[1] && oks[2]
            && oks[3] && oks[4],
        recompress_run(oks.take(5)) == RecompressStep::Keep <==> oks[0] && oks[1] && oks[2]
            && oks[3] && !oks[4],
{
    reveal_with_fuel(recompress_run, 8);
    assert(oks.drop_last() =~= oks.take(6));
    assert(oks.take(6).drop_last() =~= oks.take(5));
    assert(oks.take(5).drop_last() =~= oks.take(4));
    assert(oks.take(4).drop_last() =~= oks.take(3));
    assert(oks.take(3).drop_last() =~= oks.take(2));
    assert(oks.take(2).drop_last() =~= oks.take(1));
    assert(oks.take(1).drop_last() =~= oks.take(0));
    assert(oks.take(0).len() == 0);
}

/// As much has to be free as the policy asks for, and as the data takes with two gibibytes beside
/// it; no more than the larger of the two.
pub proof fn law_space_is_needed_for_the_data(scaled: int, p: RecompressPolicy)
    ensures
        space_needed(scaled, p) >= p.min_free,
        space_needed(scaled, p) >= scaled + 2 * 1024 * 1024 * 1024,
        space_needed(scaled, p) == p.min_free || space_needed(scaled, p) == scaled + 2 * 1024 * 1024
            * 1024,
{
}

/// A snapshot that is held, or that the user made or brought in, is never replaced by that of a
/// recompression.
pub proof fn law_kept_snapshots_stay_beside_recompressed_ones(m: SnapshotMeta)
    ensures
        m.hold ==> stays_beside(m),
        m.kind is Manual || m.kind is Import || m.kind is Received || m.kind is Recovered
            ==> stays_beside(m),
        stays_beside(m) && !m.hold ==> !(m.kind is Auto || m.kind is Hook || m.kind is Collapse
            || m.kind is Adopt || m.kind is Pre || m.kind is Post || m.kind is Rollback
            || m.kind is PreRestore),
{
}

} // verus!
