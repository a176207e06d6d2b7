//! `tick`: the scheduled run. One failing project never blocks the others.

use vstd::prelude::*;

use crate::btrfs::{SubvolInfo, Uuid};
use crate::cli::TickArgs;
use crate::config::schema::{AdoptMode, ContainerCfg, LifecyclePolicy, Policy};
#[allow(unused_imports)]
use crate::config::schema::ThinPolicy;
use crate::error::BpmError;
use crate::hooks::HookCtx;
use crate::mechanics::adopt::AdoptReport;
use crate::mechanics::banlist::BanAction;
use crate::mechanics::observe::{
    note_live, note_snapshot, thin_allowed, update_stage, want_stats,
};
#[allow(unused_imports)]
use crate::mechanics::observe::{
    due_stage, guard_up_to_date, law_guard_looks_at_every_snapshot, next_guard_step, observed, snapshot_noted, stats_due,
    GuardStep, Walk,
};
use crate::mechanics::recompress::{collapsed, needs_recompress, RecompressReport};
#[allow(unused_imports)]
use crate::mechanics::recompress::recompress_due;
use crate::mechanics::snapshot::SnapOpts;
use crate::policy::change::{changed_since, identical, SnapDecision};
#[allow(unused_imports)]
use crate::policy::change::{differs, same_content};
use crate::policy::thin::{select_deletions, Windows};
#[allow(unused_imports)]
use crate::policy::thin::{collapsed_ids, goes, law_frozen_protects, lets_go, Retention};
use crate::store::{
    newest, newest_at, ErrorRecord, Frozen, ProjectRecord, ProjectState, SnapshotKind,
    SnapshotMeta, Stage,
};
#[allow(unused_imports)]
use crate::store::meta::stage_name;
#[allow(unused_imports)]
use crate::store::{is_newest, newest_index};
use crate::util::strmap::StrMap;
use crate::util::text::{cat2, cat3, cat4, cat5, dec_u128, dec_u64, join, str_eq};
#[allow(unused_imports)]
use crate::util::text::{dec, joined, texts};
use crate::util::time::{age, Duration, Timestamp};
#[allow(unused_imports)]
use crate::util::time::elapsed;

verus! {

pub struct ProjectTick {
    pub name: String,
    pub stage: String,
    pub snapshot: Option<u64>,
    pub deleted: Vec<u64>,
    pub banlist: Vec<BanAction>,
    pub froze: bool,
    pub error: Option<String>,
}

impl ProjectTick {
    /// Nothing has happened to the project yet.
    pub fn new(name: &str) -> (r: ProjectTick)
        ensures
            r.name@ == name@,
            r.stage@.len() == 0,
            r.snapshot is None && r.error is None,
            r.deleted@.len() == 0 && r.banlist@.len() == 0,
            !r.froze,
    {
        ProjectTick {
            name: name.to_owned(),
            stage: String::new(),
            snapshot: None,
            deleted: Vec::new(),
            banlist: Vec::new(),
            froze: false,
            error: None,
        }
    }
}

pub struct RootTick {
    pub root: String,
    pub skipped: Option<String>,
    pub projects: Vec<ProjectTick>,
    pub container_snapshot: Option<u64>,
    pub container_deleted: Vec<u64>,
    pub renamed: Vec<(String, String)>,
    pub orphaned: Vec<String>,
    pub heavy: Option<String>,
    pub heavy_result: Option<String>,
}

impl RootTick {
    /// Nothing has happened below the root yet.
    pub fn new(root: &str) -> (r: RootTick)
        ensures
            r.root@ == root@,
            r.skipped is None && r.container_snapshot is None,
            r.projects@.len() == 0 && r.container_deleted@.len() == 0,
            r.renamed@.len() == 0 && r.orphaned@.len() == 0,
            r.heavy is None && r.heavy_result is None,
    {
        RootTick {
            root: root.to_owned(),
            skipped: None,
            projects: Vec::new(),
            container_snapshot: None,
            container_deleted: Vec::new(),
            renamed: Vec::new(),
            orphaned: Vec::new(),
            heavy: None,
            heavy_result: None,
        }
    }
}

/// Work of which a tick does at most one piece.
#[derive(Clone, Debug, PartialEq, Eq)]
pub enum Heavy {
    Convert { name: String, rel: String },
    Adopt { name: String },
    Collapse { name: String },
    Recompress { name: String },
}

pub open spec fn rank(h: Heavy) -> int {
    match h {
        Heavy::Convert { .. } => 0,
        Heavy::Adopt { .. } => 1,
        Heavy::Collapse { .. } => 2,
        Heavy::Recompress { .. } => 3,
    }
}

pub open spec fn described(h: Heavy) -> Seq<char> {
    match h {
        Heavy::Convert { name, rel } => "convert "@ + name@ + "/"@ + rel@,
        Heavy::Adopt { name } => "adopt "@ + name@,
        Heavy::Collapse { name } => "collapse "@ + name@,
        Heavy::Recompress { name } => "recompress "@ + name@,
    }
}

impl Heavy {
    /// What is smaller comes first.
    pub fn priority(&self) -> (r: u8)
        ensures
            r == rank(*self),
    {
        match self {
            Heavy::Convert { .. } => 0,
            Heavy::Adopt { .. } => 1,
            Heavy::Collapse { .. } => 2,
            Heavy::Recompress { .. } => 3,
        }
    }

    pub fn describe(&self) -> (r: String)
        ensures
            r@ == described(*self),
    {
        match self {
            Heavy::Convert { name, rel } => cat4("convert ", name.as_str(), "/", rel.as_str()),
            Heavy::Adopt { name } => cat2("adopt ", name.as_str()),
            Heavy::Collapse { name } => cat2("collapse ", name.as_str()),
            Heavy::Recompress { name } => cat2("recompress ", name.as_str()),
        }
    }
}

/// Position `i` holds the work that is done: the most urgent, of several the first.
pub open spec fn is_next_heavy(h: Seq<Heavy>, i: int) -> bool {
    &&& 0 <= i < h.len()
    &&& forall|j: int| 0 <= j < h.len() ==> rank(h[i]) <= rank(#[trigger] h[j])
    &&& forall|j: int| 0 <= j < i ==> rank(h[i]) < rank(#[trigger] h[j])
}

/// The work that is done in this tick.
pub fn next_heavy(h: &Vec<Heavy>) -> (r: Option<usize>)
    ensures
        match r {
            Some(i) => is_next_heavy(h@, i as int),
            None => h@.len() == 0,
        },
{
    if h.len() == 0 {
        return None;
    }
    let mut best: usize = 0;
    let mut i: usize = 1;
    while i < h.len()
        invariant
            best < i <= h@.len(),
            forall|j: int| 0 <= j < i ==> rank(h@[best as int]) <= rank(#[trigger] h@[j]),
            forall|j: int| 0 <= j < best ==> rank(h@[best as int]) < rank(#[trigger] h@[j]),
        decreases h@.len() - i,
    {
        if h[i].priority() < h[best].priority() {
            best = i;
        }
        i += 1;
    }
    Some(best)
}

/// How old a directory of an unfinished snapshot has to be before it is removed.
pub const TMP_MAX_AGE_NS: u128 = 600_000_000_000;

/// How long a tick waits for the lock of a project, in seconds.
pub const PROJECT_LOCK_SECS: u64 = 5;

/// The age of something unfinished that nobody works on any more.
pub open spec fn left_over(age_of: Option<Duration>) -> bool {
    age_of is Some && age_of->0.ns > TMP_MAX_AGE_NS
}

/// Whether a directory of an unfinished snapshot is removed; `age_of` is unknown where its time
/// could not be read.
pub fn is_stale(age_of: Option<Duration>) -> (r: bool)
    ensures
        r == (age_of is Some && age_of->0.ns > TMP_MAX_AGE_NS),
        r == left_over(age_of),
{
    match age_of {
        Some(a) => a.ns > TMP_MAX_AGE_NS,
        None => false,
    }
}

/// The projects that were snapshotted.
pub open spec fn snapshotted(p: Seq<ProjectTick>) -> nat
    decreases p.len(),
{
    if p.len() == 0 {
        0
    } else {
        snapshotted(p.drop_last()) + if p.last().snapshot is Some {
            1nat
        } else {
            0
        }
    }
}

/// The snapshots that were deleted.
pub open spec fn deletions(p: Seq<ProjectTick>) -> nat
    decreases p.len(),
{
    if p.len() == 0 {
        0
    } else {
        deletions(p.drop_last()) + p.last().deleted@.len()
    }
}

/// The line that sums a root up.
pub open spec fn root_text(r: RootTick, failed: nat) -> Seq<char> {
    match r.skipped {
        Some(s) => r.root@ + ": skipped ("@ + s@ + ")"@,
        None => r.root@ + ": "@ + dec(r.projects@.len()) + " projects, "@ + dec(
            snapshotted(r.projects@),
        ) + " snapshots, "@ + dec(deletions(r.projects@)) + " deleted"@ + (match r.heavy {
            Some(h) => ", "@ + h@ + ": "@ + (match r.heavy_result {
                Some(m) => m@,
                None => Seq::empty(),
            }),
            None => Seq::empty(),
        }) + (if failed > 0 {
            ", "@ + dec(failed) + " errors"@
        } else {
            Seq::empty()
        }),
    }
}

/// The line that sums a root up.
pub fn root_line(r: &RootTick, failed: usize) -> (line: String)
    ensures
        line@ == root_text(*r, failed as nat),
{
    if let Some(s) = &r.skipped {
        return cat4(r.root.as_str(), ": skipped (", s.as_str(), ")");
    }
    let mut snaps: u64 = 0;
    let mut deleted: u128 = 0;
    let mut i: usize = 0;
    let ghost p = r.projects@;
    assert(p.take(0) =~= Seq::<ProjectTick>::empty());
    while i < r.projects.len()
        invariant
            i <= r.projects@.len(),
            p == r.projects@,
            snaps == snapshotted(p.take(i as int)),
            snaps <= i,
            deleted == deletions(p.take(i as int)),
            deleted <= i * u64::MAX,
        decreases r.projects@.len() - i,
    {
        assert(p.take(i + 1).drop_last() =~= p.take(i as int));
        if r.projects[i].snapshot.is_some() {
            snaps += 1;
        }
        deleted += r.projects[i].deleted.len() as u128;
        i += 1;
    }
    assert(p.take(i as int) =~= p);
    let mut line = cat4(
        r.root.as_str(),
        ": ",
        dec_u64(r.projects.len() as u64).as_str(),
        " projects, ",
    );
    line.append(dec_u64(snaps).as_str());
    line.append(" snapshots, ");
    line.append(dec_u128(deleted).as_str());
    line.append(" deleted");
    let mut heavy = String::new();
    if let Some(h) = &r.heavy {
        let m = match &r.heavy_result {
            Some(m) => m.clone(),
            None => String::new(),
        };
        heavy = cat4(", ", h.as_str(), ": ", m.as_str());
    }
    line.append(heavy.as_str());
    let mut errors = String::new();
    if failed > 0 {
        errors = cat3(", ", dec_u64(failed as u64).as_str(), " errors");
    }
    line.append(errors.as_str());
    assert(line@ =~= root_text(*r, failed as nat));
    line
}

/// Everything that sums the roots up.
pub open spec fn root_texts(r: Seq<RootTick>, failed: nat) -> Seq<Seq<char>> {
    Seq::new(r.len(), |i: int| root_text(r[i], failed))
}

/// What a tick prints.
pub fn run_summary(reports: &Vec<RootTick>, failed: usize) -> (r: String)
    ensures
        r@ == joined(root_texts(reports@, failed as nat), "\n"@),
{
    let mut lines: Vec<String> = Vec::new();
    let mut i: usize = 0;
    let ghost all = root_texts(reports@, failed as nat);
    while i < reports.len()
        invariant
            i <= reports@.len(),
            all == root_texts(reports@, failed as nat),
            texts(lines@) == all.take(i as int),
        decreases reports@.len() - i,
    {
        let ghost before = texts(lines@);
        lines.push(root_line(&reports[i], failed));
        assert(texts(lines@) =~= before.push(all[i as int]));
        assert(all.take(i + 1) =~= before.push(all[i as int]));
        i += 1;
    }
    assert(all.take(i as int) =~= all);
    join(&lines, "\n")
}

/// How a tick ends: with an error where projects failed.
pub fn run(failed: usize) -> (r: Result<(), BpmError>)
    ensures
        r == if failed > 0 {
            Err::<(), BpmError>(BpmError::Partial { failed })
        } else {
            Ok::<(), BpmError>(())
        },
{
    if failed > 0 {
        Err(BpmError::Partial { failed })
    } else {
        Ok(())
    }
}

/// How the tick of a root begins.
pub enum RootStart {
    Go,
    /// The root is skipped for this reason, which is logged with the text.
    Skip(&'static str, String),
}

/// Whether a root is looked at: not without its store, and not while another tick runs; `holder`
/// says who holds the lock, where someone does.
pub fn tick_root(root: &str, store_dir: &str, store_exists: bool, holder: Option<&str>) -> (r:
    RootStart)
    ensures
        match r {
            RootStart::Go => store_exists && holder is None,
            RootStart::Skip(why, m) => if !store_exists {
                why@ == "store missing"@ && m@ == root@ + ": store "@ + store_dir@
                    + " missing; run `bpm setup`"@
            } else {
                holder is Some && why@ == "locked"@ && m@ == root@
                    + ": another tick is running ("@ + holder->0@ + ")"@
            },
        },
{
    if !store_exists {
        return RootStart::Skip(
            "store missing",
            cat4(root, ": store ", store_dir, " missing; run `bpm setup`"),
        );
    }
    match holder {
        Some(h) => RootStart::Skip("locked", cat4(root, ": another tick is running (", h, ")")),
        None => RootStart::Go,
    }
}

/// The parts of a run on a root.
#[derive(Clone, Copy, Debug, PartialEq, Eq, Structural)]
pub struct Parts {
    /// Everything but the heavy operation: tidying up, observing, snapshots, retention.
    pub light: bool,
    /// The snapshots of the root itself.
    pub container: bool,
    /// The search for a directory to adopt.
    pub adopt: bool,
    /// The heavy operation that the root needs next.
    pub heavy: bool,
}

/// Whether a run does more than the heavy operation that a root needs next.
pub fn runs_light(a: &TickArgs) -> (r: bool)
    ensures
        r == !a.heavy_only,
{
    !a.heavy_only
}

/// What a run does on a root.
pub fn parts(a: &TickArgs, mode: AdoptMode) -> (r: Parts)
    ensures
        r == (Parts {
            light: !a.heavy_only,
            container: !a.heavy_only && a.projects@.len() == 0,
            adopt: mode == AdoptMode::Auto && a.projects@.len() == 0,
            heavy: !a.no_heavy,
        }),
{
    let light = runs_light(a);
    let all = a.projects.len() == 0;
    Parts {
        light,
        container: light && all,
        adopt: matches!(mode, AdoptMode::Auto) && all,
        heavy: !a.no_heavy,
    }
}

/// A project is selected, and may be worked on under the name that the store has for it.
pub open spec fn takes_turn(a: TickArgs, name: Seq<char>, unit: Seq<char>) -> bool {
    (a.projects@.len() == 0 || texts(a.projects@).contains(name)) && (a.heavy_only ==> name == unit)
}

/// Whether a run turns to a project, which the store keeps under the name `unit`: it does where
/// the project is selected. A run that does only heavy work leaves a renamed project to the run
/// that notes its new name.
pub fn has_turn(a: &TickArgs, name: &str, unit: &str) -> (r: bool)
    ensures
        r == ((a.projects@.len() == 0 || texts(a.projects@).contains(name@)) && (a.heavy_only
            ==> name@ == unit@)),
        r == takes_turn(*a, name@, unit@),
{
    is_selected(&a.projects, name) && (runs_light(a) || str_eq(name, unit))
}

/// Whether a project is looked at: all are, unless some are named.
pub fn is_selected(named: &Vec<String>, name: &str) -> (r: bool)
    ensures
        r == (named@.len() == 0 || texts(named@).contains(name@)),
{
    named.len() == 0 || crate::util::text::list_has(named, name)
}

/// What stands where the store unit of a renamed project goes.
pub enum RelinkTarget {
    Nothing,
    Record(ProjectRecord),
    /// A directory that is no unit.
    NoRecord,
}

/// What is done with the store unit of a renamed project.
pub enum Relink {
    /// The project has the name of its unit.
    Keep,
    /// Rename the unit, after what stands there moved to this name.
    Move { aside: Option<String> },
    /// Nothing is done; this is logged.
    Blocked(String),
}

/// What is done with the store unit of a project whose directory was renamed.
pub fn relink_renamed(name: &str, unit_name: &str, target_dir: &str, target: &RelinkTarget) -> (r:
    Relink)
    ensures
        match r {
            Relink::Keep => name@ == unit_name@,
            Relink::Move { aside } => name@ != unit_name@ && match *target {
                RelinkTarget::Nothing => aside is None,
                RelinkTarget::Record(rec) => aside is Some && aside->0@
                    == crate::mechanics::adopt::aside_name(name@, rec.uuid@),
                RelinkTarget::NoRecord => false,
            },
            Relink::Blocked(m) => name@ != unit_name@ && *target is NoRecord && m@
                == "cannot relink "@ + unit_name@ + " -> "@ + name@ + ": "@ + target_dir@
                + " exists without project.toml"@,
        },
{
    if str_eq(name, unit_name) {
        return Relink::Keep;
    }
    match target {
        RelinkTarget::Nothing => Relink::Move { aside: None },
        RelinkTarget::Record(rec) => Relink::Move {
            aside: Some(cat3(name, "@", rec.uuid.short().as_str())),
        },
        RelinkTarget::NoRecord => {
            let mut m = cat5("cannot relink ", unit_name, " -> ", name, ": ");
            m.append(target_dir);
            m.append(" exists without project.toml");
            Relink::Blocked(m)
        },
    }
}

/// The record of a project whose directory was renamed: only name and path change.
pub fn renamed_record(record: &mut ProjectRecord, name: &str, path: &str)
    ensures
        final(record).name@ == name@,
        final(record).path@ == path@,
        *final(record) == (ProjectRecord {
            name: final(record).name,
            path: final(record).path,
            ..*old(record)
        }),
{
    record.name = name.to_owned();
    record.path = path.to_owned();
}

/// Whether the subvolume of a project that discovery missed is in its place after all.
pub fn is_back(record: &ProjectRecord, live: Option<Uuid>, is_subvolume: bool) -> (r: bool)
    ensures
        r == (live is Some && live->0@ == record.uuid@ && is_subvolume),
{
    match live {
        Some(u) => u.same(&record.uuid) && is_subvolume,
        None => false,
    }
}

/// A project whose absence is known.
pub open spec fn absence_known(stage: Stage) -> bool {
    stage == Stage::Orphaned || stage == Stage::Archived
}

/// Whether nothing has to be done about a missing project.
pub fn is_absence_known(st: &ProjectState) -> (r: bool)
    ensures
        r == absence_known(st.stage),
{
    matches!(st.stage, Stage::Orphaned | Stage::Archived)
}

/// The subvolume of a project was found elsewhere, which is reported once.
pub fn note_moved(st: &mut ProjectState, name: &str, root: &str, found: &str, now: Timestamp) -> (r:
    Option<String>)
    ensures
        match r {
            Some(m) => !old(st).warned@.contains_key("moved"@) && final(st).warned@ == old(st).warned@.insert("moved"@, now) && m@ == name@ + ": project subvolume moved out of "@
                + root@ + " (now at "@ + found@ + "); not snapshotted until it returns"@,
            None => old(st).warned@.contains_key("moved"@) && final(st).warned@ == old(st).warned@,
        },
        *final(st) == (ProjectState { warned: final(st).warned, ..*old(st) }),
{
    if st.warned.has("moved") {
        return None;
    }
    st.warned.insert("moved".to_owned(), now);
    let mut m = cat5(name, ": project subvolume moved out of ", root, " (now at ", found);
    m.append("); not snapshotted until it returns");
    Some(m)
}

/// A project that disappeared: it is frozen, and its newest snapshot is held.
pub open spec fn orphaned_state(
    st: ProjectState,
    f: ProjectState,
    snaps: Seq<SnapshotMeta>,
    now: Timestamp,
) -> bool {
    &&& f == (ProjectState {
        stage: Stage::Orphaned,
        stage_since: if st.stage == Stage::Orphaned {
            st.stage_since
        } else {
            Some(now)
        },
        missing_since: Some(now),
        frozen: f.frozen,
        ..st
    })
    &&& match st.frozen {
        Some(_) => f.frozen == st.frozen,
        None => f.frozen is Some && f.frozen->0.since == now && texts(f.frozen->0.reasons@) == seq![
            "live project directory disappeared"@,
        ] && f.frozen->0.trigger_snap is None && f.frozen->0.ref_snap == match newest_index(snaps) {
            Some(i) => Some(snaps[i].id),
            None => None,
        },
    }
}

/// The newest snapshot is held, and the one at position `r` was not held before; nothing else
/// changes.
pub open spec fn newest_is_held(
    s: Seq<SnapshotMeta>,
    f: Seq<SnapshotMeta>,
    r: Option<usize>,
) -> bool {
    match r {
        Some(i) => {
            &&& is_newest(s, i as int)
            &&& !s[i as int].hold
            &&& f == s.update(i as int, f[i as int])
            &&& f[i as int] == (SnapshotMeta {
                hold: true,
                hold_note: f[i as int].hold_note,
                ..s[i as int]
            })
            &&& f[i as int].hold_note@ == "auto-held: project directory disappeared"@
        },
        None => f == s && (s.len() > 0 ==> s[newest_index(s)->0].hold),
    }
}

/// A project disappeared: freezes it and holds its newest snapshot. The position of the snapshot
/// that is now held, where it was not before.
pub fn handle_missing(st: &mut ProjectState, snaps: &mut Vec<SnapshotMeta>, now: Timestamp) -> (r:
    Option<usize>)
    ensures
        orphaned_state(*old(st), *final(st), old(snaps)@, now),
        newest_is_held(old(snaps)@, final(snaps)@, r),
{
    let at = newest_at(snaps);
    let newest_id = match at {
        Some(i) => Some(snaps[i].id),
        None => None,
    };
    st.set_stage(Stage::Orphaned, now);
    st.missing_since = Some(now);
    if st.frozen.is_none() {
        let mut reasons: Vec<String> = Vec::new();
        reasons.push("live project directory disappeared".to_owned());
        assert(texts(reasons@) =~= seq!["live project directory disappeared"@]);
        st.frozen = Some(
            Frozen { since: now, reasons, trigger_snap: None, ref_snap: newest_id },
        );
    }
    match at {
        Some(i) => {
            if snaps[i].hold {
                return None;
            }
            snaps[i].hold = true;
            snaps[i].hold_note = "auto-held: project directory disappeared".to_owned();
            assert(snaps@ =~= old(snaps)@.update(i as int, snaps@[i as int]));
            Some(i)
        },
        None => None,
    }
}

/// After a project disappeared its newest snapshot is held and it is frozen, so that from then on
/// neither retention nor collapse lets anything go that was there when the freeze began.
pub proof fn law_disappeared_projects_keep_everything(
    st: ProjectState,
    f: ProjectState,
    s: Seq<SnapshotMeta>,
    g: Seq<SnapshotMeta>,
    r: Option<usize>,
    p: Policy,
    now: Timestamp,
    later: Timestamp,
    i: int,
)
    requires
        orphaned_state(st, f, s, now),
        newest_is_held(s, g, r),
    ensures
        f.stage == Stage::Orphaned,
        absence_known(f.stage),
        f.frozen is Some,
        st.frozen is None ==> f.frozen->0.since == now,
        g.len() == s.len(),
        s.len() > 0 ==> exists|n: int| #[trigger] is_newest(s, n) && g[n].hold,
        goes(g, retention_of(f, p, later), i) ==> g[i].created.ns > f.frozen->0.since.ns,
        collapsed_ids(g, g.len() as int, later, p.thin.safety_ttl, f.frozen is Some).len() == 0,
{
    law_frozen_protects(g, retention_of(f, p, later), i, p.thin.safety_ttl);
    if s.len() > 0 && r is None {
        crate::store::lemma_newest(s);
        assert(is_newest(s, newest_index(s)->0));
    }
}

/// What is reported of a project that disappeared.
pub fn missing_message(record: &ProjectRecord, count: usize) -> (r: String)
    ensures
        r@ == record.name@ + ": project directory "@ + record.path@ + " disappeared; its "@ + dec(
            count as nat,
        ) + " snapshots are kept. Recreate it with `bpm restore "@ + record.name@
            + " --recreate`"@,
{
    let mut m = cat5(
        record.name.as_str(),
        ": project directory ",
        record.path.as_str(),
        " disappeared; its ",
        dec_u64(count as u64).as_str(),
    );
    m.append(" snapshots are kept. Recreate it with `bpm restore ");
    m.append(record.name.as_str());
    m.append(" --recreate`");
    m
}

/// What the hooks are told of a project that disappeared.
pub fn missing_hook(record: &ProjectRecord, root: &str) -> (r: HookCtx)
    ensures
        r.project == Some(record.name),
        r.project_path == Some(record.path),
        r.owner == Some((record.owner_uid, record.owner_gid)),
        r.root is Some && r.root->0@ == root@,
        r.snapshot is None && r.stage is None,
        r.reason@ == "project directory disappeared"@,
        r.extra@.len() == 0,
{
    HookCtx {
        project: Some(record.name.clone()),
        project_path: Some(record.path.clone()),
        owner: Some((record.owner_uid, record.owner_gid)),
        root: Some(root.to_owned()),
        snapshot: None,
        stage: None,
        reason: "project directory disappeared".to_owned(),
        extra: Vec::new(),
    }
}

/// The newest snapshot is old enough, or there is none.
pub open spec fn interval_over(snaps: Seq<SnapshotMeta>, now: Timestamp, interval: Duration) -> bool {
    match newest_index(snaps) {
        Some(i) => elapsed(now, snaps[i].created) >= interval.ns,
        None => true,
    }
}

/// The newest snapshot, where there is one.
pub open spec fn newest_of<'a>(snaps: Seq<SnapshotMeta>) -> Option<&'a SnapshotMeta> {
    match newest_index(snaps) {
        Some(i) => Some(&snaps[i]),
        None => None,
    }
}

/// The root itself is to be snapshotted.
pub open spec fn root_due(
    c: ContainerCfg,
    info: SubvolInfo,
    snaps: Seq<SnapshotMeta>,
    now: Timestamp,
) -> bool {
    c.enabled && interval_over(snaps, now, c.interval) && differs(info, newest_of(snaps))
}

/// Whether the root itself is snapshotted now: where it changed and the interval is over.
pub fn container_due(
    c: &ContainerCfg,
    info: &SubvolInfo,
    snaps: &Vec<SnapshotMeta>,
    now: Timestamp,
) -> (r: bool)
    ensures
        r == (c.enabled && interval_over(snaps@, now, c.interval) && differs(
            *info,
            newest_of(snaps@),
        )),
        r == root_due(*c, *info, snaps@, now),
{
    if !c.enabled {
        return false;
    }
    let n = newest(snaps);
    let due = match n {
        Some(m) => age(now, m.created).ns >= c.interval.ns,
        None => true,
    };
    due && changed_since(info, n)
}

/// The windows of a root: no hourly one, and a week for safety.
pub open spec fn container_windows(c: ContainerCfg) -> Windows {
    Windows {
        keep_all: c.keep_all,
        hourly: Duration { ns: 0 },
        daily: c.daily,
        weekly: c.weekly,
        safety_ttl: Duration { ns: 604_800_000_000_000 },
    }
}

/// The snapshots of the root itself that go.
pub fn container_step(c: &ContainerCfg, snaps: &Vec<SnapshotMeta>, now: Timestamp) -> (r: Vec<u64>)
    ensures
        !c.enabled ==> r@.len() == 0,
        c.enabled ==> lets_go(
            snaps@,
            (Retention {
                now,
                windows: container_windows(*c),
                frozen: None,
                thin_after_freeze: true,
            }),
            r@,
        ),
{
    if !c.enabled {
        return Vec::new();
    }
    let w = Windows::from_container(c);
    select_deletions(snaps, now, &w, None, true)
}

/// How the root itself is snapshotted.
pub fn container_snapshot() -> (r: SnapOpts)
    ensures
        r.kind == SnapshotKind::Auto,
        r.reason@ == "container"@,
        !r.stats && !r.hold && r.pair is None,
        r.stats_budget.ns == 120 * 1_000_000_000,
{
    let mut o = SnapOpts::new(SnapshotKind::Auto, "container".to_owned());
    o.stats = false;
    o
}

/// Whether a project is the one that discovery found: it may have changed identity (rollback,
/// recreate) since.
pub fn is_unchanged(record: &ProjectRecord, found: &SubvolInfo, live: Option<Uuid>) -> (r: bool)
    ensures
        r == (record.uuid@ == found.uuid@ && live is Some && live->0@ == record.uuid@),
{
    record.uuid.same(&found.uuid) && match live {
        Some(u) => u.same(&record.uuid),
        None => false,
    }
}

/// The state at the beginning of a project's turn: a project that was missing is back, and the
/// newest snapshot of this live subvolume says what was snapshotted.
pub open spec fn turn_begun(
    st: ProjectState,
    uuid: Seq<u8>,
    snaps: Seq<SnapshotMeta>,
    now: Timestamp,
) -> ProjectState {
    let s = if st.stage == Stage::Orphaned {
        ProjectState {
            stage: Stage::Active,
            stage_since: Some(now),
            missing_since: None,
            ..st
        }
    } else {
        st
    };
    match newest_index(snaps) {
        Some(i) => if snaps[i].source_uuid@ == uuid {
            ProjectState { snap_ctransid: snaps[i].source_ctransid, ..s }
        } else {
            s
        },
        None => s,
    }
}

/// Begins the turn of a project; true where its directory is back.
pub fn project_begin(
    st: &mut ProjectState,
    record: &ProjectRecord,
    snaps: &Vec<SnapshotMeta>,
    now: Timestamp,
) -> (r: bool)
    ensures
        r == (old(st).stage == Stage::Orphaned),
        *final(st) == turn_begun(*old(st), record.uuid@, snaps@, now),
{
    let back = st.stage == Stage::Orphaned;
    if back {
        st.missing_since = None;
        st.set_stage(Stage::Active, now);
    }
    if let Some(n) = newest(snaps) {
        if n.source_uuid.same(&record.uuid) {
            st.snap_ctransid = n.source_ctransid;
        }
    }
    back
}

/// The state as a run sees it that takes no snapshot: what the project is like now, and the stage
/// that this calls for.
pub open spec fn glanced(
    st: ProjectState,
    record: ProjectRecord,
    snaps: Seq<SnapshotMeta>,
    live: SubvolInfo,
    p: LifecyclePolicy,
    now: Timestamp,
) -> ProjectState {
    let o = observed(turn_begun(st, record.uuid@, snaps, now), live, now);
    let due = due_stage(o, p, record.adopted, now);
    if o.stage == due {
        o
    } else {
        ProjectState { stage: due, stage_since: Some(now), ..o }
    }
}

/// Looks at a project without doing anything to it, so that heavy work goes by what it is like
/// now. The state is not for keeping.
pub fn glance(
    st: &mut ProjectState,
    record: &ProjectRecord,
    snaps: &Vec<SnapshotMeta>,
    live: &SubvolInfo,
    p: &LifecyclePolicy,
    now: Timestamp,
)
    ensures
        *final(st) == glanced(*old(st), *record, snaps@, *live, *p, now),
{
    let _ = project_begin(st, record, snaps, now);
    let _ = note_live(st, live, now);
    let _ = update_stage(st, p, record.adopted, now);
}

/// The warning that stands in the state while automatic snapshots are paused.
pub const LOW_SPACE: &'static str = "low-space";

/// What follows from the decision about an automatic snapshot.
pub enum AutoStep {
    Take(SnapOpts),
    /// Snapshots are paused, which is reported once.
    Warn(String),
    Nothing,
}

/// What follows from the decision about an automatic snapshot.
pub fn project_step(
    st: &mut ProjectState,
    decision: SnapDecision,
    p: &Policy,
    snaps: &Vec<SnapshotMeta>,
    name: &str,
    now: Timestamp,
) -> (r: AutoStep)
    ensures
        *final(st) == (ProjectState { warned: final(st).warned, ..*old(st) }),
        match decision {
            SnapDecision::Take(reason) => r is Take && final(st).warned@ == old(st).warned@ && ({
                let o = r->Take_0;
                o.kind == SnapshotKind::Auto && o.reason == reason && o.stats == stats_due(
                    p.snapshot,
                    *old(st),
                    snaps@,
                    now,
                ) && o.stats_budget == p.snapshot.stats_budget && !o.hold && o.pair is None
            }),
            SnapDecision::Skip(s) => if s@ == "low free space"@ {
                if old(st).warned@.contains_key(LOW_SPACE@) {
                    r is Nothing && final(st).warned@ == old(st).warned@
                } else {
                    r is Warn && r->Warn_0@ == name@
                        + ": changed but free space is below thin.min_free; auto snapshots paused"@
                        && final(st).warned@ == old(st).warned@.insert(LOW_SPACE@, now)
                }
            } else {
                r is Nothing && final(st).warned@ == old(st).warned@.remove(LOW_SPACE@)
            },
        },
{
    match decision {
        SnapDecision::Take(reason) => {
            let stats = want_stats(&p.snapshot, st, snaps, now);
            let mut o = SnapOpts::new(SnapshotKind::Auto, reason);
            o.stats = stats;
            o.stats_budget = p.snapshot.stats_budget;
            AutoStep::Take(o)
        },
        SnapDecision::Skip(s) => {
            if str_eq(s, "low free space") {
                if st.warned.has(LOW_SPACE) {
                    return AutoStep::Nothing;
                }
                st.warned.insert(LOW_SPACE.to_owned(), now);
                AutoStep::Warn(
                    cat2(
                        name,
                        ": changed but free space is below thin.min_free; auto snapshots paused",
                    ),
                )
            } else {
                st.warned.remove(LOW_SPACE);
                AutoStep::Nothing
            }
        },
    }
}

/// An automatic snapshot was taken.
pub fn note_taken(st: &mut ProjectState, m: &SnapshotMeta)
    ensures
        *final(st) == snapshot_noted(
            ProjectState { snap_ctransid: m.source_ctransid, ..*old(st) },
            *m,
        ),
{
    st.snap_ctransid = m.source_ctransid;
    note_snapshot(st, m);
}

/// The windows of a project's retention policy.
pub open spec fn thin_windows(p: ThinPolicy) -> Windows {
    Windows {
        keep_all: p.keep_all,
        hourly: p.hourly,
        daily: p.daily,
        weekly: p.weekly,
        safety_ttl: p.safety_ttl,
    }
}

/// Why a project is frozen, where it is.
pub open spec fn frozen_of<'a>(st: ProjectState) -> Option<&'a Frozen> {
    match st.frozen {
        Some(f) => Some(&f),
        None => None,
    }
}

/// The retention of a project's snapshots.
pub open spec fn retention_of<'a>(st: ProjectState, p: Policy, now: Timestamp) -> Retention<'a> {
    Retention {
        now,
        windows: thin_windows(p.thin),
        frozen: frozen_of(st),
        thin_after_freeze: p.shrink_guard.thin_after_freeze,
    }
}

/// The snapshots `r` of a project go: none before the guard has seen the newest one.
pub open spec fn thinned(
    st: ProjectState,
    p: Policy,
    snaps: Seq<SnapshotMeta>,
    now: Timestamp,
    r: Seq<u64>,
) -> bool {
    if guard_up_to_date(st, snaps) {
        lets_go(snaps, retention_of(st, p, now), r)
    } else {
        r.len() == 0
    }
}

/// The snapshots of a project that go: none before the guard has seen the newest one.
pub fn retention(st: &ProjectState, p: &Policy, snaps: &Vec<SnapshotMeta>, now: Timestamp) -> (r:
    Vec<u64>)
    ensures
        thinned(*st, *p, snaps@, now, r@),
{
    if !thin_allowed(st, snaps) {
        return Vec::new();
    }
    let w = Windows::from_thin(&p.thin);
    select_deletions(snaps, now, &w, st.frozen.as_ref(), p.shrink_guard.thin_after_freeze)
}

/// Nothing is thinned as long as the guard has a snapshot left to look at.
pub proof fn law_no_thinning_before_the_guard(
    st: ProjectState,
    p: Policy,
    snaps: Seq<SnapshotMeta>,
    now: Timestamp,
    walk: Walk,
    r: Seq<u64>,
)
    requires
        next_guard_step(st, snaps, p.snapshot, now, walk) != GuardStep::Nothing,
        thinned(st, p, snaps, now, r),
    ensures
        r.len() == 0,
{
    law_guard_looks_at_every_snapshot(st, snaps, p.snapshot, now, walk);
}

/// What follows for a directory that waits for its conversion.
pub enum Pending {
    Queue(Heavy),
    /// It has waited for a day.
    Warn(String),
    Wait,
}

/// What follows for a directory that waits for its conversion since `since`; `ready` says
/// whether it can be converted now.
pub fn pending_step(
    ready: bool,
    since: Timestamp,
    now: Timestamp,
    warned: &StrMap<Timestamp>,
    name: &str,
    rel: &str,
) -> (r: Pending)
    ensures
        match r {
            Pending::Queue(h) => ready && h is Convert && h->Convert_name@ == name@ && h->rel@
                == rel@,
            Pending::Warn(m) => !ready && elapsed(now, since) > 86_400_000_000_000
                && !warned@.contains_key("convert-stuck:"@ + rel@) && m@ == name@
                + ": banned directory "@ + rel@
                + " is still a plain directory after a day (always busy?); run `bpm convert "@
                + name@ + " "@ + rel@ + "`"@,
            Pending::Wait => !ready && !(elapsed(now, since) > 86_400_000_000_000
                && !warned@.contains_key("convert-stuck:"@ + rel@)),
        },
{
    if ready {
        return Pending::Queue(Heavy::Convert { name: name.to_owned(), rel: rel.to_owned() });
    }
    if age(now, since).ns > 86_400_000_000_000 && !warned.has(
        cat2("convert-stuck:", rel).as_str(),
    ) {
        let mut m = cat4(
            name,
            ": banned directory ",
            rel,
            " is still a plain directory after a day (always busy?); run `bpm convert ",
        );
        m.append(name);
        m.append(" ");
        m.append(rel);
        m.append("`");
        return Pending::Warn(m);
    }
    Pending::Wait
}

/// A cold project that is not frozen and was adopted long enough ago.
pub open spec fn settled(st: ProjectState, p: Policy, adopted: Timestamp, now: Timestamp) -> bool {
    st.stage == Stage::Cold && st.frozen is None && elapsed(now, adopted)
        >= p.lifecycle.adopt_grace.ns
}

/// Whether a cold project may be collapsed and recompressed.
pub fn is_settled(st: &ProjectState, p: &Policy, adopted: Timestamp, now: Timestamp) -> (r: bool)
    ensures
        r == (st.stage == Stage::Cold && st.frozen is None && elapsed(now, adopted)
            >= p.lifecycle.adopt_grace.ns),
        r == settled(*st, *p, adopted, now),
{
    st.stage == Stage::Cold && st.frozen.is_none() && age(now, adopted).ns
        >= p.lifecycle.adopt_grace.ns
}

/// What a settled project needs.
pub open spec fn settled_work(
    st: ProjectState,
    p: Policy,
    live: SubvolInfo,
    snaps: Seq<SnapshotMeta>,
    now: Timestamp,
) -> int {
    let covered = match newest_index(snaps) {
        Some(i) => same_content(live, snaps[i]),
        None => false,
    };
    if collapsed_ids(snaps, snaps.len() as int, now, p.thin.safety_ttl, false).len() > 0
        || !covered {
        2
    } else if recompress_due(p.recompress, st, live.ctransid, snaps) {
        3
    } else {
        0
    }
}

/// What a settled project needs: first a collapse to one snapshot of the live state, then a
/// recompression.
pub fn settled_step(
    st: &ProjectState,
    p: &Policy,
    live: &SubvolInfo,
    snaps: &Vec<SnapshotMeta>,
    name: &str,
    now: Timestamp,
) -> (r: Option<Heavy>)
    ensures
        match r {
            Some(Heavy::Collapse { name: n }) => settled_work(*st, *p, *live, snaps@, now) == 2
                && n@ == name@,
            Some(Heavy::Recompress { name: n }) => settled_work(*st, *p, *live, snaps@, now) == 3
                && n@ == name@,
            Some(_) => false,
            None => settled_work(*st, *p, *live, snaps@, now) == 0,
        },
{
    let covered = match newest(snaps) {
        Some(n) => identical(live, n),
        None => false,
    };
    if !collapsed(snaps, now, p.thin.safety_ttl) || !covered {
        return Some(Heavy::Collapse { name: name.to_owned() });
    }
    if needs_recompress(&p.recompress, st, live.ctransid, snaps) {
        return Some(Heavy::Recompress { name: name.to_owned() });
    }
    None
}

/// Ends the turn of a project.
pub fn project_end(st: &mut ProjectState, now: Timestamp) -> (stage: String)
    ensures
        *final(st) == (ProjectState { last_tick: Some(now), last_error: None, ..*old(st) }),
        stage@ == stage_name(old(st).stage),
{
    st.last_tick = Some(now);
    st.last_error = None;
    st.stage.as_str().to_owned()
}

/// The turn of a project failed.
pub fn project_failed(st: &mut ProjectState, message: &str, now: Timestamp)
    ensures
        final(st).last_error is Some && final(st).last_error->0.at == now && final(st).last_error->0.message@ == message@,
        *final(st) == (ProjectState { last_error: final(st).last_error, ..*old(st) }),
{
    st.last_error = Some(ErrorRecord { at: now, message: message.to_owned() });
}

/// The stage that is shown of a project that is not managed.
pub fn unmanaged_stage(stage: Stage) -> (r: String)
    ensures
        r@ == stage_name(stage) + " (managed = false)"@,
{
    cat2(stage.as_str(), " (managed = false)")
}

/// An instant that may be unknown is not after another: unknown ones come first.
pub open spec fn not_after(a: Option<Timestamp>, b: Option<Timestamp>) -> bool {
    match (a, b) {
        (None, _) => true,
        (Some(_), None) => false,
        (Some(x), Some(y)) => x.ns <= y.ns,
    }
}

/// When an adoption was last tried.
pub open spec fn tried_at(m: Map<Seq<char>, Timestamp>, name: Seq<char>) -> Option<Timestamp> {
    if m.contains_key(name) {
        Some(m[name])
    } else {
        None
    }
}

/// Position `i` holds the directory that is adopted next: the one whose adoption was tried the
/// longest ago, or never; of several the first.
pub open spec fn is_next_adoption(
    names: Seq<Seq<char>>,
    attempts: Map<Seq<char>, Timestamp>,
    i: int,
) -> bool {
    &&& 0 <= i < names.len()
    &&& forall|j: int|
        0 <= j < names.len() ==> not_after(
            tried_at(attempts, names[i]),
            tried_at(attempts, #[trigger] names[j]),
        )
    &&& forall|j: int|
        0 <= j < i ==> !not_after(
            tried_at(attempts, #[trigger] names[j]),
            tried_at(attempts, names[i]),
        )
}

fn tried(attempts: &StrMap<Timestamp>, name: &str) -> (r: Option<Timestamp>)
    ensures
        r == tried_at(attempts@, name@),
{
    match attempts.get(name) {
        Some(t) => Some(*t),
        None => None,
    }
}

fn is_not_after(a: Option<Timestamp>, b: Option<Timestamp>) -> (r: bool)
    ensures
        r == not_after(a, b),
{
    match (a, b) {
        (None, _) => true,
        (Some(_), None) => false,
        (Some(x), Some(y)) => x.ns <= y.ns,
    }
}

/// The directory that is adopted next; the attempt is noted.
pub fn next_adoption(names: &Vec<String>, attempts: &mut StrMap<Timestamp>, now: Timestamp) -> (r:
    Option<usize>)
    ensures
        match r {
            Some(i) => is_next_adoption(texts(names@), old(attempts)@, i as int) && final(attempts)@ == old(attempts)@.insert(names@[i as int]@, now),
            None => names@.len() == 0 && final(attempts)@ == old(attempts)@,
        },
{
    if names.len() == 0 {
        return None;
    }
    let ghost t = texts(names@);
    let mut best: usize = 0;
    let mut i: usize = 1;
    while i < names.len()
        invariant
            best < i <= names@.len(),
            t == texts(names@),
            forall|j: int|
                0 <= j < i ==> not_after(
                    tried_at(attempts@, t[best as int]),
                    tried_at(attempts@, #[trigger] t[j]),
                ),
            forall|j: int|
                0 <= j < best ==> !not_after(
                    tried_at(attempts@, #[trigger] t[j]),
                    tried_at(attempts@, t[best as int]),
                ),
        decreases names@.len() - i,
    {
        let a = tried(attempts, names[best].as_str());
        let b = tried(attempts, names[i].as_str());
        assert(t[best as int] == names@[best as int]@ && t[i as int] == names@[i as int]@);
        if !is_not_after(a, b) {
            best = i;
        }
        i += 1;
    }
    attempts.insert(names[best].clone(), now);
    Some(best)
}

/// Why heavy work is not done where space is short; `have` is the figure.
pub fn heavy_gate(free: u64, min_free: u64, have: &str) -> (r: Option<String>)
    ensures
        match r {
            Some(m) => free < min_free && m@ == "skipped: only "@ + have@ + " free"@,
            None => free >= min_free,
        },
{
    if free < min_free {
        Some(cat3("skipped: only ", have, " free"))
    } else {
        None
    }
}

/// What came of heavy work that failed: whether it counts as a failure of the tick. What was
/// refused does not.
pub fn heavy_failed(exit_code: i32) -> (r: bool)
    ensures
        r == (exit_code != 7),
{
    exit_code != 7
}

/// What is said of an adoption.
pub fn adopted_text(r: &AdoptReport) -> (t: String)
    ensures
        t@ == "adopted ("@ + dec(r.files as nat) + " files, snapshot #"@ + dec(r.snapshot as nat)
            + ")"@,
{
    cat5(
        "adopted (",
        dec_u64(r.files).as_str(),
        " files, snapshot #",
        dec_u64(r.snapshot).as_str(),
        ")",
    )
}

/// What is said of a collapse.
pub fn collapsed_text(deleted: usize, kept: usize) -> (t: String)
    ensures
        t@ == dec(deleted as nat) + " deleted, "@ + dec(kept as nat) + " kept"@,
{
    cat4(
        dec_u64(deleted as u64).as_str(),
        " deleted, ",
        dec_u64(kept as u64).as_str(),
        " kept",
    )
}

/// What is said of a recompression.
pub fn recompressed_text(r: &RecompressReport) -> (t: String)
    ensures
        t@ == if r.done {
            "zstd:"@ + dec(r.level as nat) + " done"@
        } else {
            "skipped: "@ + (match r.skipped {
                Some(s) => s@,
                None => Seq::empty(),
            })
        },
{
    if r.done {
        return cat3("zstd:", dec_u64(r.level as u64).as_str(), " done");
    }
    let why = match &r.skipped {
        Some(s) => s.clone(),
        None => String::new(),
    };
    let t = cat2("skipped: ", why.as_str());
    assert(t@ =~= "skipped: "@ + (match r.skipped {
        Some(s) => s@,
        None => Seq::empty(),
    }));
    t
}

/// What is added to an error of heavy work.
pub fn heavy_context(op: &Heavy, root: &str) -> (r: String)
    ensures
        r@ == described(*op) + " under "@ + root@,
{
    cat3(op.describe().as_str(), " under ", root)
}

/// A conversion is done: the directory no longer waits for it.
pub fn note_converted(st: &mut ProjectState, rel: &str)
    ensures
        final(st).pending_convert@ == old(st).pending_convert@.remove(rel@),
        *final(st) == (ProjectState { pending_convert: final(st).pending_convert, ..*old(st) }),
{
    st.pending_convert.remove(rel);
}

/// A conversion goes before everything else, an adoption before a collapse, and a recompression
/// comes last; of work of one sort the first goes first.
pub proof fn law_urgent_work_comes_first(h: Seq<Heavy>, i: int, j: int)
    requires
        is_next_heavy(h, i),
        0 <= j < h.len(),
    ensures
        h[j] is Convert ==> h[i] is Convert,
        h[j] is Adopt ==> h[i] is Convert || h[i] is Adopt,
        h[j] is Collapse ==> h[i] !is Recompress,
        j < i ==> (h[j] is Convert ==> h[i] !is Convert) && (h[j] is Adopt ==> h[i] !is Adopt) && (
        h[j] is Collapse ==> h[i] !is Collapse) && (h[j] is Recompress ==> h[i] !is Recompress),
{
    assert(rank(h[i]) <= rank(h[j]));
    if j < i {
        assert(rank(h[i]) < rank(h[j]));
    }
}

/// The interval between snapshots of the root runs from the newest one: it is over once that one
/// is at least as old as the interval, and where there is none.
pub proof fn law_the_interval_runs_from_the_newest(
    snaps: Seq<SnapshotMeta>,
    now: Timestamp,
    interval: Duration,
    n: int,
)
    requires
        newest_index(snaps) == Some(n),
    ensures
        interval_over(Seq::empty(), now, interval),
        snaps[n].created.ns <= now.ns ==> (interval_over(snaps, now, interval)
            <==> snaps[n].created.ns + interval.ns <= now.ns),
        now.ns < snaps[n].created.ns && interval.ns > 0 ==> !interval_over(snaps, now, interval),
{
}

/// The windows of retention are those of the policy, each under its own name; a root has no
/// hourly window, and its safety snapshots live for seven days.
pub proof fn law_windows_come_from_the_policy(
    st: ProjectState,
    p: Policy,
    c: ContainerCfg,
    now: Timestamp,
)
    ensures
        ({
            let r = retention_of(st, p, now);
            &&& r.windows.keep_all.ns == p.thin.keep_all.ns
            &&& r.windows.hourly.ns == p.thin.hourly.ns
            &&& r.windows.daily.ns == p.thin.daily.ns
            &&& r.windows.weekly.ns == p.thin.weekly.ns
            &&& r.windows.safety_ttl.ns == p.thin.safety_ttl.ns
            &&& r.now == now
            &&& r.thin_after_freeze == p.shrink_guard.thin_after_freeze
            &&& r.frozen is Some <==> st.frozen is Some
            &&& st.frozen matches Some(f) ==> r.frozen->0.since == f.since
        }),
        ({
            let w = container_windows(c);
            &&& w.keep_all.ns == c.keep_all.ns
            &&& w.hourly.ns == 0
            &&& w.daily.ns == c.daily.ns
            &&& w.weekly.ns == c.weekly.ns
            &&& w.safety_ttl.ns == 7 * 24 * 3_600 * 1_000_000_000
        }),
{
}

/// A project that was orphaned is active again when its turn begins, and no other project changes
/// its stage there. What was snapshotted last is taken from the newest snapshot of this very
/// subvolume, and of no other one; nothing else changes.
pub proof fn law_turns_begin_where_the_project_is(
    st: ProjectState,
    uuid: Seq<u8>,
    snaps: Seq<SnapshotMeta>,
    now: Timestamp,
)
    ensures
        ({
            let f = turn_begun(st, uuid, snaps, now);
            &&& st.stage is Orphaned ==> f.stage is Active && f.stage_since == Some(now)
                && f.missing_since is None
            &&& st.stage !is Orphaned ==> f.stage == st.stage && f.stage_since == st.stage_since
                && f.missing_since == st.missing_since
            &&& newest_index(snaps) matches Some(n) ==> f.snap_ctransid
                == if snaps[n].source_uuid@ == uuid {
                snaps[n].source_ctransid
            } else {
                st.snap_ctransid
            }
            &&& snaps.len() == 0 ==> f.snap_ctransid == st.snap_ctransid
            &&& f == ProjectState {
                stage: f.stage,
                stage_since: f.stage_since,
                missing_since: f.missing_since,
                snap_ctransid: f.snap_ctransid,
                ..st
            }
        }),
{
}

/// A glance shows the stage that the project is due for, and since when only where that is a new
/// one.
pub proof fn law_a_glance_shows_the_due_stage(
    st: ProjectState,
    record: ProjectRecord,
    snaps: Seq<SnapshotMeta>,
    live: SubvolInfo,
    p: LifecyclePolicy,
    now: Timestamp,
)
    ensures
        ({
            let o = observed(turn_begun(st, record.uuid@, snaps, now), live, now);
            let g = glanced(st, record, snaps, live, p, now);
            &&& g.stage == due_stage(o, p, record.adopted, now)
            &&& g.stage == o.stage ==> g.stage_since == o.stage_since
            &&& g.stage != o.stage ==> g.stage_since == Some(now)
            &&& g == ProjectState { stage: g.stage, stage_since: g.stage_since, ..o }
        }),
{
}

/// A settled project is collapsed as long as something is left to delete or its live state is not
/// in the newest snapshot; only after that it is recompressed.
pub proof fn law_settled_projects_are_collapsed_first(
    st: ProjectState,
    p: Policy,
    live: SubvolInfo,
    snaps: Seq<SnapshotMeta>,
    now: Timestamp,
    n: int,
)
    requires
        newest_index(snaps) == Some(n),
    ensures
        ({
            let left = collapsed_ids(snaps, snaps.len() as int, now, p.thin.safety_ttl, false);
            let seen = live.ctransid == snaps[n].source_ctransid && live.generation
                <= snaps[n].snapshot_otransid;
            let w = settled_work(st, p, live, snaps, now);
            &&& left.len() > 0 || !seen ==> w == 2
            &&& w == 3 ==> left.len() == 0 && seen && recompress_due(
                p.recompress,
                st,
                live.ctransid,
                snaps,
            )
            &&& w == 0 ==> left.len() == 0 && seen && !recompress_due(
                p.recompress,
                st,
                live.ctransid,
                snaps,
            )
            &&& w == 0 || w == 2 || w == 3
        }),
        settled_work(st, p, live, Seq::empty(), now) == 2,
{
}

/// A directory whose adoption was never tried goes before one whose adoption was, and of those
/// that were tried the one that has waited longest; of equals the first.
pub proof fn law_adoptions_take_turns(
    names: Seq<Seq<char>>,
    attempts: Map<Seq<char>, Timestamp>,
    i: int,
    j: int,
)
    requires
        is_next_adoption(names, attempts, i),
        0 <= j < names.len(),
    ensures
        !attempts.contains_key(names[j]) ==> !attempts.contains_key(names[i]) && i <= j,
        attempts.contains_key(names[i]) ==> attempts.contains_key(names[j])
            && attempts[names[i]].ns <= attempts[names[j]].ns,
        attempts.contains_key(names[i]) && j < i ==> attempts[names[i]].ns < attempts[names[j]].ns,
{
    assert(not_after(tried_at(attempts, names[i]), tried_at(attempts, names[j])));
    if j < i {
        assert(!not_after(tried_at(attempts, names[j]), tried_at(attempts, names[i])));
    }
}

/// What a root is summed up to counts each project once.
pub proof fn law_summaries_count_every_project(p: Seq<ProjectTick>, t: ProjectTick)
    ensures
        t.snapshot is Some ==> snapshotted(p.push(t)) == snapshotted(p) + 1,
        t.snapshot is None ==> snapshotted(p.push(t)) == snapshotted(p),
        deletions(p.push(t)) == deletions(p) + t.deleted@.len(),
        snapshotted(Seq::empty()) == 0 && deletions(Seq::empty()) == 0,
{
    assert(p.push(t).drop_last() =~= p);
}

/// A project that disappears is missing from then on. It is frozen with its newest snapshot as
/// what it was like; a freeze that was there before stays.
pub proof fn law_disappearance_is_noted(
    st: ProjectState,
    f: ProjectState,
    s: Seq<SnapshotMeta>,
    now: Timestamp,
    n: int,
)
    requires
        orphaned_state(st, f, s, now),
        newest_index(s) == Some(n),
    ensures
        f.stage is Orphaned && f.missing_since == Some(now),
        st.stage !is Orphaned ==> f.stage_since == Some(now),
        st.frozen is Some ==> f.frozen == st.frozen,
        st.frozen is None ==> f.frozen is Some && f.frozen->0.since == now
            && f.frozen->0.ref_snap == Some(s[n].id) && f.frozen->0.trigger_snap is None,
{
}

/// A cold project is settled from the end of its grace after the adoption on, and stays so; one
/// that is frozen or not cold is not settled, however long ago it was adopted.
pub proof fn law_projects_settle_after_their_grace(
    st: ProjectState,
    p: Policy,
    adopted: Timestamp,
    now: Timestamp,
    later: Timestamp,
)
    requires
        adopted.ns <= now.ns <= later.ns,
    ensures
        settled(st, p, adopted, now) ==> settled(st, p, adopted, later),
        settled(st, p, adopted, now) ==> st.stage is Cold && st.frozen is None,
        st.stage is Cold && st.frozen is None ==> (settled(st, p, adopted, now) <==> adopted.ns
            + p.lifecycle.adopt_grace.ns <= now.ns),
{
}

/// Something unfinished is left over once it is older than ten minutes; of an unknown age it never
/// is.
pub proof fn law_unfinished_things_are_left_over_after_ten_minutes(a: Duration, b: Duration)
    ensures
        left_over(Some(a)) <==> a.ns > 10 * 60 * 1_000_000_000,
        left_over(Some(a)) && a.ns <= b.ns ==> left_over(Some(b)),
        !left_over(None),
{
}

/// A root is snapshotted where that is switched on, something changed since the newest snapshot of
/// it, and that one is as old as the interval.
pub proof fn law_roots_are_snapshotted_when_changed(
    c: ContainerCfg,
    info: SubvolInfo,
    snaps: Seq<SnapshotMeta>,
    now: Timestamp,
    n: int,
)
    requires
        newest_index(snaps) == Some(n),
        snaps[n].created.ns <= now.ns,
    ensures
        root_due(c, info, snaps, now) <==> c.enabled && snaps[n].created.ns + c.interval.ns <= now.ns
            && (info.ctransid != snaps[n].source_ctransid || snaps[n].snapshot_otransid
            < info.generation),
        root_due(c, info, Seq::empty(), now) <==> c.enabled,
{
}

/// Every project has its turn in a run that names none, and only named ones in a run that names
/// some. A run that does heavy work only passes over projects that were renamed.
pub proof fn law_projects_have_their_turn(a: TickArgs, name: Seq<char>, unit: Seq<char>)
    ensures
        a.projects@.len() > 0 && !texts(a.projects@).contains(name) ==> !takes_turn(a, name, unit),
        a.heavy_only && name != unit ==> !takes_turn(a, name, unit),
        a.projects@.len() == 0 && !a.heavy_only ==> takes_turn(a, name, unit),
        takes_turn(a, name, unit) ==> takes_turn(a, name, name),
        texts(a.projects@).contains(name) ==> takes_turn(a, name, name),
{
}

} // verus!
