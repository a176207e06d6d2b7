use bpm::btrfs::{SubvolInfo, Uuid};
use bpm::cli::TickArgs;
use bpm::config::schema::{
    AdoptMode, ContainerCfg, LifecyclePolicy, Policy, Precreate, RecompressPolicy, ShrinkPolicy, SnapshotPolicy, ThinPolicy,
};
use bpm::mechanics::adopt::AdoptReport;
use bpm::mechanics::recompress::RecompressReport;
use bpm::ops::tick::{
    adopted_text, glance, has_turn, parts, runs_light, Parts, collapsed_text, container_snapshot, container_step, heavy_context, heavy_failed, is_absence_known,
    is_back, is_selected, is_settled, is_unchanged, missing_hook, missing_message, note_converted, note_taken,
    pending_step, project_begin, project_end, project_failed, project_step, recompressed_text, renamed_record,
    retention, root_line, settled_step, unmanaged_stage, AutoStep, Heavy, Pending, ProjectTick, RootTick,
};
use bpm::policy::change::SnapDecision;
use bpm::store::{Frozen, ProjectRecord, ProjectState, RecompressRecord, SnapshotKind, SnapshotMeta, Stage};
use bpm::util::strmap::StrMap;
use bpm::util::time::{Duration, Timestamp};
use bpm::util::walk::TreeStats;

const NOW: Timestamp = Timestamp { ns: 1_800_000_000_000_000_000 };
const DAY: u64 = 86_400;

fn before(secs: u64) -> Timestamp {
    Timestamp { ns: NOW.ns - secs as i128 * 1_000_000_000 }
}

fn secs(n: u64) -> Duration {
    Duration::from_secs(n)
}

fn policy() -> Policy {
    Policy {
        banlist_precreate: Precreate::Primary,
        banlist_settle: secs(600),
        keep_build_on_adopt: true,
        snapshot: SnapshotPolicy {
            min_interval: secs(300),
            stats: true,
            stats_budget: secs(20),
            stats_min_interval: secs(1800),
        },
        thin: ThinPolicy {
            keep_all: secs(6 * 3600),
            hourly: secs(2 * DAY),
            daily: secs(14 * DAY),
            weekly: secs(56 * DAY),
            safety_ttl: secs(7 * DAY),
            min_free: 0,
        },
        lifecycle: LifecyclePolicy {
            dormant_after: secs(14 * DAY),
            cold_after: secs(60 * DAY),
            adopt_grace: secs(DAY),
        },
        recompress: RecompressPolicy { enabled: true, level: 9, max_bytes: 1 << 40, min_free: 0, nested: false },
        shrink_guard: ShrinkPolicy {
            enabled: true,
            min_files: 1,
            min_bytes: 1,
            exclude: vec![],
            sentinels: vec![],
            thin_after_freeze: true,
        },
    }
}

fn snap(id: u64, age: u64) -> SnapshotMeta {
    SnapshotMeta { created: before(age), ..SnapshotMeta::sample(id, "demo") }
}

fn live(ctransid: u64, generation: u64) -> SubvolInfo {
    SubvolInfo {
        id: 300,
        name: "demo".into(),
        parent_id: 5,
        generation,
        flags: 0,
        uuid: Uuid([1; 16]),
        parent_uuid: None,
        received_uuid: None,
        ctransid,
        otransid: 10,
        ctime: None,
        otime: None,
    }
}

fn record() -> ProjectRecord {
    ProjectRecord::new("demo", "/space/demo", Uuid([1; 16]), 1000, 1001, before(400 * DAY))
}

fn frozen(since: Timestamp) -> Frozen {
    Frozen { since, reasons: vec!["lost".into()], trigger_snap: None, ref_snap: None }
}

#[test]
fn one_line_for_each_root() {
    let mut r = RootTick::new("/space");
    assert_eq!(root_line(&r, 0), "/space: 0 projects, 0 snapshots, 0 deleted");
    let mut p = ProjectTick::new("demo");
    p.snapshot = Some(4);
    p.deleted = vec![1, 2];
    r.projects = vec![p, ProjectTick::new("other")];
    r.heavy = Some("collapse demo".into());
    r.heavy_result = Some("3 deleted, 1 kept".into());
    assert_eq!(
        root_line(&r, 2),
        "/space: 2 projects, 1 snapshots, 2 deleted, collapse demo: 3 deleted, 1 kept, 2 errors"
    );
    r.skipped = Some("no store".into());
    assert_eq!(root_line(&r, 0), "/space: skipped (no store)");
}

#[test]
fn ticks_look_at_the_named_projects() {
    assert!(is_selected(&vec![], "demo"));
    assert!(is_selected(&vec!["a".into(), "demo".into()], "demo"));
    assert!(!is_selected(&vec!["a".into()], "demo"));
}

#[test]
fn heavy_runs_do_only_heavy_work() {
    let args = |heavy_only, no_heavy, named: Vec<String>| TickArgs {
        projects: named,
        no_heavy,
        heavy_only,
        lock_timeout: secs(0),
    };
    let plain = args(false, false, vec![]);
    let alone = args(true, false, vec![]);
    let named = args(false, true, vec!["demo".into()]);
    assert!(runs_light(&plain) && !runs_light(&alone));
    let all = Parts { light: true, container: true, adopt: true, heavy: true };
    assert_eq!(parts(&plain, AdoptMode::Auto), all);
    assert_eq!(parts(&plain, AdoptMode::Manual), Parts { adopt: false, ..all });
    assert_eq!(parts(&alone, AdoptMode::Auto), Parts { light: false, container: false, ..all });
    let few = Parts { light: true, container: false, adopt: false, heavy: false };
    assert_eq!(parts(&named, AdoptMode::Auto), few);
    assert!(has_turn(&plain, "demo", "old") && has_turn(&alone, "demo", "demo"));
    assert!(!has_turn(&alone, "demo", "old") && !has_turn(&named, "other", "other"));
}

#[test]
fn heavy_work_goes_by_what_a_project_is_like_now() {
    let mut st = ProjectState::new();
    st.stage = Stage::Cold;
    st.seen_ctransid = 100;
    st.snap_ctransid = 100;
    st.last_change_at = Some(before(90 * DAY));
    let p = policy().lifecycle;
    glance(&mut st, &record(), &vec![], &live(100, 110), &p, NOW);
    assert_eq!((st.stage, st.last_change_at), (Stage::Cold, Some(before(90 * DAY))));
    let mut changed = live(101, 111);
    changed.ctime = Some(before(60));
    glance(&mut st, &record(), &vec![], &changed, &p, NOW);
    assert_eq!((st.stage, st.stage_since, st.last_change_at), (Stage::Active, Some(NOW), Some(before(60))));
}

#[test]
fn records_follow_a_rename() {
    let mut r = record();
    renamed_record(&mut r, "new", "/space/new");
    assert_eq!((r.name.as_str(), r.path.as_str(), r.owner_uid), ("new", "/space/new", 1000));
}

#[test]
fn projects_that_are_gone_and_back() {
    assert!(is_back(&record(), Some(Uuid([1; 16])), true));
    assert!(!is_back(&record(), Some(Uuid([1; 16])), false));
    assert!(!is_back(&record(), Some(Uuid([2; 16])), true));
    assert!(!is_back(&record(), None, true));
    let mut st = ProjectState::new();
    assert!(!is_absence_known(&st));
    st.stage = Stage::Orphaned;
    assert!(is_absence_known(&st));
    assert_eq!(
        missing_message(&record(), 3),
        "demo: project directory /space/demo disappeared; its 3 snapshots are kept. Recreate it with `bpm restore demo --recreate`"
    );
    let h = missing_hook(&record(), "/space");
    assert_eq!((h.owner, h.reason.as_str()), (Some((1000, 1001)), "project directory disappeared"));
    st.missing_since = Some(before(60));
    assert!(project_begin(&mut st, &record(), &vec![snap(7, 60)], NOW));
    assert_eq!((st.stage, st.stage_since, st.missing_since), (Stage::Active, Some(NOW), None));
    assert_eq!(st.snap_ctransid, 107);
    assert!(!project_begin(&mut st, &record(), &vec![], NOW));
}

#[test]
fn a_project_that_changed_meanwhile_waits() {
    assert!(is_unchanged(&record(), &live(1, 1), Some(Uuid([1; 16]))));
    assert!(!is_unchanged(&record(), &live(1, 1), None));
    assert!(!is_unchanged(&record(), &live(1, 1), Some(Uuid([2; 16]))));
    let mut other = live(1, 1);
    other.uuid = Uuid([9; 16]);
    assert!(!is_unchanged(&record(), &other, Some(Uuid([1; 16]))));
    assert_eq!(unmanaged_stage(Stage::Dormant), "dormant (managed = false)");
}

#[test]
fn automatic_snapshots_and_low_space() {
    let p = policy();
    let mut st = ProjectState::new();
    match project_step(&mut st, SnapDecision::Take("changed".into()), &p, &vec![], "demo", NOW) {
        AutoStep::Take(o) => {
            assert_eq!((o.kind, o.reason.as_str(), o.stats), (SnapshotKind::Auto, "changed", true));
            assert_eq!(o.stats_budget, secs(20));
        }
        _ => panic!("a snapshot is taken"),
    }
    let low = || SnapDecision::Skip("low free space");
    match project_step(&mut st, low(), &p, &vec![], "demo", NOW) {
        AutoStep::Warn(m) => {
            assert_eq!(m, "demo: changed but free space is below thin.min_free; auto snapshots paused")
        }
        _ => panic!("it warns"),
    }
    assert!(matches!(project_step(&mut st, low(), &p, &vec![], "demo", NOW), AutoStep::Nothing));
    assert!(st.warned.has("low-space"));
    assert!(matches!(
        project_step(&mut st, SnapDecision::Skip("unchanged"), &p, &vec![], "demo", NOW),
        AutoStep::Nothing
    ));
    assert!(!st.warned.has("low-space"));
    let mut m = snap(5, 10);
    m.stats = Some(TreeStats::empty());
    note_taken(&mut st, &m);
    assert_eq!((st.snap_ctransid, st.last_snapshot_at, st.last_stats_at), (105, Some(before(10)), Some(before(10))));
}

#[test]
fn retention_waits_for_the_guard() {
    let p = policy();
    let snaps = vec![snap(1, 100 * DAY), snap(2, 90 * DAY), snap(3, 60)];
    let mut st = ProjectState::new();
    assert!(retention(&st, &p, &snaps, NOW).is_empty());
    st.guard_seen = 3;
    assert_eq!(retention(&st, &p, &snaps, NOW), vec![1, 2]);
    st.frozen = Some(frozen(before(95 * DAY)));
    assert_eq!(retention(&st, &p, &snaps, NOW), vec![2]);
    st.frozen = Some(frozen(before(0)));
    assert!(retention(&st, &p, &snaps, NOW).is_empty());
}

#[test]
fn container_snapshots_are_thinned_by_their_own_windows() {
    let mut c = ContainerCfg {
        enabled: true,
        interval: secs(DAY),
        keep_all: secs(DAY),
        daily: secs(7 * DAY),
        weekly: secs(0),
    };
    let snaps = vec![snap(1, 30 * DAY), snap(2, 3600), snap(3, 60)];
    assert_eq!(container_step(&c, &snaps, NOW), vec![1]);
    c.enabled = false;
    assert!(container_step(&c, &snaps, NOW).is_empty());
    let o = container_snapshot();
    assert_eq!((o.kind, o.reason.as_str(), o.stats), (SnapshotKind::Auto, "container", false));
}

#[test]
fn directories_wait_for_their_conversion() {
    let mut warned = StrMap::new();
    match pending_step(true, before(5), NOW, &warned, "demo", "target") {
        Pending::Queue(Heavy::Convert { name, rel }) => assert_eq!((name.as_str(), rel.as_str()), ("demo", "target")),
        _ => panic!("it is queued"),
    }
    assert!(matches!(pending_step(false, before(DAY), NOW, &warned, "demo", "target"), Pending::Wait));
    match pending_step(false, before(DAY + 1), NOW, &warned, "demo", "target") {
        Pending::Warn(m) => assert_eq!(
            m,
            "demo: banned directory target is still a plain directory after a day (always busy?); run `bpm convert demo target`"
        ),
        _ => panic!("it warns"),
    }
    warned.insert("convert-stuck:target".to_string(), NOW);
    assert!(matches!(pending_step(false, before(DAY + 1), NOW, &warned, "demo", "target"), Pending::Wait));
    let mut st = ProjectState::new();
    st.pending_convert.insert("target".into(), NOW);
    note_converted(&mut st, "target");
    assert!(st.pending_convert.entries().is_empty());
}

#[test]
fn settled_projects_collapse_and_are_recompressed() {
    let p = policy();
    let mut st = ProjectState::new();
    assert!(!is_settled(&st, &p, before(400 * DAY), NOW));
    st.stage = Stage::Cold;
    assert!(is_settled(&st, &p, before(400 * DAY), NOW));
    assert!(!is_settled(&st, &p, before(60), NOW));
    let mut newest = snap(2, 70 * DAY);
    newest.stats = Some(TreeStats { complete: true, bytes: 10, ..TreeStats::empty() });
    let both = vec![snap(1, 80 * DAY), SnapshotMeta { stats: None, ..snap(2, 70 * DAY) }];
    assert_eq!(
        settled_step(&st, &p, &live(102, 202), &both, "demo", NOW),
        Some(Heavy::Collapse { name: "demo".into() })
    );
    let one = vec![newest];
    assert_eq!(
        settled_step(&st, &p, &live(102, 202), &one, "demo", NOW),
        Some(Heavy::Recompress { name: "demo".into() })
    );
    assert_eq!(
        settled_step(&st, &p, &live(103, 203), &one, "demo", NOW),
        Some(Heavy::Collapse { name: "demo".into() })
    );
    st.recompress =
        Some(RecompressRecord { at: NOW, level: 9, ctransid: 102, bytes_before: 0, bytes_after: 0, skipped: None });
    assert_eq!(settled_step(&st, &p, &live(102, 202), &one, "demo", NOW), None);
    st.frozen = Some(frozen(NOW));
    assert!(!is_settled(&st, &p, before(400 * DAY), NOW));
}

#[test]
fn how_the_turn_of_a_project_ends() {
    let mut st = ProjectState::new();
    project_failed(&mut st, "no space", NOW);
    let e = st.last_error.as_ref().unwrap();
    assert_eq!((e.at, e.message.as_str()), (NOW, "no space"));
    assert_eq!(project_end(&mut st, NOW), "active");
    assert_eq!(st.last_tick, Some(NOW));
    assert!(st.last_error.is_none());
}

#[test]
fn heavy_work_in_words() {
    assert!(heavy_failed(1) && heavy_failed(8) && !heavy_failed(7));
    let a = AdoptReport {
        name: "demo".into(),
        path: "/space/demo".into(),
        converted: true,
        files: 12,
        bytes: 99,
        nested: vec![],
        snapshot: 1,
        stage: "active".into(),
        leftover: None,
    };
    assert_eq!(adopted_text(&a), "adopted (12 files, snapshot #1)");
    assert_eq!(collapsed_text(3, 1), "3 deleted, 1 kept");
    let mut r = RecompressReport::new(9);
    r.skipped = Some("frozen".into());
    assert_eq!(recompressed_text(&r), "skipped: frozen");
    r.done = true;
    assert_eq!(recompressed_text(&r), "zstd:9 done");
    let op = Heavy::Convert { name: "demo".into(), rel: "target".into() };
    assert_eq!(heavy_context(&op, "/space"), format!("{} under /space", op.describe()));
}
