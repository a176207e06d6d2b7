use bpm::btrfs::{SubvolInfo, Uuid};
use bpm::config::schema::{LifecyclePolicy, RootCfg};
use bpm::error::BpmError;
use bpm::mechanics::rollback::{
    banned_path, left_warning, recreate, recreate_allowed, rollback_allowed, rollback_hook, rollback_journal,
    RestoreReport, RollbackReport, RollbackStep,
};
use bpm::ops::restore::{
    note_recreated, note_restored, note_rolled_back, post_snapshot, pre_restore_snapshot, recreate_snapshot,
    recreated_text, reference_files, restored_snapshot, restored_text, rollback, rolled_back_message, safety_snapshot,
};
use bpm::project::ProjectRef;
use bpm::store::{Frozen, ProjectRecord, ProjectState, RefStats, SnapshotKind, SnapshotMeta, Stage, Store};
use bpm::util::relpath::RelPath;
use bpm::util::time::{Duration, Timestamp};
use bpm::util::walk::TreeStats;

const NOW: Timestamp = Timestamp { ns: 1_800_000_000_000_000_000 };

fn snap(id: u64) -> SnapshotMeta {
    SnapshotMeta::sample(id, "demo")
}

fn live(ctransid: u64, generation: u64) -> SubvolInfo {
    SubvolInfo {
        id: 300,
        name: "demo".into(),
        parent_id: 5,
        generation,
        flags: 0,
        uuid: Uuid([1; 16]),
        parent_uuid: None,
        received_uuid: None,
        ctransid,
        otransid: 10,
        ctime: None,
        otime: None,
    }
}

fn lifecycle() -> LifecyclePolicy {
    LifecyclePolicy {
        dormant_after: Duration::from_secs(14 * 86_400),
        cold_after: Duration::from_secs(60 * 86_400),
        adopt_grace: Duration::from_secs(86_400),
    }
}

fn orphan() -> ProjectState {
    let mut st = ProjectState::new();
    st.stage = Stage::Orphaned;
    st.missing_since = Some(NOW);
    st.frozen = Some(Frozen { since: NOW, reasons: vec![], trigger_snap: None, ref_snap: Some(2) });
    st
}

#[test]
fn snapshots_around_a_restore() {
    for (o, kind, reason, pair) in [
        (recreate_snapshot(3), SnapshotKind::Post, "recreated from #3", None),
        (restored_snapshot(3), SnapshotKind::Post, "after restoring from #3", None),
        (safety_snapshot(3), SnapshotKind::Rollback, "before rollback to #3", None),
        (pre_restore_snapshot(3), SnapshotKind::PreRestore, "before restoring from #3", None),
        (post_snapshot(3, 9), SnapshotKind::Post, "rolled back to #3", Some(9)),
    ] {
        assert_eq!((o.kind, o.reason.as_str(), o.pair), (kind, reason, pair));
        assert!(o.stats && !o.hold);
    }
}

#[test]
fn recreated_projects_start_anew() {
    let mut st = orphan();
    note_recreated(&mut st, &lifecycle(), &snap(5), &live(300, 300), NOW);
    assert_eq!((st.stage, st.last_change_at, st.missing_since), (Stage::Active, Some(NOW), None));
    assert!(st.frozen.is_none());
    assert_eq!(st.snap_ctransid, 105);
    assert_eq!(
        recreated_text("demo", "/space/demo", 3, 5),
        "demo: recreated /space/demo from snapshot #3 (new snapshot #5); build directories start empty"
    );
    assert!(recreate_allowed("/space/demo", false).is_ok());
    assert_eq!(
        recreate_allowed("/space/demo", true),
        Err(BpmError::Refused("/space/demo exists; use `bpm rollback` instead".into()))
    );
    let mut r = ProjectRecord::new("demo", "/space/demo", Uuid([1; 16]), 1000, 1000, NOW);
    recreate(&mut r, Uuid([2; 16]));
    assert_eq!(r.uuid, Uuid([2; 16]));
    assert!(r.owns(Some(Uuid([1; 16]))) && r.owns(Some(Uuid([2; 16]))) && !r.owns(None));
}

#[test]
fn a_restore_is_activity() {
    let mut st = ProjectState::new();
    st.stage = Stage::Cold;
    note_restored(&mut st, &snap(5), NOW);
    assert_eq!((st.stage, st.stage_since, st.last_change_at), (Stage::Active, Some(NOW), Some(NOW)));
    assert_eq!(st.last_snapshot_at, Some(snap(5).created));
    let mut report = RestoreReport { restored: vec!["a".into(), "b/c".into()], pre_snapshot: None, warnings: vec![] };
    assert_eq!(restored_text(&report), "restored a\nrestored b/c");
    report.pre_snapshot = Some(7);
    assert_eq!(restored_text(&report), "restored a\nrestored b/c\n(previous state saved as snapshot #7)");
}

#[test]
fn a_rollback_is_activity() {
    let mut st = orphan();
    st.collapse_incomplete_ctransid = Some(4);
    let mut before = snap(2);
    before.stats = Some(TreeStats { complete: true, files: 9, ..TreeStats::empty() });
    let mut post = snap(5);
    post.stats = Some(TreeStats { complete: true, files: 6, bytes: 60, ..TreeStats::empty() });
    st.ref_stats = None;
    assert_eq!(note_rolled_back(&mut st, &vec![before], &post, &live(300, 301), NOW), 9);
    assert_eq!(st.guard_seen, 5);
    assert_eq!(st.ref_stats, Some(RefStats { files: 6, files_snap: 5, bytes: 60, bytes_snap: 5 }));
    assert_eq!((st.seen_ctransid, st.tool_ctransid, st.snap_ctransid), (300, 300, 105));
    assert_eq!((st.stage, st.collapse_incomplete_ctransid), (Stage::Active, None));
    let mut snaps: Vec<SnapshotMeta> = (1..=3).map(snap).collect();
    st.ref_stats = Some(RefStats { files: 40, files_snap: 1, bytes: 1, bytes_snap: 1 });
    assert_eq!(reference_files(&st, &snaps), 40);
    snaps[1].stats = Some(TreeStats { complete: true, files: 70, ..TreeStats::empty() });
    assert_eq!(reference_files(&st, &snaps), 70);
    st.frozen = None;
    st.ref_stats = None;
    assert_eq!(reference_files(&st, &snaps), 0);
}

#[test]
fn rollbacks_that_change_nothing_are_refused() {
    let snaps: Vec<SnapshotMeta> = (1..=3).map(snap).collect();
    assert_eq!(
        rollback("demo", &live(103, 203), &snaps, &snaps[2]),
        Err(BpmError::Refused("demo is already identical to snapshot #3".into()))
    );
    assert_eq!(rollback("demo", &live(104, 204), &snaps, &snaps[2]), Ok(()));
    assert_eq!(rollback("demo", &live(102, 202), &snaps, &snaps[1]), Ok(()));
    assert_eq!(rollback_allowed("/space/demo", "demo", true, &None, false), Ok(()));
    let busy = Some("vim (7)".to_string());
    assert_eq!(rollback_allowed("/space/demo", "demo", true, &busy, true), Ok(()));
    assert_eq!(
        rollback_allowed("/space/demo", "demo", true, &busy, false),
        Err(BpmError::Refused("files open for writing under /space/demo: vim (7) (or --force)".into()))
    );
    assert_eq!(
        rollback_allowed("/space/demo", "demo", false, &None, true),
        Err(BpmError::Refused("/space/demo does not exist; use `bpm restore --project demo`".into()))
    );
}

#[test]
fn rollbacks_in_words() {
    let mut r = RollbackReport {
        safety_snapshot: 8,
        moved_nested: vec![],
        dropped_nested: vec![],
        old_uuid: String::new(),
        new_uuid: String::new(),
        leftover: None,
    };
    assert_eq!(
        rolled_back_message("demo", 3, &r, 9, false),
        "demo: rolled back to #3 (previous state kept as snapshot #8; new snapshot #9)"
    );
    r.moved_nested = vec!["target".into(), "web/dist".into()];
    r.leftover = Some("/space/demo.bpm-rollback-1".into());
    assert_eq!(
        rolled_back_message("demo", 3, &r, 9, true),
        "demo: rolled back to #3 (previous state kept as snapshot #8; new snapshot #9)\n  kept build directories: \
         target, web/dist\n  project unfrozen\n  leftover /space/demo.bpm-rollback-1 (run `bpm doctor --fix`)"
    );
    assert_eq!(left_warning("/space/x", &vec![]), None);
    assert_eq!(
        left_warning("/space/x", &vec!["a".into(), "b".into()]),
        Some("rollback: nested subvolumes left in /space/x: a, b".into())
    );
    let bans = vec![RelPath::parse("target").unwrap(), RelPath::parse("web/dist").unwrap()];
    assert!(banned_path("web/dist", &bans) && !banned_path("web", &bans));
    let store = Store::new("/space", ".bpm", false);
    let unit = store.unit("demo");
    let record = ProjectRecord::new("demo", "/space/demo", Uuid([1; 16]), 1000, 1000, NOW);
    let pref = ProjectRef { root: RootCfg::adhoc("/space".into()), store, unit, record };
    let h = rollback_hook(&pref, &snap(3));
    assert_eq!((h.reason.as_str(), h.root.as_deref()), ("rollback to #3", Some("/space")));
    assert_eq!(rollback_journal(RollbackStep::SetAside), Some(3));
    assert_eq!(rollback_journal(RollbackStep::DeleteAside), Some(7));
    assert_eq!(rollback_journal(RollbackStep::PreHook), None);
}
