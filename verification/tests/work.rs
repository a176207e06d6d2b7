use bpm::btrfs::{SubvolInfo, Uuid};
use bpm::config::schema::{RootCfg, ShrinkPolicy};
use bpm::mechanics::adopt::{
    abort_context, adopt_hook, adopt_snapshot, hardlink_warning, kind_eq, last_check, move_blocked, move_message,
    pretended, report, AdoptOpts,
};
use bpm::mechanics::banlist::{note_recreated, BanAction};
use bpm::mechanics::guard::{show_id, verdict, Verdict};
use bpm::mechanics::observe::{accept_as_reference, mark_evaluated, stage_hook};
use bpm::mechanics::recompress::{
    collapse_failed, collapse_snapshot, defrag_opts, forget_snapshot, note_recompressed, note_skipped, old_snapshot,
    recompress_hook, recompress_snapshot, same_keys, skip_by_gain, skip_by_space, touched_message, OldSnapshot,
};
use bpm::mechanics::retire::{counts, kept_message, show_counts, Unproven};
use bpm::mechanics::snapshot::{delete_hook_ctx, hook_ctx, planned_meta, SnapOpts};
use bpm::mechanics::{show_uuid, Target};
use bpm::policy::shrink::Gauge;
use bpm::project::ProjectRef;
use bpm::store::{Origin, ProjectRecord, ProjectState, RefStats, SnapshotKind, SnapshotMeta, Stage, Store};
use bpm::util::relpath::RelPath;
use bpm::util::time::{Duration, Timestamp};
use bpm::util::walk::{EntryInfo, EntryKind, TreeStats};

const NOW: Timestamp = Timestamp { ns: 1_800_000_000_000_000_000 };

fn snap(id: u64) -> SnapshotMeta {
    SnapshotMeta::sample(id, "demo")
}

fn live(ctransid: u64, generation: u64) -> SubvolInfo {
    SubvolInfo {
        id: 300,
        name: "demo".into(),
        parent_id: 5,
        generation,
        flags: 0,
        uuid: Uuid([1; 16]),
        parent_uuid: None,
        received_uuid: None,
        ctransid,
        otransid: 10,
        ctime: None,
        otime: None,
    }
}

fn record() -> ProjectRecord {
    ProjectRecord::new("demo", "/space/demo", Uuid([1; 16]), 1000, 1001, NOW)
}

fn pref() -> ProjectRef {
    let store = Store::new("/space", ".bpm", false);
    let unit = store.unit("demo");
    ProjectRef { root: RootCfg::adhoc("/space".into()), store, unit, record: record() }
}

fn target() -> Target {
    Target {
        unit: pref().unit,
        name: "demo".into(),
        live: "/space/demo".into(),
        root: "/space".into(),
        expected_uuid: None,
        owner: Some((1000, 1001)),
        stats_exclude: vec![],
        sentinels: vec![],
    }
}

fn stats(files: u64) -> TreeStats {
    TreeStats { files, bytes: files * 10, path_bytes: files * 10, complete: true, ..TreeStats::empty() }
}

#[test]
fn the_last_look_before_an_adoption_swaps() {
    let mut o = AdoptOpts { keep_build: None, force: false, verify_paths: false, require_unused: true };
    let who = |s: &str| Some(s.to_string());
    let mut again = stats(3);
    assert_eq!(last_check("/p", &o, &None, &None, &again, NOW), Ok(()));
    assert_eq!(
        last_check("/p", &o, &who("vim (1)"), &who("vim (1)"), &again, NOW),
        Err("files opened for writing under /p during adoption: vim (1)".to_string())
    );
    assert_eq!(
        last_check("/p", &o, &None, &who("sh (2)"), &again, NOW),
        Err("/p came into use during adoption: sh (2)".to_string())
    );
    again.newest_change = Some(Timestamp { ns: NOW.ns + 1 });
    assert_eq!(
        last_check("/p", &o, &None, &None, &again, NOW),
        Err("/p was modified during adoption; retry when idle".to_string())
    );
    o.force = true;
    o.require_unused = false;
    again.newest_change = Some(NOW);
    assert_eq!(last_check("/p", &o, &who("vim (1)"), &who("sh (2)"), &again, NOW), Ok(()));
}

#[test]
fn adoptions_in_words() {
    assert_eq!(
        move_blocked("/s/a", "/s/b"),
        "cannot move old store entry /s/a aside: /s/b exists"
    );
    let r = record();
    assert_eq!(
        move_message("demo", &r, "demo@01010101"),
        format!("store entry for a previous demo (uuid {}) moved to demo@01010101", r.uuid.to_string())
    );
    assert_eq!(abort_context("demo"), "adopt demo: copy into new subvolume failed; original untouched");
    assert_eq!(hardlink_warning("demo", &stats(3)), None);
    let linked = TreeStats { path_bytes: 99, ..stats(3) };
    assert_eq!(
        hardlink_warning("demo", &linked),
        Some("demo: hardlinks between top-level entries are copied as separate files".to_string())
    );
    let link = |t: &str| EntryKind::Symlink(t.as_bytes().to_vec());
    assert!(kind_eq(&link("a"), &link("a")) && !kind_eq(&link("a"), &link("b")));
    assert!(kind_eq(&EntryKind::File, &EntryKind::File) && !kind_eq(&EntryKind::File, &EntryKind::Dir));
    let budget = Duration::from_secs(20);
    assert_eq!(adopt_snapshot(true, budget).reason, "registered existing subvolume");
    let o = adopt_snapshot(false, budget);
    assert_eq!((o.kind, o.reason.as_str(), o.stats_budget), (SnapshotKind::Adopt, "adopted", budget));
    let p = pretended("demo", "/space/demo", true);
    assert_eq!((p.converted, p.snapshot, p.stage.as_str()), (false, 0, "active"));
    let m = SnapshotMeta { stats: Some(stats(3)), ..snap(1) };
    let nested = vec!["target".to_string()];
    let r = report("demo", "/space/demo", false, &m, &nested, Stage::Dormant, Some("/space/demo.old".into()));
    assert_eq!((r.converted, r.files, r.bytes, r.snapshot, r.stage.as_str()), (true, 3, 30, 1, "dormant"));
    assert_eq!((r.nested, r.leftover), (nested, Some("/space/demo.old".to_string())));
    let unit = pref().unit;
    let h = adopt_hook("demo", "/space/demo", (1, 2), "/space", Some((&unit, &m)));
    assert_eq!(h.snapshot, Some((1, "/space/.bpm/projects/demo/1/snapshot".to_string(), SnapshotKind::Auto)));
    assert_eq!(adopt_hook("demo", "/space/demo", (1, 2), "/space", None).snapshot, None);
}

#[test]
fn a_directory_that_was_not_empty_waits() {
    let mut st = ProjectState::new();
    let rel = RelPath::parse("target").unwrap();
    assert_eq!(note_recreated(&mut st, &rel, false, NOW), BanAction::PendingConvert("target".into()));
    assert_eq!(st.pending_convert.get("target"), Some(&NOW));
    assert_eq!(note_recreated(&mut st, &rel, true, NOW), BanAction::Recreated("target".into()));
    assert!(!st.pending_convert.has("target"));
}

#[test]
fn verdicts_on_candidates() {
    let mark = RefStats { files: 100, files_snap: 1, bytes: 1000, bytes_snap: 1 };
    let p = ShrinkPolicy {
        enabled: true,
        min_files: 1,
        min_bytes: 1,
        exclude: vec![],
        sentinels: vec![],
        thin_after_freeze: true,
    };
    let gauge = |over: bool| Gauge {
        catastrophic: false,
        files_over: over,
        bytes_over: false,
        files_pct: "90".into(),
        bytes_pct: "0".into(),
        bytes_before: "1000 B".into(),
        bytes_after: "100 B".into(),
    };
    let few = SnapshotMeta { stats: Some(stats(10)), ..snap(2) };
    let snaps = vec![snap(1)];
    assert_eq!(verdict(&mark, &snaps, None, &few, &p, &vec![], &gauge(true)), Verdict::Tripped);
    assert_eq!(verdict(&mark, &snaps, None, &few, &p, &vec![], &gauge(false)), Verdict::Passed);
    assert_eq!(verdict(&mark, &snaps, Some(0), &snap(2), &p, &vec![], &gauge(true)), Verdict::Unknown);
    assert_eq!((show_id(Some(7), "?"), show_id(None, "?")), ("7".to_string(), "?".to_string()));
    let mut st = ProjectState::new();
    mark_evaluated(&mut st, &snap(5));
    mark_evaluated(&mut st, &snap(3));
    assert_eq!(st.guard_seen, 5);
    accept_as_reference(&mut st, &SnapshotMeta { stats: Some(stats(8)), ..snap(6) });
    assert_eq!((st.guard_seen, st.ref_stats.unwrap().files), (6, 8));
    let h = stage_hook(&target(), Stage::Active, Stage::Dormant);
    assert_eq!((h.stage, h.reason.as_str()), (Some((Stage::Active, Stage::Dormant)), "idle"));
}

#[test]
fn what_hooks_hear_of_snapshots() {
    let o = SnapOpts::new(SnapshotKind::Manual, "why".into());
    let h = hook_ctx(&target(), 4, "/s/4".into(), &o);
    assert_eq!((h.snapshot, h.reason.as_str()), (Some((4, "/s/4".to_string(), SnapshotKind::Manual)), "why"));
    let origin = Origin { bpm: "0.1.0".into(), user: "ada".into(), argv: "bpm".into() };
    let m = planned_meta(&target(), &o, 4, NOW, &live(50, 60), origin);
    assert_eq!((m.id, m.created, m.source_ctransid, m.snapshot_otransid), (4, NOW, 50, 60));
    assert!(m.snapshot_uuid.is_nil() && m.stats.is_none());
    let h = delete_hook_ctx(&record(), &snap(2), "/s/2/snapshot", "retention");
    assert_eq!((h.owner, h.root, h.reason.as_str()), (Some((1000, 1001)), None, "retention"));
    assert_eq!(h.snapshot, Some((2, "/s/2/snapshot".to_string(), SnapshotKind::Auto)));
    assert_eq!(show_uuid(&None), "None");
    assert_eq!(show_uuid(&Some(Uuid([1; 16]))), format!("Some({})", Uuid([1; 16]).to_string()));
}

#[test]
fn recompression_step_by_step() {
    let budget = Duration::from_secs(20);
    let o = collapse_snapshot(budget);
    assert_eq!((o.kind, o.reason.as_str(), o.stats), (SnapshotKind::Collapse, "collapse", true));
    assert_eq!(recompress_snapshot(9, budget).reason, "recompress zstd:9");
    let d = defrag_opts(9);
    assert_eq!((d.compress.as_str(), d.level, d.flush), ("zstd", Some(9), true));
    assert_eq!(recompress_hook(&pref(), 9).reason, "zstd:9");
    assert_eq!(skip_by_space(10, 10, "a", "b"), None);
    assert_eq!(skip_by_space(9, 10, "10 B", "9 B"), Some("needs 10 B free, have 9 B".to_string()));
    assert_eq!(skip_by_gain("3.0", "5.0"), "sample gain 3.0% below 5.0%");
    let mut snaps: Vec<SnapshotMeta> = (1..=3).map(snap).collect();
    forget_snapshot(&mut snaps, 2);
    assert_eq!(snaps.iter().map(|m| m.id).collect::<Vec<_>>(), vec![1, 3]);
    assert!(matches!(old_snapshot(&snap(1), "demo"), OldSnapshot::Delete));
    let held = SnapshotMeta { hold: true, ..snap(1) };
    match old_snapshot(&held, "demo") {
        OldSnapshot::Stay(m) => assert_eq!(
            m,
            "demo: snapshot #1 is held; recompressed extents stay duplicated until it is released"
        ),
        OldSnapshot::Delete => panic!("it is held"),
    }
    let manual = SnapshotMeta { kind: SnapshotKind::Manual, ..snap(1) };
    assert!(matches!(old_snapshot(&manual, "demo"), OldSnapshot::Stay(_)));
    assert_eq!(
        touched_message("demo", 1),
        "demo: the project changed during recompression; snapshot #1 is kept and the change counts as activity"
    );
    assert_eq!(collapse_failed("demo", 1, "busy"), "demo: collapse could not delete #1: busy");
}

#[test]
fn recompression_in_the_state() {
    let mut st = ProjectState::new();
    note_skipped(&mut st, 9, &live(50, 60), 1000, "no gain", NOW);
    let r = st.recompress.as_ref().unwrap();
    assert_eq!((r.level, r.ctransid, r.bytes_before, r.bytes_after), (9, 50, 1000, 1000));
    assert_eq!(r.skipped.as_deref(), Some("no gain"));
    st.seen_ctransid = 50;
    st.last_change_at = Some(Timestamp { ns: 5 });
    note_recompressed(&mut st, &live(50, 60), &live(55, 65), true, 9, 1000, 1500, NOW);
    let r = st.recompress.as_ref().unwrap();
    assert_eq!((r.ctransid, r.bytes_after, r.skipped.is_none()), (55, 1500, true));
    assert_eq!(st.last_change_at, Some(Timestamp { ns: 5 }));
    note_recompressed(&mut st, &live(55, 65), &live(59, 69), false, 9, 1000, 1500, NOW);
    assert_eq!(st.last_change_at, Some(NOW));
}

#[test]
fn listings_are_compared_by_what_rewriting_leaves_alone() {
    let f = |size: u64, m: i128| EntryInfo { kind: EntryKind::File, size, mtime_ns: m, mode: 0o644 };
    let a = vec![("a".to_string(), f(1, 1)), ("b".to_string(), f(2, 2))];
    let mut b = a.clone();
    assert!(same_keys(&a, &b));
    b[1].1.size = 3;
    assert!(!same_keys(&a, &b));
    assert!(!same_keys(&a, &vec![]));
}

#[test]
fn kept_trees_in_words() {
    let c = counts(&TreeStats { dirs: 2, symlinks: 3, others: 4, ..stats(1) });
    assert_eq!(c, (1, 2, 3, 4, 10));
    assert_eq!(show_counts(c), "(1, 2, 3, 4, 10)");
    assert_eq!(
        kept_message("adopt", "/p.bpm-keep", &Unproven("it changed".into())),
        "adopt: kept /p.bpm-keep instead of deleting it: it changed. It may hold changes that exist nowhere else; \
         compare and merge by hand, then delete it"
    );
}
