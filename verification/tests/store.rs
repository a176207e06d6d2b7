use bpm::btrfs::Uuid;
use bpm::error::BpmError;
use bpm::project::{is_leftover_name, Leftover};
use bpm::store::journal::JournalEntry;
use bpm::store::lock::{after_attempt, check_guards, description, same_file, LockStep};
use bpm::store::scan::{next_id, scan, ScanEntry};
use bpm::store::snapid::{parse, resolve_str, resolve_text, SnapSelector};
use bpm::store::{marker_text, newest, Frozen, ProjectRecord, SnapshotKind, SnapshotMeta, Stage, Store};
use bpm::util::time::{Duration, Timestamp};
use jiff::tz::TimeZone;

fn at(s: &str) -> Timestamp {
    let t: jiff::Timestamp = s.parse().unwrap();
    Timestamp { ns: t.as_nanosecond() }
}

fn entry(name: &str, snapshot: bool, meta: Option<u64>) -> ScanEntry {
    ScanEntry {
        name: name.into(),
        path: format!("/space/.bpm/projects/demo/{name}"),
        has_snapshot: snapshot,
        meta: meta.map(|id| SnapshotMeta::sample(id, "demo")),
    }
}

#[test]
fn scan_and_ids() {
    let store = Store::new("/space", ".bpm", false);
    let unit = store.unit("demo");
    let entries = vec![
        entry("5", true, Some(5)),
        entry("1", true, Some(1)),
        entry("2", true, Some(2)),
        entry("7", true, None),
        entry("8", false, Some(8)),
        entry("9.tmp", false, None),
        entry("project.json", false, None),
    ];
    let names: Vec<String> = entries.iter().map(|e| e.name.clone()).collect();
    let scan = scan(&unit, entries);
    assert_eq!(scan.snapshots.iter().map(|m| m.id).collect::<Vec<_>>(), vec![1, 2, 5]);
    assert_eq!(scan.without_meta.iter().map(|x| x.0).collect::<Vec<_>>(), vec![7]);
    assert_eq!(scan.without_snapshot, vec![8]);
    assert_eq!(scan.tmp_dirs.len(), 1);
    assert_eq!(next_id(&names), Some(10));

    let rec = ProjectRecord::new(
        "demo",
        "/space/demo",
        Uuid([1; 16]),
        1000,
        1000,
        at("2026-01-01T00:00:00Z"),
    );
    assert_eq!((rec.name.as_str(), rec.path.as_str()), ("demo", "/space/demo"));
    let f = Frozen {
        since: at("2026-01-02T00:00:00Z"),
        reasons: vec!["files -50%".into()],
        trigger_snap: Some(5),
        ref_snap: Some(2),
    };
    assert!(marker_text(&f).contains("files -50%"));
}

#[test]
fn an_empty_unit_begins_with_one() {
    assert_eq!(next_id(&vec![]), Some(1));
    assert_eq!(next_id(&vec!["project.json".into(), "x".into()]), Some(1));
}

#[test]
fn places_in_the_store() {
    let s = Store::new("/space", ".bpm", false);
    assert_eq!(s.dir, "/space/.bpm");
    let u = s.unit("demo");
    assert_eq!(u.snapshot_path(3), "/space/.bpm/projects/demo/3/snapshot");
    assert!(!u.is_container());
    assert!(s.container().is_container());
}

#[test]
fn records_remember_their_subvolumes() {
    let mut r = ProjectRecord::new("demo", "/space/demo", Uuid([1; 16]), 0, 0, at("2026-01-01T00:00:00Z"));
    assert!(r.owns(Some(Uuid([1; 16]))));
    assert!(!r.owns(Some(Uuid([2; 16]))));
    assert!(!r.owns(None));
    r.replace_live(Uuid([2; 16]));
    assert!(r.owns(Some(Uuid([1; 16]))));
    assert!(r.owns(Some(Uuid([2; 16]))));
}

#[test]
fn selectors() {
    let tz = TimeZone::UTC;
    let mut snaps: Vec<SnapshotMeta> = (1..=4).map(|i| SnapshotMeta::sample(i, "p")).collect();
    snaps[1].hold = true;
    assert_eq!(resolve_str("3", &snaps, &tz).unwrap().id, 3);
    assert_eq!(resolve_str("latest", &snaps, &tz).unwrap().id, 4);
    assert_eq!(resolve_str("latest~1", &snaps, &tz).unwrap().id, 3);
    assert_eq!(resolve_str("held", &snaps, &tz).unwrap().id, 2);
    let t = jiff::Timestamp::from_nanosecond(snaps[2].created.ns)
        .unwrap()
        .strftime("%Y-%m-%dT%H:%M:%S")
        .to_string();
    assert_eq!(resolve_str(&t, &snaps, &tz).unwrap().id, 3);
    assert!(resolve_str("99", &snaps, &tz).is_err());
    assert!(resolve_str("nonsense", &snaps, &tz).is_err());
}

#[test]
fn dates_are_local_to_the_time_zone() {
    let east = TimeZone::fixed(jiff::tz::offset(2));
    assert_eq!(
        parse("2026-09-14", &east).unwrap(),
        SnapSelector::At(at("2026-09-13T22:00:00Z"))
    );
    assert_eq!(
        parse(" 2026-09-14T10:00 ", &TimeZone::UTC).unwrap(),
        SnapSelector::At(at("2026-09-14T10:00:00Z"))
    );
    assert_eq!(
        parse("2026-09-14T10:30", &east).unwrap(),
        SnapSelector::At(at("2026-09-14T08:30:00Z"))
    );
    let mut snaps: Vec<SnapshotMeta> = (1..=3).map(|i| SnapshotMeta::sample(i, "p")).collect();
    for (m, t) in snaps.iter_mut().zip(["2026-09-13T21:00:00Z", "2026-09-14T08:30:00Z", "2026-09-14T09:00:00Z"]) {
        m.created = at(t);
    }
    assert_eq!(resolve_str("2026-09-14", &snaps, &east).unwrap().id, 1);
    assert_eq!(resolve_str("2026-09-14T10:30", &snaps, &east).unwrap().id, 2);
    assert_eq!(resolve_str("2026-09-14T10:30", &snaps, &TimeZone::UTC).unwrap().id, 3);
    assert_eq!(bpm::ops::select("2026-09-14T10:30", &snaps, &east, Some(1)).unwrap().id, 2);
    assert!(matches!(resolve_str("2026-09-12", &snaps, &east), Err(BpmError::NotFound(_))));
    for no_date in ["nonsense", "2026-13-01", "tomorrow"] {
        assert!(matches!(parse(no_date, &TimeZone::UTC), Err(BpmError::Usage(_))));
    }
    assert!(matches!(parse("latest~x", &TimeZone::UTC), Err(BpmError::Usage(_))));
}

#[test]
fn unknown_ids_are_not_found() {
    let snaps = vec![SnapshotMeta::sample(1, "p")];
    assert!(matches!(resolve_text("9", None, &snaps), Err(BpmError::NotFound(_))));
    assert!(matches!(resolve_text("held", None, &snaps), Err(BpmError::NotFound(_))));
}

#[test]
fn the_newest_is_the_one_made_last() {
    let mut a = SnapshotMeta::sample(1, "p");
    let b = SnapshotMeta::sample(2, "p");
    assert_eq!(SnapshotMeta::sample(4_193_553_453, "p").created.ns, 253_402_207_180_000_000_000);
    a.snapshot_otransid = 900;
    let v = vec![a, b];
    assert_eq!(newest(&v).unwrap().id, 1);
    assert!(newest(&vec![]).is_none());
}

#[test]
fn kinds_and_stages_have_names() {
    assert_eq!(SnapshotKind::parse("pre-restore").unwrap(), SnapshotKind::PreRestore);
    assert!(SnapshotKind::parse("nothing").is_err());
    assert_eq!(Stage::Orphaned.as_str(), "orphaned");
}

#[test]
fn journals_keep_their_steps() {
    let data = vec![("path".to_string(), "/a".to_string()), ("path".to_string(), "/space/demo".to_string())];
    let mut j = JournalEntry::begin("adopt", data, at("2026-01-01T00:00:00Z"));
    assert_eq!((j.step, j.started, j.updated), (0, at("2026-01-01T00:00:00Z"), at("2026-01-01T00:00:00Z")));
    assert_eq!(j.data.get("path").unwrap(), "/space/demo");
    j.set("tmp", "/space/demo.bpm-tmp".into());
    j.step(3, at("2026-01-01T00:00:05Z"));
    assert_eq!((j.op.as_str(), j.step), ("adopt", 3));
    assert_eq!(j.data.get("tmp").unwrap(), "/space/demo.bpm-tmp");
}

#[test]
fn leftover_names() {
    assert_eq!(Leftover::parse("demo.bpm-old"), Some(Leftover::Old { base: "demo".into() }));
    assert_eq!(Leftover::parse("demo.bpm-tmp"), Some(Leftover::Tmp { base: "demo".into() }));
    assert_eq!(
        Leftover::parse("demo.bpm-rollback-20260915T101010"),
        Some(Leftover::Rollback { base: "demo".into() })
    );
    assert_eq!(
        Leftover::parse("demo.bpm-keep-adopt-20260915T101010"),
        Some(Leftover::Keep { base: "demo".into(), op: "adopt".into() })
    );
    assert_eq!(Leftover::parse("demo"), None);
    assert!(is_leftover_name("x.bpm-keep-restore-1"));
}

#[test]
fn waiting_for_a_lock() {
    let second = Duration::from_secs(1);
    let zero = Duration::zero();
    assert!(matches!(after_attempt(true, zero, zero, "t", ""), LockStep::Check));
    assert!(matches!(after_attempt(false, zero, second, "t", ""), LockStep::Wait));
    match after_attempt(false, second, second, "unit demo", " pid=1\n") {
        LockStep::Fail(BpmError::Locked { holder }) => assert_eq!(holder, "unit demo: pid=1"),
        _ => panic!("the time is over"),
    }
}

#[test]
fn a_lock_that_was_moved_guards_nothing() {
    assert!(same_file(Some((1, 2)), Some((1, 2))));
    assert!(!same_file(Some((1, 2)), Some((1, 3))));
    assert!(!same_file(None, None));
    assert!(check_guards(true, "t").is_ok());
    match check_guards(false, "t") {
        Err(BpmError::Locked { holder }) => assert_eq!(holder, "t: removed or moved while waiting"),
        _ => panic!("it guards nothing"),
    }
}

#[test]
fn lock_files_say_who_has_them() {
    assert_eq!(
        description(7, at("2026-09-14T10:00:00Z"), "bpm tick"),
        "pid=7 since=2026-09-14T10:00:00Z cmd=bpm tick"
    );
}

#[test]
fn stages_are_read_by_name() {
    for k in [Stage::Active, Stage::Dormant, Stage::Cold, Stage::Orphaned, Stage::Archived] {
        assert_eq!(Stage::parse(k.as_str()), Ok(k));
    }
    assert_eq!(Stage::parse("frozen"), Err("unknown stage \"frozen\"".to_string()));
}
