use bpm::btrfs::{SubvolInfo, Uuid};
use bpm::ops::doctor::{
    adopt_leftover_expect, check_config, check_journal, check_kept_leftovers, check_missing, check_nested_leftovers,
    check_pending, check_root, check_state, check_timer, check_tool, check_unit, check_unmanaged, no_meta_text,
    recover_meta, rollback_safety, value_of, Doc, NestedLeft, RootFacts,
};
use bpm::store::journal::JournalEntry;
use bpm::store::{ErrorRecord, Frozen, Origin, ProjectRecord, ProjectState, SnapshotKind, SnapshotMeta, Stage};
use bpm::util::time::Timestamp;

const NOW: Timestamp = Timestamp { ns: 1_800_000_000_000_000_000 };

type Line = (&'static str, String, Option<String>);

fn lines(d: &Doc) -> Vec<Line> {
    d.out.iter().map(|f| (f.level, f.what.clone(), f.fix.clone())).collect()
}

fn line(level: &'static str, what: &str, fix: Option<&str>) -> Line {
    (level, what.to_string(), fix.map(String::from))
}

fn found(f: impl Fn(&mut Doc)) -> Vec<Line> {
    let mut d = Doc::new(false, false);
    f(&mut d);
    lines(&d)
}

fn facts() -> RootFacts {
    RootFacts {
        path: "/space".into(),
        is_dir: true,
        store_dir: "/space/.bpm".into(),
        store_exists: true,
        store_is_subvolume: true,
        identity: Some((Uuid([1; 16]), Uuid([1; 16]))),
        snapper: vec![],
        free: Some((100, "100 B".into())),
        heavy_min_free: 50,
    }
}

#[test]
fn what_a_doctor_needs() {
    assert_eq!(found(|d| check_config(d, Some("/etc/bpm.toml"))), vec![line("ok", "config /etc/bpm.toml", None)]);
    assert_eq!(
        found(|d| check_config(d, None)),
        vec![line("warn", "no config file; using the embedded default", Some("bpm setup"))]
    );
    assert_eq!(found(|d| check_tool(d, "zstd", true)), vec![line("ok", "zstd available", None)]);
    assert_eq!(found(|d| check_tool(d, "zstd", false)), vec![line("error", "zstd not found", None)]);
    assert_eq!(found(|d| check_timer(d, "bpm.timer", "enabled")), vec![line("ok", "bpm.timer enabled", None)]);
    assert_eq!(
        found(|d| check_timer(d, "bpm.timer", "")),
        vec![line("warn", "bpm.timer is not installed", Some("bpm setup"))]
    );
    assert_eq!(
        found(|d| check_timer(d, "bpm.timer", "disabled")),
        vec![line("warn", "bpm.timer is disabled", Some("bpm setup"))]
    );
}

#[test]
fn roots_under_the_doctors_eye() {
    let check = |f: &RootFacts| {
        let mut d = Doc::new(false, false);
        let go_on = check_root(&mut d, f);
        (go_on, lines(&d))
    };
    assert_eq!(check(&facts()), (true, vec![]));
    let f = RootFacts { is_dir: false, ..facts() };
    assert_eq!(check(&f), (false, vec![line("error", "root /space does not exist", None)]));
    let f = RootFacts { store_exists: false, ..facts() };
    assert_eq!(
        check(&f),
        (false, vec![line("error", "/space: store /space/.bpm not initialized", Some("bpm setup"))])
    );
    let f = RootFacts {
        store_is_subvolume: false,
        identity: Some((Uuid([1; 16]), Uuid([2; 16]))),
        snapper: vec![("space".into(), true), ("old".into(), false)],
        free: Some((49, "49 B".into())),
        ..facts()
    };
    let one = Uuid([1; 16]).to_string();
    let two = Uuid([2; 16]).to_string();
    assert_eq!(
        check(&f),
        (
            true,
            vec![
                line(
                    "error",
                    "/space: store /space/.bpm is not a subvolume (container snapshots would include it)",
                    None
                ),
                line("error", &format!("/space: store was created for subvolume {one} but /space is {two}"), None),
                line(
                    "warn",
                    "/space: snapper config \"space\" still takes timeline snapshots (they include build directories)",
                    Some("bpm migrate-from-snapper --snapper-config space")
                ),
                line("info", "/space: snapper config \"old\" exists with timeline disabled", None),
                line("warn", "/space: only 49 B free; heavy operations are paused", None),
            ]
        )
    );
}

#[test]
fn projects_under_the_doctors_eye() {
    assert_eq!(found(|d| check_unmanaged(d, "/space", &vec![], &vec![])), vec![]);
    assert_eq!(
        found(|d| check_unmanaged(d, "/space", &vec!["a".into(), "b".into()], &vec!["c".into()])),
        vec![
            line("warn", "/space: 2 unadopted directories: a, b", Some("bpm adopt --all")),
            line(
                "warn",
                "/space: subvolumes not managed by bpm: c",
                Some("bpm adopt <name> (registers without copying)")
            ),
        ]
    );
    assert_eq!(found(|d| check_missing(d, "demo", "/space/demo", Stage::Archived)), vec![]);
    assert_eq!(
        found(|d| check_missing(d, "demo", "/space/demo", Stage::Orphaned)),
        vec![line(
            "warn",
            "demo: project directory /space/demo is missing",
            Some("bpm restore demo --recreate")
        )]
    );
    let mut st = ProjectState::new();
    st.frozen =
        Some(Frozen { since: NOW, reasons: vec!["lost".into(), "more".into()], trigger_snap: None, ref_snap: Some(4) });
    st.last_error = Some(ErrorRecord { at: NOW, message: "no space".into() });
    assert_eq!(
        found(|d| check_state(d, "demo", &st)),
        vec![
            line(
                "warn",
                "demo: FROZEN: lost; more",
                Some("bpm status demo; then bpm rollback demo 4 or bpm unfreeze demo")
            ),
            line("warn", "demo: last tick error: no space", None),
        ]
    );
    st.frozen.as_mut().unwrap().ref_snap = None;
    assert!(found(|d| check_state(d, "demo", &st))[0].2.as_ref().unwrap().contains("rollback demo held"));
    assert_eq!(
        found(|d| check_pending(d, "demo", "target")),
        vec![line(
            "info",
            "demo: banned directory target is a plain directory (included in snapshots until converted)",
            None
        )]
    );
}

#[test]
fn what_is_left_of_interrupted_work() {
    assert!(matches!(check_nested_leftovers("/p/t.bpm-old", true, true), NestedLeft::Nothing));
    match check_nested_leftovers("/p/t.bpm-tmp", true, false) {
        NestedLeft::DeleteCopy { what, fix } => {
            assert_eq!(what, "/p/t.bpm-tmp: interrupted banlist conversion (copy not swapped)");
            assert_eq!(fix, "doctor --fix deletes the partial copy");
        }
        _ => panic!("the copy goes"),
    }
    match check_nested_leftovers("/p/t.bpm-old", false, true) {
        NestedLeft::Retire { what, .. } => assert_eq!(what, "/p/t.bpm-old: old build directory left after conversion"),
        _ => panic!("the old directory is retired"),
    }
    let kept = found(|d| check_kept_leftovers(d, "/p", &vec!["/p/x.bpm-keep-adopt-1".into()], false));
    assert_eq!(kept.len(), 2);
    assert!(kept[0].1.contains("/p/x.bpm-keep-adopt-1"));
    assert_eq!(
        kept[1],
        line("info", "/p: took too long to scan for kept leftovers; some may be unreported", None)
    );
    let mut j = JournalEntry::begin("adopt", vec![("path".to_string(), "/space/demo".to_string())], NOW);
    j.step(4, NOW);
    let later = |secs: i128| Timestamp { ns: NOW.ns + secs * 1_000_000_000 };
    assert_eq!(check_journal("demo", &j, later(600)), None);
    assert_eq!(
        check_journal("demo", &j, later(601)),
        Some("demo: adopt was interrupted at step 4 (path=/space/demo)".to_string())
    );
    assert_eq!(check_unit("demo", 0, 0), None);
    assert_eq!(
        check_unit("demo", 1, 2),
        Some("demo: 1 in-progress dirs, 2 metadata files without snapshot".to_string())
    );
    assert_eq!(no_meta_text("demo", 7), "demo: snapshot #7 has no metadata");
}

#[test]
fn recovered_snapshots_are_held() {
    let info = SubvolInfo {
        id: 300,
        name: "snapshot".into(),
        parent_id: 5,
        generation: 9,
        flags: 1,
        uuid: Uuid([7; 16]),
        parent_uuid: None,
        received_uuid: None,
        ctransid: 8,
        otransid: 9,
        ctime: None,
        otime: None,
    };
    let origin = Origin { bpm: "0.1.0".into(), user: "ada".into(), argv: "bpm doctor".into() };
    let m = recover_meta("demo", 7, &info, origin, NOW);
    assert_eq!((m.id, m.kind, m.hold, m.hold_note.as_str()), (7, SnapshotKind::Recovered, true, "recovered"));
    assert_eq!((m.created, m.source_ctransid, m.snapshot_otransid), (NOW, 8, 9));
    assert!(m.source_uuid.is_nil());
}

#[test]
fn what_interrupted_work_is_held_against() {
    let mut snaps: Vec<SnapshotMeta> = (1..=4).map(|id| SnapshotMeta::sample(id, "demo")).collect();
    assert_eq!(rollback_safety(&snaps, Some(Uuid([1; 16]))), None);
    snaps[0].kind = SnapshotKind::Rollback;
    snaps[2].kind = SnapshotKind::Rollback;
    assert_eq!(rollback_safety(&snaps, Some(Uuid([1; 16]))), Some(2));
    assert_eq!(rollback_safety(&snaps, Some(Uuid([9; 16]))), None);
    assert_eq!(rollback_safety(&snaps, None), None);
    let record = ProjectRecord::new("demo", "/space/demo", Uuid([1; 16]), 1000, 1000, NOW);
    assert_eq!(adopt_leftover_expect(&record, &snaps), None);
    snaps[1].kind = SnapshotKind::Adopt;
    snaps[3].kind = SnapshotKind::Adopt;
    assert_eq!(adopt_leftover_expect(&record, &snaps), Some(1));
}

#[test]
fn settings_of_a_shell_file() {
    let text = "# x\nSUBVOLUME=\"/space\"\nTIMELINE_CREATE=\"no\"\n";
    assert_eq!(value_of(text, "SUBVOLUME"), Some("/space".to_string()));
    assert_eq!(value_of(text, "TIMELINE_CREATE"), Some("no".to_string()));
    assert_eq!(value_of(text, "FSTYPE"), None);
}
