use bpm::btrfs::{SubvolInfo, Uuid};
use bpm::config::schema::{GlobalCfg, RootCfg};
use bpm::error::BpmError;
use bpm::mechanics::archive::{
    archive_file, check_received, digest_file, manifest, manifest_path, part_file, zstd_args, ArchiveReport,
    Manifest, Written,
};
use bpm::mechanics::retire::Unproven;
use bpm::ops::archive::{
    archive, archive_hook, archive_options, archive_snapshot, archived_message, cleanup_first, cleanup_next,
    current_snapshot, not_identical, note_archived, note_nested, pretended_text, received_text, stays_in_store,
    superseded, unarchive, unarchive_place, unarchive_record, unarchive_snapshot, verified_text, CleanupStep,
};
use bpm::project::ProjectRef;
use bpm::store::{Frozen, ProjectRecord, ProjectState, SnapshotKind, SnapshotMeta, Store};
use bpm::util::time::Timestamp;

const NOW: Timestamp = Timestamp { ns: 1_800_000_000_000_000_000 };

fn snap(id: u64) -> SnapshotMeta {
    SnapshotMeta::sample(id, "demo")
}

fn live(ctransid: u64, generation: u64) -> SubvolInfo {
    SubvolInfo {
        id: 300,
        name: "demo".into(),
        parent_id: 5,
        generation,
        flags: 0,
        uuid: Uuid([1; 16]),
        parent_uuid: None,
        received_uuid: None,
        ctransid,
        otransid: 10,
        ctime: None,
        otime: None,
    }
}

fn pref() -> ProjectRef {
    let store = Store::new("/space", ".bpm", false);
    let unit = store.unit("demo");
    let record = ProjectRecord::new("demo", "/space/demo", Uuid([1; 16]), 1000, 1001, NOW);
    ProjectRef { root: RootCfg::adhoc("/space".into()), store, unit, record }
}

fn report() -> ArchiveReport {
    ArchiveReport {
        file: "/arc/demo/a.zst".into(),
        manifest: "/arc/demo/a.manifest.toml".into(),
        bytes: 77,
        sha256: "0123456789abcdef0123".into(),
    }
}

fn written() -> Manifest {
    let w = Written {
        nested: vec!["target".into(), "web/dist".into()],
        bytes: 77,
        sha256: "ab".into(),
        created: NOW,
        bpm_version: "0.1.0".into(),
        btrfs_progs: "btrfs-progs v6".into(),
    };
    manifest(&pref(), &snap(3), 19, true, w)
}

#[test]
fn archiving_is_refused_for_a_reason() {
    let mut st = ProjectState::new();
    let ask = |st: &ProjectState, deletes: bool, yes: bool, named: bool, in_place: bool| {
        archive("demo", "/space/demo", deletes, yes, st, named, in_place)
    };
    assert_eq!(ask(&st, false, false, false, true), Ok(()));
    assert_eq!(ask(&st, true, true, true, false), Ok(()));
    assert_eq!(
        ask(&st, true, false, true, true),
        Err(BpmError::Refused("--delete-live and --delete-snapshots need --yes".into()))
    );
    assert_eq!(
        ask(&st, false, false, false, false),
        Err(BpmError::Refused("/space/demo does not exist; pass --snapshot".into()))
    );
    st.frozen = Some(Frozen { since: NOW, reasons: vec![], trigger_snap: None, ref_snap: None });
    assert_eq!(
        ask(&st, false, false, true, true),
        Err(BpmError::Refused("demo is frozen; resolve that first (bpm status demo)".into()))
    );
}

#[test]
fn what_is_archived_and_what_goes_with_it() {
    let mut snaps: Vec<SnapshotMeta> = (1..=4).map(snap).collect();
    assert_eq!(current_snapshot(&live(104, 204), &snaps), Some(3));
    assert_eq!(current_snapshot(&live(105, 204), &snaps), None);
    assert_eq!(current_snapshot(&live(104, 204), &vec![]), None);
    snaps[1].hold = true;
    assert_eq!(superseded(&snaps, 4), vec![0, 2]);
    let o = archive_snapshot();
    assert_eq!((o.kind, o.reason.as_str(), o.stats), (SnapshotKind::Manual, "archive", true));
    let h = archive_hook(&pref(), &snaps[3]);
    assert_eq!(h.reason, "archive");
    assert_eq!(h.owner, Some((1000, 1001)));
    let (id, path, kind) = h.snapshot.unwrap();
    assert_eq!((id, path.as_str(), kind), (4, "/space/.bpm/projects/demo/4/snapshot", SnapshotKind::Auto));
}

#[test]
fn archive_options_come_from_the_command_or_the_configuration() {
    let mut g = GlobalCfg::new();
    g.archive_dir = "/arc".into();
    g.archive_zstd_level = 15;
    assert_eq!(archive_options(&g, None, None), ("/arc".to_string(), 15));
    assert_eq!(archive_options(&g, Some("/usb"), Some(3)), ("/usb".to_string(), 3));
}

#[test]
fn archives_are_noted_in_the_state() {
    let mut st = ProjectState::new();
    note_archived(&mut st, &report(), &snap(3), NOW);
    note_archived(&mut st, &report(), &snap(4), NOW);
    assert_eq!(st.archives.len(), 2);
    assert_eq!((st.archives[1].snapshot, st.archives[1].at), (4, NOW));
    assert_eq!(st.archives[0].file, "/arc/demo/a.zst");
    note_nested(&mut st, &vec!["target".into(), "a".into(), "target".into()]);
    let seen: Vec<&str> = st.banlist_seen.entries().iter().map(|(k, _)| k.as_str()).collect();
    assert_eq!(seen, vec!["a", "target"]);
}

#[test]
fn live_projects_go_only_when_proven_twice() {
    assert_eq!(cleanup_first(false, false), CleanupStep::Done);
    assert_eq!(cleanup_first(false, true), CleanupStep::DeleteSnapshots);
    assert_eq!(cleanup_next(CleanupStep::DeleteSnapshots, true, false, true), CleanupStep::Done);
    let mut seen = vec![cleanup_first(true, true)];
    for _ in 0..5 {
        seen.push(cleanup_next(*seen.last().unwrap(), true, true, true));
    }
    assert_eq!(
        seen,
        vec![
            CleanupStep::Prove,
            CleanupStep::DeleteSnapshots,
            CleanupStep::ProveAgain,
            CleanupStep::DeleteLive,
            CleanupStep::Done,
            CleanupStep::Done
        ]
    );
    assert_eq!(cleanup_next(CleanupStep::Prove, false, true, true), CleanupStep::KeepAll);
    assert_eq!(cleanup_next(CleanupStep::Prove, true, true, false), CleanupStep::ProveAgain);
    assert_eq!(cleanup_next(CleanupStep::ProveAgain, false, true, true), CleanupStep::KeepLive);
    assert_eq!(cleanup_next(CleanupStep::DeleteSnapshots, false, true, true), CleanupStep::Fail);
    assert_eq!(cleanup_next(CleanupStep::DeleteLive, false, true, true), CleanupStep::Fail);
    let why = Unproven("files changed".into());
    assert_eq!(
        not_identical("/space/demo", 3, &why, true),
        BpmError::Refused(
            "archive written, but /space/demo is not exactly snapshot #3 (files changed); live project and snapshots kept"
                .into()
        )
    );
    assert_eq!(
        not_identical("/space/demo", 3, &why, false).message(),
        "refused: archive written, but /space/demo is not exactly snapshot #3 (files changed); live project kept"
    );
}

#[test]
fn archives_in_words() {
    assert_eq!(
        pretended_text("demo", 3, "/arc/demo/a.zst"),
        "[dry-run] demo: would archive snapshot #3 to /arc/demo/a.zst"
    );
    assert_eq!(
        archived_message("demo", 3, &report(), "77 B", "/arc", "/space"),
        "demo: snapshot #3 archived to /arc/demo/a.zst (77 B, sha256 0123456789abcdef)\nNOTE: /arc is on the same \
         filesystem as /space; this saves space but is not a backup. Copy the .zst, .manifest.toml and .sha256 files \
         off this machine."
    );
    assert_eq!(
        stays_in_store("/space/demo", 9, "demo"),
        "/space/demo exists; received snapshot #9 stays in the store (use `bpm rollback demo 9`)"
    );
    assert_eq!(
        verified_text("demo", "/arc/a.zst", false),
        "[dry-run] demo: archive /arc/a.zst verified; would receive it and recreate the project if its directory is gone"
    );
    assert_eq!(
        verified_text("demo", "/arc/a.zst", true),
        "[dry-run] demo: archive /arc/a.zst verified; would receive it"
    );
    assert_eq!(received_text("demo", "f", 9, None), "demo: received f as held snapshot #9");
    assert_eq!(
        received_text("demo", "f", 9, Some("/space/demo")),
        "demo: received f as held snapshot #9; recreated /space/demo"
    );
    let o = unarchive_snapshot(9);
    assert_eq!((o.kind, o.reason.as_str()), (SnapshotKind::Post, "unarchived from #9"));
}

#[test]
fn archives_are_received_where_they_belong() {
    let mut m = written();
    assert_eq!((m.project.as_str(), m.original_path.as_str()), ("demo", "/space/demo"));
    assert_eq!((m.snapshot_id, m.zstd_level, m.compressed_data), (3, 3, true));
    assert_eq!(unarchive("/arc/a.zst", &m), Ok(()));
    let roots = vec![RootCfg::adhoc("/work".into()), RootCfg::adhoc("/space".into())];
    assert_eq!(unarchive_place(&roots, &m, Some("/space/demo")), Ok((1, "demo".to_string())));
    m.original_path = "/gone/demo".into();
    assert_eq!(unarchive_place(&roots, &m, None), Ok((0, "demo".to_string())));
    assert_eq!(unarchive_place(&roots, &m, Some("/gone/demo")), Ok((0, "demo".to_string())));
    assert_eq!(unarchive_place(&roots, &m, Some("/space/other")), Ok((1, "other".to_string())));
    assert_eq!(
        unarchive_place(&vec![], &m, None),
        Err(BpmError::Usage("no root for this archive; pass --root".into()))
    );
    let r = unarchive_record("/work", "demo", &m, NOW);
    assert_eq!((r.path.as_str(), r.owner_uid, r.owner_gid), ("/work/demo", 1000, 1001));
    for bad in ["", ".hidden", "a/b", "x.bpm-tmp"] {
        m.project = bad.into();
        assert_eq!(
            unarchive("f", &m),
            Err(BpmError::Refused(format!("f: manifest names an invalid project {bad:?}")))
        );
    }
}

#[test]
fn files_of_an_archive() {
    let file = archive_file("/arc", "demo", &snap(3));
    assert_eq!(file, "/arc/demo/3-20260910T002940Z.btrfs.zst");
    assert_eq!(part_file(&file), format!("{file}.part"));
    assert_eq!(digest_file(&file), format!("{file}.sha256"));
    assert_eq!(manifest_path(&file), format!("{file}.manifest.toml"));
    assert_eq!(zstd_args(19, false, "p"), vec!["-q", "-T0", "-19", "--long=27", "-o", "p", "-"]);
    assert_eq!(zstd_args(22, false, "p"), vec!["-q", "-T0", "-22", "--ultra", "--long=27", "-o", "p", "-"]);
    let m = written();
    let mut info = live(1, 1);
    info.received_uuid = Some(m.snapshot_uuid);
    info.flags = 1;
    assert_eq!(check_received(&info, &m), Ok(()));
    info.received_uuid = None;
    assert!(check_received(&info, &m).is_err());
}
