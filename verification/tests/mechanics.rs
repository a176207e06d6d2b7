use bpm::btrfs::{SubvolInfo, Uuid};
use bpm::config::effective::EffectiveConfig;
use bpm::config::schema::{
    LifecyclePolicy, Policy, Precreate, RecompressPolicy, RootCfg, ShrinkPolicy, SnapshotPolicy,
    ThinPolicy,
};
use bpm::error::BpmError;
use bpm::mechanics::adopt::{
    add_made, adopt_first, adopt_next, clear_name, copies_entry, is_valid_name, journal_step,
    listings_agree, nested_order, preflight, verify_copy, AdoptFacts, AdoptNeed, AdoptOpts,
    AdoptStep, ClearName, Preflight, Users,
};
use bpm::mechanics::archive::{
    archive, archive_allowed, archive_file, archive_level, check_digest, compare_digest, manifest,
    manifest_path, newest_archive, sha256_hex, sha_line, zstd_failed, ArchiveStep, Written,
};
use bpm::mechanics::banlist::{
    convert, convert_next, enforce_cheap, forget_unbanned, note_created, BanAction, BanFact,
    BanStep, ConvertFacts, ConvertStart, ConvertStep,
};
use bpm::mechanics::guard::{
    apply, begin, candidates, freeze, hold_last_good, last_good, passed, previous, trip_message, Applied, Begin,
    Search, Verdict,
};
use bpm::mechanics::observe::{
    evaluate_guard, init_new_live, note_live, note_replaced_live, note_snapshot, note_tool_change,
    thin_allowed, update_stage, want_stats, GuardStep, Walk,
};
use bpm::mechanics::recompress::{
    collapse, collapse_ids, collapsed, needs_recompress, recompress, required_free,
    sample_positions, skip_by_state, untouched, CollapseEnd, CollapseStart, RecompressStep, SLACK,
};
use bpm::mechanics::retire::{
    delete, keep_name, mounts_under, prove, retire, Deletion, Expect, FileFacts, Judgement, Need,
    PathStat, Retirement, TreeFacts,
};
use bpm::mechanics::rollback::{
    aside_path, check_target, clear_target, delete_recursively, left_nested, needs_safety,
    nested_step, normalize_rel, owned_parents, restore_paths, restore_source, restore_target, rollback_next,
    AtTarget, Clearing, NestedStep, PathFacts, Placeholder, Planned, RollbackStep,
};
use bpm::mechanics::snapshot::{
    authorize_delete, check_live, check_parent, check_place, reserve_next, take_next, taken_meta,
    Attempt, DeleteMode, Reservation, SnapOpts, TakeStep,
};
use bpm::mechanics::xattr::{names, set_failed};
use bpm::mechanics::Target;
use bpm::project::{Leftover, ProjectRef};
use bpm::store::scan::next_id;
use bpm::store::{Origin, ProjectRecord, ProjectState, RefStats, SnapshotKind, SnapshotMeta, Stage, Store, Unit};
use bpm::util::relpath::RelPath;
use bpm::util::strmap::StrMap;
use bpm::util::time::{Duration, Timestamp};
use bpm::util::walk::{EntryInfo, EntryKind, TreeStats};

const NOW: Timestamp = Timestamp { ns: 1_800_000_000_000_000_000 };

fn before(secs: i128) -> Timestamp {
    Timestamp { ns: NOW.ns - secs * 1_000_000_000 }
}

fn live(ctransid: u64, generation: u64) -> SubvolInfo {
    SubvolInfo {
        id: 300,
        name: "p".into(),
        parent_id: 5,
        generation,
        flags: 0,
        uuid: Uuid([1; 16]),
        parent_uuid: None,
        received_uuid: None,
        ctransid,
        otransid: 10,
        ctime: None,
        otime: None,
    }
}

fn stats(files: u64) -> TreeStats {
    TreeStats { files, bytes: files * 10, complete: true, ..TreeStats::empty() }
}

fn snap(id: u64) -> SnapshotMeta {
    SnapshotMeta::sample(id, "demo")
}

fn rel(s: &str) -> RelPath {
    RelPath::parse(s).unwrap()
}

fn origin() -> Origin {
    Origin { bpm: "0.1.0".into(), user: "ada".into(), argv: "bpm".into() }
}

fn record() -> ProjectRecord {
    ProjectRecord::new("demo", "/space/demo", Uuid([1; 16]), 1000, 1000, before(86400 * 400))
}

fn pref() -> ProjectRef {
    let store = Store::new("/space", ".bpm", false);
    let unit = store.unit("demo");
    ProjectRef { root: RootCfg::adhoc("/space".into()), store, unit, record: record() }
}

fn shrink() -> ShrinkPolicy {
    ShrinkPolicy {
        enabled: true,
        min_files: 1,
        min_bytes: 1,
        exclude: vec![],
        sentinels: vec![],
        thin_after_freeze: true,
    }
}

fn snapshot_policy() -> SnapshotPolicy {
    SnapshotPolicy {
        min_interval: Duration::from_secs(300),
        stats: true,
        stats_budget: Duration::from_secs(20),
        stats_min_interval: Duration::from_secs(1800),
    }
}

fn lifecycle() -> LifecyclePolicy {
    LifecyclePolicy {
        dormant_after: Duration::from_secs(14 * 86400),
        cold_after: Duration::from_secs(60 * 86400),
        adopt_grace: Duration::from_secs(86400),
    }
}

fn recompress_policy() -> RecompressPolicy {
    RecompressPolicy { enabled: true, level: 9, max_bytes: 0, min_free: 0, nested: false }
}

fn eff(banlist: &[&str]) -> EffectiveConfig {
    EffectiveConfig {
        name: "demo".into(),
        path: "/space/demo".into(),
        managed: true,
        profiles: vec![],
        banlist: banlist.iter().map(|b| rel(b)).collect(),
        primary_banlist: banlist.iter().map(|b| rel(b)).collect(),
        never_precreate: vec![],
        sentinels: vec![],
        policy: Policy {
            banlist_precreate: Precreate::Primary,
            banlist_settle: Duration::from_secs(600),
            keep_build_on_adopt: true,
            snapshot: snapshot_policy(),
            thin: ThinPolicy {
                keep_all: Duration::from_secs(6 * 3600),
                hourly: Duration::from_secs(48 * 3600),
                daily: Duration::from_secs(14 * 86400),
                weekly: Duration::from_secs(56 * 86400),
                safety_ttl: Duration::from_secs(7 * 86400),
                min_free: 0,
            },
            lifecycle: lifecycle(),
            recompress: recompress_policy(),
            shrink_guard: shrink(),
        },
        origins: StrMap::new(),
        ignored_project_keys: vec![],
    }
}

#[test]
fn reserved_ids_are_unique() {
    let mut names = vec!["3".to_string()];
    let a = next_id(&names).unwrap();
    assert_eq!(reserve_next(1, Attempt::Made), Reservation::Reserved);
    names.push(format!("{a}.tmp"));
    let b = next_id(&names).unwrap();
    assert_eq!((a, b), (4, 5));
}

#[test]
fn reservations_are_tried_again() {
    assert_eq!(reserve_next(1, Attempt::Raced), Reservation::Again { undo: false });
    assert_eq!(reserve_next(1, Attempt::Taken), Reservation::Again { undo: true });
    assert_eq!(reserve_next(100, Attempt::Raced), Reservation::GiveUp);
    assert_eq!(reserve_next(1, Attempt::Failed), Reservation::Error);
}

#[test]
fn snapshots_are_published_only_when_recorded() {
    let mut s = TakeStep::PreHook;
    let mut seen = vec![];
    for _ in 0..20 {
        seen.push(s);
        s = take_next(s, true);
    }
    let at = |x: TakeStep| seen.iter().position(|y| *y == x).unwrap();
    assert!(at(TakeStep::WriteMeta) < at(TakeStep::Publish));
    assert!(at(TakeStep::Snapshot) < at(TakeStep::WriteMeta));
    assert_eq!(s, TakeStep::Done);
    assert_eq!(take_next(TakeStep::WriteMeta, false), TakeStep::RemoveSnapshot);
}

#[test]
fn the_snapshot_is_of_the_right_subvolume() {
    let t = Target::for_project(&pref(), &eff(&["target"]));
    assert_eq!(t.stats_exclude, vec!["target"]);
    assert!(check_live(&t, &live(1, 1)).is_ok());
    let mut other = live(1, 1);
    other.uuid = Uuid([2; 16]);
    assert!(check_live(&t, &other).is_err());
    let mut s = live(1, 1);
    s.uuid = Uuid([3; 16]);
    s.parent_uuid = Some(Uuid([1; 16]));
    assert!(check_parent(&s, &live(1, 1)).is_ok());
    s.parent_uuid = None;
    assert!(check_parent(&s, &live(1, 1)).is_err());
    let o = SnapOpts::new(SnapshotKind::Manual, "why".into());
    let m = taken_meta(&t, &o, 7, NOW, &live(50, 60), &s, Some(stats(3)), origin());
    assert_eq!((m.id, m.source_ctransid, m.snapshot_otransid), (7, 1, 10));
    assert_eq!(m.complete_stats().unwrap().files, 3);
}

#[test]
fn deletions_are_proven() {
    let snaps: Vec<SnapshotMeta> = (1..=3).map(snap).collect();
    let mut info = live(1, 1);
    info.uuid = snaps[0].snapshot_uuid;
    info.parent_uuid = Some(Uuid([1; 16]));
    info.flags = 1;
    let p = "/space/.bpm/projects/demo/1/snapshot";
    let go = |sub, info: &SubvolInfo, m: &SnapshotMeta, mode| {
        authorize_delete(p, sub, info, &record(), &snaps, m, mode)
    };
    assert!(go(true, &info, &snaps[0], DeleteMode::Policy).is_ok());
    assert!(go(false, &info, &snaps[0], DeleteMode::Policy).is_err());
    let mut held = snap(1);
    held.hold = true;
    assert!(go(true, &info, &held, DeleteMode::Policy).is_err());
    assert!(go(true, &info, &held, DeleteMode::User { force_held: true }).is_ok());
    assert!(check_place(p, "/space/.bpm/projects/demo").is_ok());
    assert!(check_place("/space/demo", "/space/.bpm/projects/demo").is_err());
}

#[test]
fn changes_of_the_tool_are_no_activity() {
    let mut st = ProjectState::new();
    st.snap_ctransid = 5;
    st.seen_ctransid = 5;
    assert!(note_live(&mut st, &live(9, 9), NOW));
    assert_eq!(st.last_change_at, Some(NOW));
    assert!(!note_live(&mut st, &live(9, 9), NOW));
    let later = Timestamp { ns: NOW.ns + 1 };
    note_tool_change(&mut st, &live(9, 9), &live(12, 12), later);
    assert_eq!(st.last_change_at, Some(NOW));
    assert!(!note_live(&mut st, &live(12, 12), later));
}

#[test]
fn stages_follow_idleness() {
    let mut st = ProjectState::new();
    st.last_change_at = Some(before(20 * 86400));
    let r = update_stage(&mut st, &lifecycle(), before(400 * 86400), NOW);
    assert_eq!(r, Some((Stage::Active, Stage::Dormant)));
    assert_eq!(st.stage_since, Some(NOW));
    assert_eq!(update_stage(&mut st, &lifecycle(), before(400 * 86400), NOW), None);
}

#[test]
fn new_live_trees_start_anew() {
    let mut st = ProjectState::new();
    st.missing_since = Some(before(5));
    init_new_live(&mut st, &lifecycle(), &snap(1), &live(7, 7), before(100 * 86400), NOW);
    assert_eq!(st.missing_since, None);
    assert_eq!(st.last_change_at, Some(before(100 * 86400)));
    note_replaced_live(&mut st, &live(9, 9), NOW);
    assert!(!note_live(&mut st, &live(9, 9), NOW));
    note_snapshot(&mut st, &snap(4));
    assert_eq!(st.last_snapshot_at, Some(snap(4).created));
}

#[test]
fn counting_has_its_time() {
    let mut st = ProjectState::new();
    let snaps = vec![snap(1)];
    assert!(want_stats(&snapshot_policy(), &st, &snaps, NOW));
    st.last_stats_at = Some(before(10));
    let mut counted = snap(2);
    counted.stats = Some(TreeStats { walk_ms: 3000, ..stats(5) });
    let both = vec![snap(1), counted];
    assert!(!want_stats(&snapshot_policy(), &st, &both, NOW));
    assert!(matches!(
        evaluate_guard(&st, &both, &snapshot_policy(), NOW, Walk::Never),
        GuardStep::Check(1)
    ));
    assert!(!thin_allowed(&st, &both));
    st.guard_seen = 2;
    assert!(thin_allowed(&st, &both));
    assert!(matches!(
        evaluate_guard(&st, &both, &snapshot_policy(), NOW, Walk::Never),
        GuardStep::Nothing
    ));
}

#[test]
fn the_guard_freezes_and_holds_the_last_good_snapshot() {
    let mut snaps: Vec<SnapshotMeta> = (1..=3).map(snap).collect();
    for (i, m) in snaps.iter_mut().enumerate() {
        m.stats = Some(stats(100 - i as u64));
    }
    let mut st = ProjectState::new();
    assert!(matches!(begin(&mut st, &vec![], &snaps[0], "demo", NOW), Begin::Pass));
    assert_eq!(st.ref_stats.unwrap().files, 100);
    passed(&mut st, &snaps[1]);
    assert_eq!(previous(&snaps, 3), Some(1));
    assert!(candidates(&snaps, Some(1), 3).is_empty());
    let c = candidates(&snaps, Some(0), 3);
    assert_eq!(c, vec![1]);
    assert!(matches!(last_good(&snaps, Some(0), &c, &vec![]), Search::Look(1)));
    assert!(matches!(last_good(&snaps, Some(0), &c, &vec![Verdict::Passed]), Search::Found(Some(2))));
    assert!(matches!(last_good(&snaps, Some(0), &c, &vec![Verdict::Tripped]), Search::Found(Some(1))));
    assert_eq!(hold_last_good(&mut snaps, Some(1), 3), Some(0));
    assert!(snaps[0].hold);
    let why = vec!["files lost".to_string()];
    assert!(freeze(&mut st, &why, 3, Some(1), NOW));
    let f = st.frozen.as_ref().unwrap();
    assert_eq!((f.trigger_snap, f.ref_snap), (Some(3), Some(1)));
    assert!(!freeze(&mut st, &vec!["more".to_string()], 4, None, NOW));
    assert_eq!(st.frozen.as_ref().unwrap().since, NOW);
    assert!(trip_message("demo", 3, &why, Some(1)).contains("files lost"));
}

#[test]
fn the_end_of_an_evaluation_passes_or_trips() {
    let mut snaps: Vec<SnapshotMeta> = (1..=2).map(snap).collect();
    snaps[0].stats = Some(stats(100));
    snaps[1].stats = Some(stats(120));
    let new = SnapshotMeta { stats: Some(stats(120)), ..snap(2) };
    let t = Target {
        unit: Unit { name: "demo".into(), dir: "/space/.bpm/projects/demo".into(), dry_run: false },
        name: "demo".into(),
        live: "/space/demo".into(),
        root: "/space".into(),
        expected_uuid: None,
        owner: Some((1000, 1000)),
        stats_exclude: vec![],
        sentinels: vec![],
    };
    let mut st = ProjectState::new();
    assert!(matches!(begin(&mut st, &vec![], &snaps[0], "demo", NOW), Begin::Pass));
    let mark = st.ref_stats.unwrap();
    assert!(matches!(apply(&t, &mut st, &mut snaps, &new, &mark, &vec![], None, NOW), Applied::Passed));
    assert_eq!(st.ref_stats.unwrap().files, 120);
    assert!(st.frozen.is_none() && !snaps[0].hold);
    let why = vec!["files lost".to_string()];
    match apply(&t, &mut st, &mut snaps, &new, &mark, &why, Some(1), NOW) {
        Applied::Tripped { message, hook, first, held } => {
            assert!(message.starts_with("demo: shrink detected in snapshot #2: files lost. "));
            assert_eq!(hook.reason, "files lost");
            assert_eq!(hook.extra[0], ("BPM_REF_SNAPSHOT".to_string(), "1".to_string()));
            assert_eq!(hook.extra[2], ("BPM_FILES_BEFORE".to_string(), "100".to_string()));
            assert!(first);
            assert_eq!(held, Some(0));
        }
        Applied::Passed => panic!("it trips"),
    }
    assert_eq!(snaps[0].hold_note, "auto-held: last state before shrink detected in #2");
    match apply(&t, &mut st, &mut snaps, &new, &mark, &why, Some(1), NOW) {
        Applied::Tripped { first, held, .. } => assert!(!first && held.is_none()),
        Applied::Passed => panic!("it trips"),
    }
    assert!(matches!(apply(&t, &mut st, &mut snaps, &new, &mark, &vec![], None, NOW), Applied::Passed));
    assert_eq!(st.frozen.as_ref().unwrap().reasons, vec!["files lost", "#2: files lost"]);
}

fn proven_facts() -> TreeFacts {
    TreeFacts {
        path: "/space/demo".into(),
        stat: Some(Ok(PathStat { is_dir: true, facts: FileFacts::of(1, 0, 0, 0, 0, 0) })),
        users: Some(None),
        mounts: Some(vec![]),
        nested: Some(Ok(vec![])),
        subvolume: Some(true),
        live: Some(Ok(live(101, 201))),
        walked: Some(Ok(stats(3))),
    }
}

#[test]
fn nothing_is_deleted_without_proof() {
    let kept = snap(1);
    let e = Expect::Snapshot { kept: &kept };
    assert!(matches!(prove(&TreeFacts::unknown("/space/demo"), &e, &vec![]), Judgement::Need(Need::Stat)));
    assert!(matches!(prove(&proven_facts(), &e, &vec![]), Judgement::Proven(_)));
    let mut f = proven_facts();
    f.users = Some(Some("pid 1 vim".into()));
    assert!(matches!(prove(&f, &e, &vec![]), Judgement::Refused(_)));
    let mut f = proven_facts();
    f.mounts = Some(vec!["/space/demo/m".into()]);
    assert!(matches!(prove(&f, &e, &vec![]), Judgement::Refused(_)));
    let mut f = proven_facts();
    f.live = Some(Ok(live(102, 201)));
    assert!(matches!(prove(&f, &e, &vec![]), Judgement::Refused(_)));
    match retire(&f, &e, &vec![], "demo.bpm-old", "rollback", NOW, &vec![]) {
        Retirement::Keep { name, .. } => assert_eq!(
            Leftover::parse(&name),
            Some(Leftover::Keep { base: "demo".into(), op: "rollback".into() })
        ),
        _ => panic!("nothing is proven"),
    }
}

#[test]
fn kept_names_are_free() {
    let first = keep_name("demo", "adopt", NOW, &vec![]);
    assert_eq!(first, "demo.bpm-keep-adopt-20270115T080000");
    let second = keep_name("demo", "adopt", NOW, &vec![first.clone()]);
    assert_ne!(first, second);
    assert!(second.starts_with(&first));
}

#[test]
fn how_a_proven_tree_is_deleted() {
    let proof = |subvolume: bool, nested: Vec<String>| {
        let mut f = proven_facts();
        f.subvolume = Some(subvolume);
        f.nested = Some(Ok(nested));
        match prove(&f, &Expect::Verified, &vec!["target".into()]) {
            Judgement::Proven(p) => p,
            _ => panic!("it is proven"),
        }
    };
    assert_eq!(proof(true, vec![]).path(), "/space/demo");
    let (path, how) = delete(proof(true, vec!["target".into()]), true);
    assert_eq!((path.as_str(), how), ("/space/demo", Deletion::Subvolume { recursive: true }));
    assert_eq!(delete(proof(false, vec![]), true).1, Deletion::Directory { nested_first: false });
    assert_eq!(delete(proof(false, vec![]), false).1, Deletion::File);
}

#[test]
fn mounts_below_a_path() {
    let info = "36 35 98:0 / /space/demo rw - btrfs /dev/x rw\n\
                37 36 98:1 / /space/demo/m rw - ext4 /dev/y rw\n\
                38 36 98:2 / /space/demolition rw - ext4 /dev/z rw\n";
    assert_eq!(mounts_under(info, "/space/demo/m"), vec!["/space/demo/m"]);
    assert!(!mounts_under(info, "/space/demo").contains(&"/space/demolition".to_string()));
}

#[test]
fn banned_directories_become_subvolumes() {
    let e = eff(&["target"]);
    let mut st = ProjectState::new();
    let missing = BanFact::Missing { parent_is_dir: true };
    assert!(matches!(enforce_cheap(&mut st, &e, &rel("target"), &missing, true, NOW), BanStep::Create));
    assert!(matches!(enforce_cheap(&mut st, &e, &rel("target"), &missing, false, NOW), BanStep::Nothing));
    let made = note_created(&mut st, &rel("target"));
    assert!(made.modified_live());
    assert!(st.banlist_seen.has("target"));
    match enforce_cheap(&mut st, &e, &rel("target"), &BanFact::Directory, true, NOW) {
        BanStep::Report(BanAction::PendingConvert(r), _) => assert_eq!(r, "target"),
        _ => panic!("a directory with contents waits"),
    }
    assert!(st.pending_convert.has("target"));
    forget_unbanned(&mut st, &eff(&[]));
    assert!(!st.pending_convert.has("target"));
}

#[test]
fn conversions_copy_before_they_exchange() {
    let f = ConvertFacts {
        full: "/space/demo/target".into(),
        leftover: None,
        is_dir: true,
        is_subvolume: false,
        writers: None,
    };
    assert!(matches!(convert(&f, false, false), ConvertStart::Go));
    assert!(matches!(convert(&f, false, true), ConvertStart::Pretend));
    let busy = ConvertFacts { writers: Some("pid 1".into()), full: f.full.clone(), ..f };
    assert!(matches!(convert(&busy, false, false), ConvertStart::Refuse(_)));
    assert!(matches!(convert(&busy, true, false), ConvertStart::Go));
    assert_eq!(convert_next(ConvertStep::CopyContents, false, true), ConvertStep::DeleteSubvolume);
    assert_eq!(convert_next(ConvertStep::CopyContents, true, true), ConvertStep::CountCopy);
}

fn adopt_facts() -> AdoptFacts {
    AdoptFacts {
        store_exists: true,
        store_dir: "/space/.bpm".into(),
        root: "/space".into(),
        path: "/space/demo".into(),
        is_dir: Some(true),
        is_mount_point: Some(false),
        live: Some(None),
        managed: Some(true),
        leftover: Some(None),
        nested: Some(vec![]),
        free: Some((100 << 30, "100 GB".into())),
        writers: Some(None),
        users: Some(Users { all: None, cwd: None }),
    }
}

fn adopt_opts() -> AdoptOpts {
    AdoptOpts { keep_build: None, force: false, verify_paths: false, require_unused: false }
}

#[test]
fn adoption_looks_before_it_begins() {
    let o = adopt_opts();
    let none = vec![];
    assert!(matches!(preflight(&adopt_facts(), &o, "demo", &none), Preflight::Ready { is_subvolume: false, .. }));
    let f = AdoptFacts { is_dir: None, ..adopt_facts() };
    assert!(matches!(preflight(&f, &o, "demo", &none), Preflight::Need(AdoptNeed::Directory)));
    let f = AdoptFacts { is_dir: Some(false), ..adopt_facts() };
    assert!(!matches!(preflight(&f, &o, "demo", &none), Preflight::Ready { .. }));
    let f = AdoptFacts { managed: Some(false), ..adopt_facts() };
    assert!(matches!(preflight(&f, &o, "demo", &none), Preflight::Refuse(_)));
    let f = AdoptFacts { is_mount_point: Some(true), ..adopt_facts() };
    assert!(!matches!(preflight(&f, &o, "demo", &none), Preflight::Ready { .. }));
    let f = AdoptFacts { free: Some((1, "1 B".into())), ..adopt_facts() };
    assert!(!matches!(preflight(&f, &o, "demo", &none), Preflight::Ready { .. }));
    let f = AdoptFacts { writers: Some(Some("pid 1".into())), ..adopt_facts() };
    assert!(matches!(preflight(&f, &o, "demo", &none), Preflight::Refuse(_)));
    assert!(is_valid_name("demo"));
    assert!(!is_valid_name("a/b") && !is_valid_name("..") && !is_valid_name("x.bpm-old"));
}

#[test]
fn the_original_stays_until_the_copy_is_checked() {
    let mut s = adopt_first(false);
    let mut seen = vec![];
    for _ in 0..25 {
        seen.push(s);
        s = adopt_next(s, true);
    }
    let at = |x: AdoptStep| seen.iter().position(|y| *y == x).unwrap();
    assert!(at(AdoptStep::Verify) < at(AdoptStep::Swap));
    assert!(at(AdoptStep::LastCheck) < at(AdoptStep::Swap));
    assert!(at(AdoptStep::Snapshot) < at(AdoptStep::Retire));
    assert_eq!(s, AdoptStep::Done);
    assert_eq!(adopt_next(AdoptStep::Verify, false), AdoptStep::Abort);
    assert!(journal_step(AdoptStep::Swap).is_some());
    assert_eq!(adopt_first(true), AdoptStep::Register);
}

#[test]
fn copies_are_compared_with_the_original() {
    let mut again = stats(5);
    again.newest_change = Some(before(10));
    assert!(verify_copy(&stats(5), &stats(5), None, NOW, "/space/demo").is_ok());
    assert!(verify_copy(&stats(5), &stats(4), None, NOW, "/space/demo").is_err());
    assert!(verify_copy(&stats(5), &stats(5), Some(false), NOW, "/space/demo").is_err());
    let mut changed = stats(5);
    changed.newest_change = Some(Timestamp { ns: NOW.ns + 1 });
    assert!(verify_copy(&changed, &stats(5), None, NOW, "/space/demo").is_err());
    let f = |p: &str, size| (p.to_string(), EntryInfo { kind: EntryKind::File, size, mtime_ns: 1, mode: 0o644 });
    assert!(listings_agree(&vec![f("a", 1)], &vec![f("a", 1)], &vec![]));
    assert!(!listings_agree(&vec![f("a", 1)], &vec![f("a", 2)], &vec![]));
    assert!(listings_agree(&vec![f("a", 1), f("t/x", 1)], &vec![f("a", 1)], &vec!["t".into()]));
}

#[test]
fn what_adoption_copies() {
    let ban = vec![rel("target"), rel("a/b"), rel("a")];
    assert!(!copies_entry("target", true, &ban));
    assert!(copies_entry("target", false, &ban));
    assert!(copies_entry("src", true, &ban));
    let order = nested_order(&ban);
    let at = |i: usize| order.iter().position(|x| *x == i).unwrap();
    assert!(at(2) < at(1));
    let mut nested = vec!["target".to_string()];
    add_made(
        &mut nested,
        &vec![BanAction::Created("build".into()), BanAction::PendingConvert("x".into())],
    );
    assert_eq!(nested, vec!["target", "build"]);
}

#[test]
fn names_of_moved_projects_are_cleared() {
    assert!(matches!(clear_name(None, "demo", None), ClearName::Free));
    assert!(matches!(clear_name(Some(&record()), "demo", Some(Uuid([1; 16]))), ClearName::Managed(_)));
    assert!(matches!(clear_name(Some(&record()), "demo", None), ClearName::Move(_)));
}

#[test]
fn restoring_goes_where_it_may() {
    assert_eq!(normalize_rel("/space/demo", "/space/demo/a/b"), Ok("a/b".into()));
    assert_eq!(normalize_rel("/space/demo", "a/./b"), Ok("a/b".into()));
    assert!(matches!(normalize_rel("/space/demo", "../x"), Err(BpmError::Refused(_))));
    assert!(matches!(normalize_rel("/space/demo", "/etc"), Err(BpmError::Refused(_))));
    assert_eq!(normalize_rel("/space/demo", "/space/demo/a/../b"), Ok("b".into()));
    assert!(matches!(normalize_rel("/space/demo", "/space/demo/../other/f"), Err(BpmError::Refused(_))));
    assert!(restore_source("a", 3, Some(false), &vec![]).unwrap().copy);
    assert!(matches!(restore_source("a", 3, None, &vec![]), Err(BpmError::NotFound(_))));
    assert_eq!(restore_target("/space/demo", "a/b", None), "/space/demo/a/b");
    assert_eq!(restore_target("/space/demo", "a/b", Some("/tmp/x")), "/tmp/x/b");
    assert!(check_target("/d", false, false).is_ok());
    assert!(check_target("/d", true, false).is_err());
    assert!(check_target("/d", true, true).is_ok());
    let at = |dst: &str| vec![Planned { rel: "a".into(), dst: dst.into(), replaces: true }];
    assert!(needs_safety(&at("/space/demo/a"), "/space/demo"));
    assert!(!needs_safety(&at("/tmp/a"), "/space/demo"));
    assert!(matches!(clear_target("/d", AtTarget::Subvolume), Clearing::Fail(_)));
    assert!(matches!(clear_target("/d", AtTarget::Directory), Clearing::RemoveTree));
    assert!(matches!(clear_target("/d", AtTarget::Nothing), Clearing::Nothing));
    assert_eq!(owned_parents("/space/demo/a/b", "/space/demo").len(), 2);
}

#[test]
fn restores_are_planned_as_a_whole() {
    let banned = vec![RelPath::parse("target").unwrap()];
    let there = |is_dir: bool, exists_there: bool| PathFacts { in_snapshot: Some(is_dir), exists_there };
    let paths: Vec<String> = vec!["src/a".into(), "target/x".into(), "/space/demo/b".into()];
    let facts = vec![there(false, true), there(true, true), there(true, false)];
    let plan = |overwrite: bool, to: Option<&str>| {
        restore_paths("/space/demo", 3, &paths, &facts, &banned, to, overwrite)
    };
    let p = plan(true, None).ok().unwrap();
    let copies: Vec<(&str, &str, bool)> =
        p.copies.iter().map(|c| (c.rel.as_str(), c.dst.as_str(), c.replaces)).collect();
    assert_eq!(copies, vec![("src/a", "/space/demo/src/a", true), ("b", "/space/demo/b", false)]);
    assert_eq!(
        p.warnings,
        vec!["target/x is a banned (unsnapshotted) directory; the snapshot only has an empty placeholder"]
    );
    assert!(p.safety);
    assert!(!plan(true, Some("/tmp/out")).ok().unwrap().safety);
    assert_eq!(
        plan(false, None).err(),
        Some(BpmError::Refused(
            "/space/demo/src/a exists; pass --overwrite (a pre-restore snapshot is taken first)".into()
        ))
    );
    let first = |paths: Vec<String>, facts: Vec<PathFacts>| {
        restore_paths("/space/demo", 3, &paths, &facts, &banned, None, false).err()
    };
    let missing = PathFacts { in_snapshot: None, exists_there: false };
    assert_eq!(
        first(vec!["a".into(), "../b".into()], vec![missing, missing]),
        Some(BpmError::NotFound("a is not in snapshot #3".into()))
    );
    assert_eq!(
        first(vec!["/etc".into(), "a".into()], vec![missing, missing]),
        Some(BpmError::Refused("/etc is not inside /space/demo".into()))
    );
}

#[test]
fn rollbacks_keep_a_way_back() {
    assert_eq!(rollback_next(RollbackStep::Materialize, false), RollbackStep::MoveBack);
    assert_eq!(rollback_next(RollbackStep::Safety, false), RollbackStep::Fail);
    let aside = aside_path("/space/demo", NOW);
    assert_eq!(aside, "/space/demo.bpm-rollback-20270115T080000");
    let ban = vec![rel("target")];
    assert!(matches!(
        nested_step("target", &ban, true, "/space/demo/target", Placeholder::EmptyDir, &aside),
        NestedStep::Drop
    ));
    assert!(matches!(
        nested_step("target", &ban, false, "/space/demo/target", Placeholder::EmptyDir, &aside),
        NestedStep::Move { remove_placeholder: true }
    ));
    assert!(matches!(
        nested_step("own", &ban, true, "/space/demo/own", Placeholder::Other, &aside),
        NestedStep::Leave(_)
    ));
    let all: Vec<String> = vec!["target".into(), "own".into()];
    assert_eq!(left_nested(&all, &vec![], &vec!["target".into()]), vec!["own"]);
    assert!(!delete_recursively(&vec!["own".into()], &vec!["target".into()]));
    assert!(delete_recursively(&vec![], &vec!["target".into()]));
}

#[test]
fn collapsing_needs_a_current_snapshot() {
    let mut st = ProjectState::new();
    let mut snaps: Vec<SnapshotMeta> = (1..=3).map(snap).collect();
    snaps[2].stats = Some(stats(5));
    assert!(matches!(collapse(&mut st, &live(103, 203), &snaps, NOW), CollapseStart::Ready));
    assert!(matches!(collapse(&mut st, &live(500, 500), &snaps, NOW), CollapseStart::Take));
    st.guard_seen = 3;
    match collapse_ids(&mut st, &live(103, 203), &snaps, "demo", NOW, Duration::zero()) {
        CollapseEnd::Delete(ids) => assert_eq!(ids, vec![1, 2]),
        _ => panic!("everything is up to date"),
    }
    assert!(!collapsed(&snaps, NOW, Duration::zero()));
    assert!(collapsed(&vec![snap(3)], NOW, Duration::zero()));
}

#[test]
fn recompression_is_worth_it_once() {
    let st = ProjectState::new();
    let mut counted = snap(3);
    counted.stats = Some(stats(5));
    let snaps = vec![counted];
    let p = RecompressPolicy { max_bytes: 50, ..recompress_policy() };
    assert!(needs_recompress(&p, &st, 103, &snaps));
    assert!(!needs_recompress(&p, &st, 103, &vec![snap(3)]));
    assert!(!needs_recompress(&RecompressPolicy { max_bytes: 49, ..p }, &st, 103, &snaps));
    assert!(!needs_recompress(&RecompressPolicy { enabled: false, ..p }, &st, 103, &snaps));
    assert_eq!(sample_positions(0), Vec::<usize>::new());
    assert!(sample_positions(1000).iter().all(|i| *i < 1000));
    assert!(required_free(100, &recompress_policy()) >= 100 + SLACK);
    assert!(skip_by_state(&st, Some(true), &vec![snap(3)]).is_some());
    let f = |size| vec![("a".to_string(), EntryInfo { kind: EntryKind::File, size, mtime_ns: 1, mode: 0o644 })];
    assert!(untouched(5, 5, &f(1), &f(1)));
    assert!(!untouched(5, 6, &f(1), &f(1)));
    assert!(!untouched(5, 5, &f(1), &f(2)));
    assert_eq!(recompress(RecompressStep::Compare, false), RecompressStep::Keep);
    assert_eq!(recompress(RecompressStep::Compare, true), RecompressStep::Replace);
}

#[test]
fn archives_are_tested_before_they_are_published() {
    let mut s = ArchiveStep::Send;
    let mut seen = vec![];
    for _ in 0..15 {
        seen.push(s);
        s = archive(s, true);
    }
    let at = |x: ArchiveStep| seen.iter().position(|y| *y == x).unwrap();
    assert!(at(ArchiveStep::Test) < at(ArchiveStep::Publish));
    assert_eq!(s, ArchiveStep::Done);
    assert_eq!(archive(ArchiveStep::Test, false), ArchiveStep::RemovePart);
    assert_eq!(
        sha256_hex(b"abc"),
        "ba7816bf8f01cfea414140de5dae2223b00361a396177a9cb410ff61f20015ad"
    );
    let file = archive_file("/a", "demo", &snap(3));
    assert!(file.starts_with("/a/demo/"), "{file}");
    assert!(file.contains("20260910T"), "{file}");
    assert!(archive_allowed(&file, false).is_ok());
    assert!(archive_allowed(&file, true).is_err());
    assert_eq!(archive_level(9, false), 9);
    let w = Written {
        nested: vec![],
        bytes: 3,
        sha256: sha256_hex(b"abc"),
        created: NOW,
        bpm_version: "0.1.0".into(),
        btrfs_progs: "6.8".into(),
    };
    let m = manifest(&pref(), &snap(3), 9, false, w);
    assert!(check_digest(&file, &m, b"abc").is_ok());
    assert!(check_digest(&file, &m, b"abd").is_err());
    assert!(compare_digest(&file, &m, "x").is_err());
    assert!(manifest_path(&file).starts_with("/a/demo/"));
    assert!(sha_line("s", "f").starts_with("s  f"));
    assert!(matches!(newest_archive(&vec![], "/a"), Err(BpmError::NotFound(_))));
    assert_eq!(zstd_failed("zstd", &[b'x', 0xff]).matches('\u{fffd}').count(), 1);
}

#[test]
fn attribute_names_are_split_at_zeros() {
    assert_eq!(names(&b"user.a\0\0user.b\0".to_vec()), vec![b"user.a".to_vec(), b"user.b".to_vec()]);
    assert_eq!(names(&b"user.a".to_vec()), vec![b"user.a".to_vec()]);
    assert!(names(&vec![]).is_empty());
    assert!(set_failed(true, false, &b"security.x".to_vec(), "/d", "e").is_ok());
    assert_eq!(
        set_failed(false, false, &b"user.x".to_vec(), "/d", "e").unwrap_err(),
        "setxattr user.x on /d: e"
    );
}

#[test]
fn marks_are_kept_while_frozen() {
    let mut st = ProjectState::new();
    st.ref_stats = Some(RefStats { files: 100, files_snap: 1, bytes: 1000, bytes_snap: 1 });
    let mut m = snap(5);
    m.stats = Some(stats(50));
    passed(&mut st, &m);
    assert_eq!(st.ref_stats.unwrap().files, 100);
    m.stats = Some(stats(150));
    passed(&mut st, &m);
    assert_eq!(st.ref_stats.unwrap().files, 150);
    assert!(freeze(&mut st, &vec!["lost".to_string()], 5, None, NOW));
    m.stats = Some(stats(200));
    passed(&mut st, &m);
    assert_eq!(st.ref_stats.unwrap().files, 150);
}
