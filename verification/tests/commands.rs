use bpm::btrfs::{hex_string, SubvolInfo, Uuid};
use bpm::config::effective::EffectiveConfig;
use bpm::config::load::{parse_context, validate_context};
use bpm::config::schema::{
    default_adopt, default_adopt_min_age, is_policy_key, AdoptMode, GlobalCfg, LifecyclePolicy, Policy, Precreate,
    RecompressPolicy, RootCfg, ShrinkPolicy, SnapshotPolicy, ThinPolicy,
};
use bpm::error::BpmError;
use bpm::hooks::{
    all_events, check_file, hook_step, project_hooks_allowed, HookEvent, HookListing, HookScope, HookStat, HookStep,
};
use bpm::mechanics::adopt::{keeps_build, AdoptOpts};
use bpm::ops::adopt::convert_warning;
use bpm::ops::diff::compares;
use bpm::ops::freeze::{frozen_text, unfreeze, unfreeze_message, unfreeze_snapshot, UnfreezeStep};
use bpm::ops::hold::{hold_text, run as hold};
use bpm::ops::hooks_cmd::{ran_text, run_hook};
use bpm::ops::lock_timeout;
use bpm::ops::migrate::{
    by_number, check_start, delete_args, deletion_calls, foreign_message, import_meta, import_step, snapper, stop_args,
};
use bpm::ops::recompress::is_cold;
use bpm::ops::rm::{bad_selector, check_emptied, forget_warning, forgotten_text, is_own_file, not_empty};
use bpm::ops::setup::{
    enable_args, missing_program, missing_root, plain_root, store_info, systemctl, systemctl_failed,
};
use bpm::ops::snap::{
    check_managed, container_record, container_target, goes_without_lock, hook_reason, hook_wanted, snap_container,
    snap_project, ContainerRecord, SnapRequest,
};
use bpm::ops::status::{banlist_states, gather, live_changed, PathState};
use bpm::ops::wrap::{post_message, pre_message};
use bpm::project::{classify_name, names_path, resolve_in, resolve_path, NameClass, ProjectRef};
use bpm::store::journal::path_in;
use bpm::store::scan::{classify, sort_units, EntryClass};
use bpm::store::{
    newest_at, Frozen, KindClass, Origin, ProjectRecord, ProjectState, SnapshotKind, SnapshotMeta, Stage, Store,
    CONTAINER,
};
use bpm::util::paths::path_starts_with;
use bpm::util::relpath::RelPath;
use bpm::util::strmap::StrMap;
use bpm::util::time::{Duration, Timestamp};
use bpm::util::walk::TreeStats;

const NOW: Timestamp = Timestamp { ns: 1_800_000_000_000_000_000 };

fn secs(n: u64) -> Duration {
    Duration::from_secs(n)
}

fn snap(id: u64) -> SnapshotMeta {
    SnapshotMeta::sample(id, "demo")
}

fn live(ctransid: u64, generation: u64) -> SubvolInfo {
    SubvolInfo {
        id: 300,
        name: "demo".into(),
        parent_id: 5,
        generation,
        flags: 0,
        uuid: Uuid([1; 16]),
        parent_uuid: None,
        received_uuid: None,
        ctransid,
        otransid: 10,
        ctime: None,
        otime: Some(Timestamp { ns: 77 }),
    }
}

fn record() -> ProjectRecord {
    ProjectRecord::new("demo", "/space/demo", Uuid([1; 16]), 1000, 1001, NOW)
}

fn pref() -> ProjectRef {
    let store = Store::new("/space", ".bpm", false);
    let unit = store.unit("demo");
    ProjectRef { root: RootCfg::adhoc("/space".into()), store, unit, record: record() }
}

fn eff(banlist: &[&str]) -> EffectiveConfig {
    let rels = || banlist.iter().map(|b| RelPath::parse(b).unwrap()).collect();
    EffectiveConfig {
        name: "demo".into(),
        path: "/space/demo".into(),
        managed: true,
        profiles: vec![],
        banlist: rels(),
        primary_banlist: rels(),
        never_precreate: vec![],
        sentinels: vec![],
        policy: Policy {
            banlist_precreate: Precreate::Primary,
            banlist_settle: secs(600),
            keep_build_on_adopt: true,
            snapshot: SnapshotPolicy {
                min_interval: secs(300),
                stats: true,
                stats_budget: secs(20),
                stats_min_interval: secs(1800),
            },
            thin: ThinPolicy {
                keep_all: secs(1),
                hourly: secs(1),
                daily: secs(1),
                weekly: secs(1),
                safety_ttl: secs(1),
                min_free: 0,
            },
            lifecycle: LifecyclePolicy { dormant_after: secs(1), cold_after: secs(2), adopt_grace: secs(3) },
            recompress: RecompressPolicy { enabled: true, level: 9, max_bytes: 0, min_free: 0, nested: false },
            shrink_guard: ShrinkPolicy {
                enabled: true,
                min_files: 1,
                min_bytes: 1,
                exclude: vec![],
                sentinels: vec![],
                thin_after_freeze: true,
            },
        },
        origins: StrMap::new(),
        ignored_project_keys: vec![],
    }
}

#[test]
fn requests_for_snapshots() {
    let mut r = SnapRequest {
        reason: String::new(),
        user: "ada".into(),
        quick: false,
        hold: true,
        pair: Some(4),
        throttle: None,
        if_changed: false,
    };
    let o = snap_project(&r, SnapshotKind::Manual, true, secs(20));
    assert_eq!((o.reason.as_str(), o.stats, o.hold, o.pair), ("manual by ada", true, true, Some(4)));
    r.reason = "before the move".into();
    r.quick = true;
    let o = snap_project(&r, SnapshotKind::Manual, true, secs(20));
    assert_eq!((o.reason.as_str(), o.stats), ("before the move", false));
    let o = snap_container(&r, SnapshotKind::Pre);
    assert_eq!((o.kind, o.stats, o.pair), (SnapshotKind::Pre, false, None));
    assert!(goes_without_lock(SnapshotKind::Hook, 4));
    assert!(!goes_without_lock(SnapshotKind::Hook, 1) && !goes_without_lock(SnapshotKind::Manual, 4));
    assert_eq!(check_managed("/space/demo", &live(1, 1), &record()), Ok(()));
    let mut other = live(1, 1);
    other.uuid = Uuid([2; 16]);
    assert_eq!(
        check_managed("/space/demo", &other, &record()),
        Err(format!(
            "/space/demo is not the managed subvolume (uuid {} != {})",
            Uuid([2; 16]).to_string(),
            Uuid([1; 16]).to_string()
        ))
    );
}

#[test]
fn agents_are_snapshotted_before_they_act() {
    assert_eq!(hook_reason("helper", false, "ls  -l"), "helper: ls -l");
    assert_eq!(hook_reason("helper", true, "rm x"), "helper (destructive): rm x");
    let mut recent = snap(1);
    recent.created = Timestamp { ns: NOW.ns - 5_000_000_000 };
    let snaps = vec![recent];
    let me = Some(Uuid([1; 16]));
    assert!(!hook_wanted(&record(), me, false, &snaps, secs(60), NOW));
    assert!(hook_wanted(&record(), me, false, &snaps, secs(5), NOW));
    assert!(hook_wanted(&record(), me, true, &snaps, secs(60), NOW));
    assert!(!hook_wanted(&record(), Some(Uuid([2; 16])), true, &snaps, secs(60), NOW));
    assert!(!hook_wanted(&record(), None, true, &snaps, secs(60), NOW));
}

#[test]
fn the_root_has_a_record_of_its_own() {
    let u = Uuid([1; 16]);
    let unit = pref().store.container();
    let t = container_target(&unit, "/space", u);
    assert_eq!((t.name.as_str(), t.live.as_str(), t.expected_uuid), (CONTAINER, "/space", Some(u)));
    match container_record("/space", true, u, None, NOW) {
        ContainerRecord::Write(r) => assert_eq!((r.name.as_str(), r.path.as_str(), r.owner_uid), (CONTAINER, "/space", 0)),
        _ => panic!("it is written"),
    }
    assert!(matches!(container_record("/space", true, u, Some(&record()), NOW), ContainerRecord::Known));
    match container_record("/space", false, u, None, NOW) {
        ContainerRecord::Fail(m) => {
            assert_eq!(m, "/space is not a subvolume root; container snapshots are not possible")
        }
        _ => panic!("it fails"),
    }
    match container_record("/space", true, Uuid([2; 16]), Some(&record()), NOW) {
        ContainerRecord::Fail(m) => assert!(m.starts_with("container store belongs to subvolume "), "{m}"),
        _ => panic!("it fails"),
    }
}

#[test]
fn setup_in_words() {
    assert_eq!(enable_args(), vec!["enable", "--now", "bpm.timer", "bpm-heavy.timer"]);
    assert_eq!(systemctl(&enable_args()), "systemctl enable --now bpm.timer bpm-heavy.timer");
    assert_eq!(systemctl_failed(&vec!["daemon-reload".into()]), "systemctl daemon-reload failed");
    assert_eq!(
        missing_program("/usr/local/bin/bpm"),
        "/usr/local/bin/bpm does not exist yet; install the binary there (see scripts/install.sh)"
    );
    assert_eq!(missing_root("/x"), "root /x does not exist; skipped");
    assert_eq!(
        plain_root("/x"),
        "/x is not a subvolume root: projects can still be managed, but container snapshots are disabled"
    );
    let i = store_info("/space", Uuid([1; 16]), "0.1.0", NOW);
    assert_eq!((i.format, i.root.as_str(), i.created, i.bpm_version.as_str()), (1, "/space", NOW, "0.1.0"));
}

#[test]
fn snapper_step_by_step() {
    assert_eq!(check_start(true, false, false), Ok(()));
    assert_eq!(check_start(true, true, true), Ok(()));
    assert_eq!(check_start(false, false, false), Err(BpmError::Refused("run `bpm setup` first".into())));
    assert_eq!(
        check_start(true, true, false),
        Err(BpmError::Refused("--delete-snapper deletes snapper's snapshots of this root; add --yes".into()))
    );
    assert_eq!(
        snapper(&stop_args("space")),
        "snapper -c space set-config TIMELINE_CREATE=no TIMELINE_CLEANUP=no NUMBER_CLEANUP=no"
    );
    assert_eq!(delete_args("space", &vec![3, 10]), vec!["-c", "space", "delete", "3", "10"]);
    assert_eq!(
        deletion_calls("space", &vec![3, 10]),
        vec![vec!["-c", "space", "delete", "3", "10"], vec!["-c", "space", "delete-config"]]
    );
    assert_eq!(deletion_calls("space", &vec![]), vec![vec!["-c", "space", "delete-config"]]);
    assert_eq!(by_number(&vec![10, 2, 3]), vec![1, 2, 0]);
    assert_eq!(import_step(5, 9), "import snapper #5 as container snapshot #9");
    assert_eq!(foreign_message(5, "/space"), "snapper snapshot 5 is not a snapshot of /space; left alone");
    let origin = Origin { bpm: "0.1.0".into(), user: "ada".into(), argv: "bpm".into() };
    let m = import_meta(9, "space", 5, "before upgrade", &live(50, 60), origin, NOW);
    assert_eq!((m.id, m.kind, m.project.as_str(), m.hold), (9, SnapshotKind::Import, CONTAINER, true));
    assert_eq!((m.reason.as_str(), m.hold_note.as_str()), ("snapper space #5 before upgrade", "imported from snapper"));
    assert_eq!((m.created, m.source_uuid.is_nil()), (Timestamp { ns: 77 }, true));
}

#[test]
fn holding_and_releasing_in_words() {
    let mut m = snap(3);
    assert!(hold(&mut m, true, "", "ada"));
    assert!(m.hold);
    assert!(!hold(&mut m, true, "again", "ada"));
    assert!(hold(&mut m, false, "", "ada"));
    assert_eq!(hold_text("demo", &vec![3, 4], true), "demo: #3 held\ndemo: #4 held");
    assert_eq!(hold_text("demo", &vec![3], false), "demo: #3 released");
}

#[test]
fn unfreezing_needs_a_counted_current_snapshot() {
    let mut snaps = vec![snap(1), snap(2)];
    assert_eq!(unfreeze(None, &snaps), UnfreezeStep::Nothing);
    assert_eq!(unfreeze(Some(&live(102, 202)), &snaps), UnfreezeStep::Count(1));
    assert_eq!(unfreeze(Some(&live(103, 203)), &snaps), UnfreezeStep::Take);
    assert_eq!(unfreeze(Some(&live(102, 202)), &vec![]), UnfreezeStep::Take);
    snaps[1].stats = Some(TreeStats::empty());
    assert_eq!(unfreeze(Some(&live(102, 202)), &snaps), UnfreezeStep::Nothing);
    let o = unfreeze_snapshot(secs(20));
    assert_eq!((o.kind, o.reason.as_str()), (SnapshotKind::Auto, "unfreeze: new shrink-guard reference"));
    assert_eq!(frozen_text("demo"), "demo: frozen; no snapshot older than now will be deleted automatically");
    let was = Frozen { since: NOW, reasons: vec!["a".into(), "b".into()], trigger_snap: None, ref_snap: None };
    let head = "demo: unfrozen (was: a; b). The current state is the new shrink-guard reference.";
    assert_eq!(unfreeze_message("demo", &was, &vec![], &vec![]), head);
    assert_eq!(unfreeze_message("demo", &was, &vec![1, 2], &vec![3]), format!("{head}\n  released: #1 #2"));
    assert_eq!(
        unfreeze_message("demo", &was, &vec![], &vec![3, 4]),
        format!("{head}\n  still held: #3 #4 (release with `bpm unhold demo <id>` or --release-holds)")
    );
}

#[test]
fn forgetting_in_words() {
    assert_eq!(
        bad_selector("x"),
        BpmError::Usage("\"x\" is not a snapshot selector; --container takes only snapshot ids".into())
    );
    for name in ["project.toml", "state.toml", "FROZEN", "op.journal"] {
        assert!(is_own_file(name));
    }
    assert!(!is_own_file("lock") && !is_own_file("3"));
    assert_eq!(forget_warning("/p", false, Stage::Active), None);
    assert_eq!(forget_warning("/p", true, Stage::Archived), None);
    assert!(forget_warning("/p", true, Stage::Active).unwrap().starts_with("/p still exists; after `forget` "));
    assert_eq!(check_emptied("/u", 0, 0, 0), Ok(()));
    for (a, b, c) in [(1, 0, 0), (0, 1, 0), (0, 0, 1)] {
        assert_eq!(
            check_emptied("/u", a, b, c),
            Err(BpmError::Refused(
                "/u still contains snapshots or in-progress snapshots; inspect with `bpm doctor`".into()
            ))
        );
    }
    assert_eq!(not_empty("/u", "busy"), BpmError::Refused("/u is not empty after forget (busy); inspect it".into()));
    assert_eq!(forgotten_text("demo", 2), "demo: removed from the store (2 snapshots deleted)");
}

#[test]
fn hooks_on_demand() {
    let events = all_events();
    assert_eq!(events.len(), 16);
    for e in events {
        assert_eq!(e.can_veto(), e.as_str().starts_with("pre-"));
    }
    let h = run_hook(&pref());
    assert_eq!((h.owner, h.reason.as_str()), (Some((1000, 1001)), "bpm hooks run"));
    assert_eq!(ran_text(HookEvent::PreAdopt, "demo"), "pre-adopt hooks for demo ran successfully");
    let stat = |is_file: bool, mode: u32, uid: u32| Ok(HookStat { is_file, mode, uid });
    assert_eq!(check_file(&stat(true, 0o755, 0), 0), Ok(()));
    for (s, why) in [
        (Err("gone".to_string()), "gone"),
        (stat(false, 0o755, 0), "not a regular file"),
        (stat(true, 0o644, 0), "not executable"),
        (stat(true, 0o775, 0), "writable by group or others"),
        (stat(true, 0o4755, 0), "setuid/setgid"),
        (stat(true, 0o755, 7), "owned by uid 7 (expected 0)"),
    ] {
        assert_eq!(check_file(&s, 0), Err(why.to_string()));
    }
    let allow = vec!["demo".to_string()];
    assert_eq!(project_hooks_allowed("on", &vec![], "demo"), Ok(()));
    assert_eq!(project_hooks_allowed("allowlist", &allow, "demo"), Ok(()));
    assert_eq!(
        project_hooks_allowed("allowlist", &allow, "other"),
        Err("project not in global.project_hooks_allow".to_string())
    );
    assert_eq!(project_hooks_allowed("off", &allow, "demo"), Err("global.project_hooks = off".to_string()));
    let mut l = HookListing {
        event: "pre-adopt".into(),
        path: "/h".into(),
        scope: HookScope::Project,
        will_run: true,
        skip_reason: None,
    };
    assert!(matches!(hook_step(&l, "off"), HookStep::Run));
    l.will_run = false;
    assert!(matches!(hook_step(&l, "off"), HookStep::SkipQuiet));
    assert!(matches!(hook_step(&l, "allowlist"), HookStep::SkipWarn));
    l.scope = HookScope::Global;
    assert!(matches!(hook_step(&l, "off"), HookStep::SkipWarn));
}

#[test]
fn banned_paths_of_a_project() {
    let e = eff(&["target", "web/dist"]);
    assert_eq!(e.banlist_paths(), vec!["target", "web/dist"]);
    assert!(e.is_banned("web/dist") && !e.is_banned("web"));
    assert_eq!(convert_warning(&e, "target", "demo"), None);
    assert_eq!(
        convert_warning(&e, "out", "demo"),
        Some("out is not in the banlist of demo; it will be excluded from snapshots anyway".to_string())
    );
    let states = banlist_states(&e, &vec![PathState::Nested, PathState::Plain]);
    assert_eq!(states.get("target").copied(), Some(PathState::Nested));
    assert_eq!(states.get("web/dist").copied(), Some(PathState::Plain));
    let mut o = AdoptOpts { keep_build: None, force: false, verify_paths: false, require_unused: false };
    assert!(keeps_build(&o, &e));
    o.keep_build = Some(false);
    assert!(!keeps_build(&o, &e));
    let banned = e.banlist_paths();
    assert!(compares("src/a", &banned, None) && compares("src/a", &banned, Some("src")));
    assert!(compares("src/a", &banned, Some("./src")) && compares("src/a", &banned, Some(".")));
    assert!(!compares("lib/a", &banned, Some("./src")) && !compares("src/a", &banned, Some("/src")));
    assert!(path_starts_with("src/a", "src") && path_starts_with("./src/a", "./src") && path_starts_with("./a", ""));
    assert!(!path_starts_with("src/a", "./src") && !path_starts_with("./src/a", "src"));
    assert!(!compares("target/x", &banned, None) && !compares("lib/a", &banned, Some("src")));
}

#[test]
fn what_changed_since_the_newest_snapshot() {
    assert_eq!(live_changed(None, &vec![snap(1)]), None);
    assert_eq!(live_changed(Some(&live(101, 201)), &vec![snap(1)]), Some(false));
    assert_eq!(live_changed(Some(&live(102, 202)), &vec![snap(1)]), Some(true));
    assert_eq!(live_changed(Some(&live(102, 202)), &vec![]), Some(true));
    let p = pref();
    assert!(p.is_in_place(Some(Uuid([1; 16]))) && !p.is_in_place(Some(Uuid([2; 16]))) && !p.is_in_place(None));
    let east = jiff::tz::TimeZone::fixed(jiff::tz::offset(2));
    let mut state = ProjectState::new();
    state.stage_since = Some(Timestamp { ns: 0 });
    state.last_change_at = Some(NOW);
    let of = |live: Option<&SubvolInfo>, state: ProjectState| {
        let (e, nested) = (eff(&["target"]), vec!["target".to_string(), "sub".to_string()]);
        let states = vec![PathState::Nested];
        gather(&p, &e, state, &vec![snap(1), snap(2)], live, &states, &nested, "1 KB".into(), &east, NOW)
    };
    let d = of(Some(&live(102, 202)), state);
    assert_eq!((d.name.as_str(), d.path.as_str(), d.snapshots), ("demo", "/space/demo", 2));
    assert_eq!((d.live_ctransid, d.changed_since_newest), (Some(102), Some(false)));
    assert_eq!(d.unprotected_nested, vec!["sub"]);
    assert_eq!(d.snapshots_by_kind.get("auto").copied(), Some(2));
    assert_eq!(d.banlist.get("target").copied(), Some(PathState::Nested));
    assert_eq!((d.stage_since.as_str(), d.last_error.as_str(), d.now), ("1970-01-01 02:00", "", NOW));
    assert_eq!((d.last_change.as_str(), d.ref_bytes.as_str()), ("2027-01-15 10:00", "1 KB"));
    let mut other = live(102, 202);
    other.uuid = Uuid([2; 16]);
    for d in [of(None, ProjectState::new()), of(Some(&other), ProjectState::new())] {
        assert_eq!((d.live_ctransid, d.changed_since_newest), (None, None));
        assert!(d.unprotected_nested.is_empty());
    }
    assert_eq!(newest_at(&vec![snap(1), snap(3), snap(2)]), Some(1));
    assert_eq!(newest_at(&vec![]), None);
    assert_eq!(pre_message("demo", 3), "bpm: demo: pre snapshot #3");
    assert_eq!(post_message("demo", 3, 4), "bpm: demo: post snapshot #4 (compare with `bpm diff demo 3 4`)");
    let mut st = ProjectState::new();
    assert!(!is_cold(&st));
    assert_eq!(st.set_stage(Stage::Cold, NOW), Some((Stage::Active, Stage::Cold)));
    assert_eq!(st.set_stage(Stage::Cold, NOW), None);
    assert!(is_cold(&st));
    let mut g = GlobalCfg::new();
    g.lock_timeout = secs(9);
    assert_eq!((lock_timeout(&g, None), lock_timeout(&g, Some(secs(1)))), (secs(9), secs(1)));
}

#[test]
fn names_and_paths_of_projects() {
    let ignore = vec!["tmp".to_string()];
    let class = |n: &str| classify_name(n, &ignore);
    assert!(matches!(class(".git"), NameClass::Hidden));
    assert!(matches!(class("a.bpm-tmp"), NameClass::Leftover));
    assert!(matches!(class("tmp"), NameClass::Ignored));
    assert!(matches!(class("demo"), NameClass::Look));
    assert!(names_path("./demo") && names_path("..") && names_path(".") && !names_path("demo"));
    let roots = vec![RootCfg::adhoc("/space".into()), RootCfg::adhoc("/work".into())];
    assert_eq!(resolve_path(&roots, "x", Some("/work/demo/src")), Ok((1, "demo".to_string())));
    let outside = Err(BpmError::Usage("./x is not inside a configured root".into()));
    assert_eq!(resolve_path(&roots, "./x", Some("/home/x")), outside);
    assert_eq!(resolve_path(&roots, "./x", None), outside);
    let at = || (RootCfg::adhoc("/space".into()), Store::new("/space", ".bpm", false));
    let (root, store) = at();
    let found = resolve_in(root, store, "demo", Some(record())).ok().unwrap();
    assert_eq!((found.path(), found.unit.name.as_str()), ("/space/demo", "demo"));
    assert_eq!(found.unit.dir, format!("{}/projects/demo", found.store.dir));
    let (root, store) = at();
    assert_eq!(
        resolve_in(root, store, "demo", None).err(),
        Some(BpmError::NotFound("project \"demo\" is not managed under /space".into()))
    );
}

#[test]
fn paths_in_the_store() {
    let s = Store::new("/space", ".bpm", false);
    assert_eq!(s.projects_dir(), "/space/.bpm/projects");
    assert_eq!((s.tmp_dir(), s.lock_path()), ("/space/.bpm/tmp".to_string(), "/space/.bpm/lock".to_string()));
    let u = s.unit("demo");
    let at = |p: &str| format!("/space/.bpm/projects/demo/{p}");
    assert_eq!((u.record_path(), u.state_path()), (at("project.toml"), at("state.toml")));
    assert_eq!((u.frozen_marker(), u.lock_path()), (at("FROZEN"), at("lock")));
    assert_eq!((u.snapshot_dir(7), u.snapshot_path(7), u.meta_path(7)), (at("7"), at("7/snapshot"), at("7/meta.toml")));
    assert_eq!(path_in(&u.dir), at("op.journal"));
    assert_eq!(classify("12"), EntryClass::Id(12));
    assert_eq!(classify("12.tmp"), EntryClass::Tmp);
    assert_eq!(classify("state.toml"), EntryClass::Other);
    let units = vec![(s.unit("b"), record()), (s.unit("a"), record())];
    let sorted = sort_units(units);
    assert_eq!(sorted.iter().map(|(u, _)| u.name.as_str()).collect::<Vec<_>>(), vec!["a", "b"]);
    assert_eq!(SnapshotKind::Import.class(), KindClass::Keep);
    assert_eq!(SnapshotKind::Pre.class(), KindClass::Safety);
    assert_eq!(hex_string(&[0, 0xab, 0x1f]), "00ab1f");
}

#[test]
fn defaults_of_a_configuration() {
    assert_eq!(default_adopt(), AdoptMode::Manual);
    assert_eq!(default_adopt_min_age(), secs(900));
    assert!(is_policy_key("shrink_guard") && !is_policy_key("sudo"));
    assert_eq!(parse_context("/etc/x"), "parse /etc/x");
    assert_eq!(validate_context("/etc/x"), "validate /etc/x");
    let mut g = GlobalCfg::new();
    g.destructive_patterns = vec!["a+".into(), "(".into()];
    assert!(g.destructive_regexes().unwrap_err().starts_with("destructive_patterns \"(\": "));
    g.destructive_patterns.pop();
    assert_eq!(g.destructive_regexes(), Ok(()));
}
