use bpm::btrfs::{SubvolInfo, Uuid};
use bpm::config::schema::{ContainerCfg, GlobalCfg, RootCfg};
use bpm::error::BpmError;
use bpm::hooks::{
    env_for, hook_cwd, hook_failed, hook_home, hook_outcome, list as list_hooks, HookCtx, HookEvent, HookExit, HookFile,
    HookListing, HookScope, HookStat, WaitStep, runs_as, wait_step,
};
use bpm::mechanics::adopt::AdoptReport;
use bpm::mechanics::recompress::RecompressReport;
use bpm::ops::diff::{compare, run as diff_text, Show};
use bpm::ops::doctor::{
    check_claude_hook, check_kernel, check_root_leftovers, check_snap_sudo, claude_settings,
    kernel_version, run as doctor_text, snapper_config, Agent, Doc, LeftFacts, LeftFix,
};
use bpm::ops::freeze::{accept_current, freeze, release_holds, thaw};
use bpm::ops::list::{row, run as list_text, select, ListFilter};
use bpm::ops::migrate::{check_delete, description, import_next, run as migrate_text, snapper_root, ImportStep};
use bpm::ops::restore::{restore, restore_selector, settle_freeze, RestoreKind};
use bpm::ops::rm::{blockers, forget, frozen_gate, removal, selectors as rm_selectors, unknown_entries, Removal};
use bpm::ops::setup::{
    fill, first_steps, run as setup_text, store_actions, store_text, unit_calls, writable,
    write_if_changed, SetupFacts, StoreAction, StoreFacts,
};
use bpm::ops::snap::{
    claude_hook, default_reason, hook_args, hook_request, lexical_normalize, paths_in_command,
    projects_in_command, results_text, snap_kind, throttled, truncate, unchanged, SnapResult,
};
use bpm::ops::status::{
    detail, rows, run as status_text, snapshots_by_kind, Detail, PathState, RootReport, RowFacts,
};
use bpm::ops::tick::{
    container_due, handle_missing, heavy_gate, is_stale, next_adoption, next_heavy, note_moved,
    relink_renamed, run_summary, tick_root, Heavy, Relink, RelinkTarget, RootStart, RootTick,
};
use bpm::ops::wrap::{snap_id, spawn_snap, wrap_reason};
use bpm::ops::{adopt, ended, hooks_cmd, project_of, recompress, select_at};
use bpm::project::{discover, locate_path, resolve_name, DirStat, EntryFact, Leftover};
use bpm::store::{Frozen, ProjectRecord, ProjectState, SnapshotKind, SnapshotMeta, Stage, Store};
use bpm::util::strmap::StrMap;
use bpm::util::time::{Duration, Timestamp};
use bpm::util::walk::{EntryInfo, EntryKind, TreeStats};

const NOW: Timestamp = Timestamp { ns: 1_800_000_000_000_000_000 };

fn before(secs: i128) -> Timestamp {
    Timestamp { ns: NOW.ns - secs * 1_000_000_000 }
}

fn live(ctransid: u64, generation: u64) -> SubvolInfo {
    SubvolInfo {
        id: 300,
        name: "p".into(),
        parent_id: 5,
        generation,
        flags: 0,
        uuid: Uuid([1; 16]),
        parent_uuid: None,
        received_uuid: None,
        ctransid,
        otransid: 10,
        ctime: None,
        otime: None,
    }
}

fn roots() -> Vec<RootCfg> {
    vec![RootCfg::adhoc("/space".into()), RootCfg::adhoc("/work".into())]
}

fn record(name: &str) -> ProjectRecord {
    ProjectRecord::new(name, &format!("/space/{name}"), Uuid([1; 16]), 1000, 1000, before(86400))
}

#[test]
fn compare_detects_changes() {
    let f = |size, m| EntryInfo { kind: EntryKind::File, size, mtime_ns: m, mode: 0o644 };
    let mut a = StrMap::new();
    a.insert("same".to_string(), f(1, 1));
    a.insert("gone".to_string(), f(1, 1));
    a.insert("edited".to_string(), f(1, 1));
    let mut b = StrMap::new();
    b.insert("same".to_string(), f(1, 1));
    b.insert("edited".to_string(), f(2, 2));
    b.insert("new".to_string(), f(3, 3));
    let c = compare(&a, &b);
    let ops: Vec<(char, &str)> = c.iter().map(|x| (x.op, x.path.as_str())).collect();
    assert_eq!(ops, vec![('M', "edited"), ('D', "gone"), ('A', "new")]);
    let back: Vec<char> = compare(&b, &a).iter().map(|x| x.op).collect();
    assert_eq!(back, vec!['M', 'A', 'D']);
    assert!(diff_text(&c, 3, "live", Show::NameOnly).contains("edited"));
}

#[test]
fn normalize_and_truncate() {
    assert_eq!(lexical_normalize("/space/a/../b/./c"), "/space/b/c");
    assert_eq!(truncate("rm  -rf\n build", 100), "rm -rf build");
    assert_eq!(truncate("abcdef", 3), "abc…");
    for p in ["/space/a/../b/./c", "/../a", "a/../../b", "..", ""] {
        let once = lexical_normalize(p);
        assert_eq!(lexical_normalize(&once), once);
        assert!(!once.split('/').any(|s| s == "." || s == ".."));
    }
    assert_eq!(lexical_normalize("/../a"), "/a");
    for (s, n) in [("abcdef", 3), ("a  b \tc", 3), ("", 0), ("abc", 3)] {
        let once = truncate(s, n);
        assert!(once.chars().count() <= n + 1);
        assert_eq!(truncate(&once, n), once);
    }
}

#[test]
fn commands_name_the_projects_they_touch() {
    let r = roots();
    let at = paths_in_command("/space/demo/src", "rm -rf ../../other/x '/work/third' > /tmp/log");
    assert_eq!(at, ["/space/demo/src", "/space/other/x", "/work/third", "/tmp/log"]);
    let v = projects_in_command(&r, &at.iter().map(|p| Some(p.clone())).collect());
    let names: Vec<(usize, &str)> = v.iter().map(|x| (x.0, x.1.as_str())).collect();
    assert!(names.contains(&(0, "demo")));
    assert!(names.contains(&(0, "other")));
    assert!(names.contains(&(1, "third")));
    // a link into another project, and one that leads nowhere
    let v = projects_in_command(&r, &vec![Some("/work/third/x".into()), None]);
    assert_eq!(v, vec![(1, "third".to_string())]);
}

#[test]
fn hook_requests_are_read_from_json() {
    let (cwd, cmd) = hook_request(r#"{"cwd":"/space/x","tool_input":{"command":"rm -rf y"}}"#, "/here");
    assert_eq!((cwd.as_str(), cmd.as_str()), ("/space/x", "rm -rf y"));
    let (cwd, cmd) = hook_request("not json", "/here");
    assert_eq!((cwd.as_str(), cmd.as_str()), ("/here", ""));
    let mut g = GlobalCfg::new();
    g.destructive_patterns = vec![r"\brm\b".into()];
    assert_eq!(claude_hook("helper", &g, "rm x"), Ok((true, "helper (destructive): rm x".into())));
    assert_eq!(claude_hook("helper", &g, "ls"), Ok((false, "helper: ls".into())));
    g.destructive_patterns = vec!["(".into()];
    assert!(claude_hook("helper", &g, "ls").is_err());
}

#[test]
fn hooks_snapshot_with_a_throttle() {
    let a = hook_args("demo", "/space", "why", false, Duration::from_secs(90));
    assert_eq!(&a[a.len() - 2..], ["--throttle".to_string(), "1m 30s".to_string()]);
    let a = hook_args("demo", "/space", "why", true, Duration::from_secs(90));
    assert!(!a.contains(&"--throttle".to_string()));
}

#[test]
fn snapshots_are_skipped_for_a_reason() {
    let mut m = SnapshotMeta::sample(1, "p");
    m.created = before(100);
    let snaps = vec![m];
    assert!(throttled(Some(Duration::from_secs(101)), &snaps, NOW));
    assert!(!throttled(Some(Duration::from_secs(100)), &snaps, NOW));
    assert!(!throttled(None, &snaps, NOW));
    assert!(unchanged(Some(&live(101, 201)), &snaps));
    assert!(!unchanged(Some(&live(102, 201)), &snaps));
    assert!(matches!(snap_kind("nonsense"), Err(BpmError::Usage(_))));
    assert_eq!(snap_kind("manual").unwrap(), SnapshotKind::Manual);
    assert_eq!(default_reason("why", SnapshotKind::Manual, "ada"), "why");
    let r = SnapResult { project: "demo".into(), id: Some(4), kind: "manual".into(), skipped: None };
    assert!(results_text(&vec![r]).contains("demo"));
}

#[test]
fn selectors_of_a_frozen_project() {
    let snaps: Vec<SnapshotMeta> = (1..=4).map(|i| SnapshotMeta::sample(i, "p")).collect();
    assert_eq!(select_at("held", None, &snaps, Some(2)).unwrap().id, 2);
    assert!(select_at("held", None, &snaps, None).is_err());
    assert_eq!(select_at("latest", None, &snaps, Some(2)).unwrap().id, 4);
}

#[test]
fn projects_are_found_by_path_and_name() {
    let r = roots();
    assert_eq!(locate_path(&r, "/work/a/b"), Some((1, "a".into())));
    assert_eq!(locate_path(&r, "/work"), None);
    assert_eq!(project_of(&r, "/space/demo/src").unwrap().1, "demo");
    assert!(matches!(project_of(&r, "/tmp"), Err(BpmError::Usage(_))));
    assert_eq!(resolve_name("demo", &vec![1]), Ok(1));
    assert!(matches!(resolve_name("demo", &vec![]), Err(BpmError::NotFound(_))));
    assert!(resolve_name("demo", &vec![0, 1]).is_err());
}

#[test]
fn entries_of_a_root_are_told_apart() {
    let dir = |name: &str, sub: Option<SubvolInfo>| EntryFact {
        name: name.into(),
        path: format!("/space/{name}"),
        stat: Some(DirStat { is_dir: true, mount: false }),
        subvol: sub,
    };
    let store = Store::new("/space", ".bpm", false);
    let recs = vec![(store.unit("demo"), record("demo")), (store.unit("lost"), {
        let mut r = record("lost");
        r.uuid = Uuid([9; 16]);
        r
    })];
    let mut other = live(1, 1);
    other.uuid = Uuid([7; 16]);
    let d = discover(
        vec![
            dir(".bpm", None),
            dir("demo", Some(live(1, 1))),
            dir("plain", None),
            dir("foreign", Some(other)),
            dir("x.bpm-old", None),
            dir("skipme", None),
        ],
        &vec!["skipme".into()],
        &recs,
    );
    assert_eq!(d.managed.len(), 1);
    assert_eq!(d.unadopted[0].name, "plain");
    assert_eq!(d.foreign_subvols[0].name, "foreign");
    assert_eq!(d.ignored, vec!["skipme"]);
    assert_eq!(d.leftovers, vec!["/space/x.bpm-old"]);
    assert_eq!(d.missing, vec![1]);
    assert_eq!(adopt::all_of(&d), vec!["plain", "foreign"]);
}

#[test]
fn adopting_by_name_or_path() {
    let r = roots();
    assert_eq!(adopt::target("/work/x", Some("/work/x"), &r, &vec![false, false]).unwrap(), (1, "x".into()));
    assert_eq!(adopt::target("x", None, &r, &vec![false, true]).unwrap(), (1, "x".into()));
    match adopt::target("x", None, &r, &vec![false, false]) {
        Err(BpmError::Usage(m)) => assert_eq!(m, "x not found in any root; pass --root"),
        _ => panic!("there is no such directory"),
    }
    assert_eq!(adopt::target("link/x", Some("/space/x"), &r, &vec![false, false]).unwrap(), (0, "x".into()));
    match adopt::target("/tmp/x", Some("/tmp/x"), &r, &vec![false, false]) {
        Err(BpmError::Usage(m)) => assert_eq!(m, "/tmp/x is not inside a configured root"),
        _ => panic!("it is in no root"),
    }
    assert!(adopt::check_todo(0).is_err());
    assert_eq!(adopt::options(true, false, false).keep_build, Some(false));
    assert_eq!(adopt::options(false, false, false).keep_build, None);
    assert!(matches!(adopt::convert_path("../x"), Err(BpmError::Usage(_))));
    let rep = AdoptReport {
        name: "demo".into(),
        path: "/space/demo".into(),
        converted: true,
        files: 3,
        bytes: 10,
        nested: vec!["target".into()],
        snapshot: 1,
        stage: "active".into(),
        leftover: None,
    };
    assert_eq!(
        adopt::run(&rep, "10 B"),
        "demo: converted to subvolume (3 files, 10 B), nested: [target], snapshot #1, stage active"
    );
}

#[test]
fn converted_paths_no_longer_wait() {
    let mut st = ProjectState::new();
    st.pending_convert.insert("target".into(), before(10));
    adopt::convert(&mut st, "target", &live(5, 5), &live(9, 9), NOW);
    assert!(!st.pending_convert.has("target"));
    assert!(st.banlist_seen.has("target"));
    assert_eq!(adopt::converted_text("demo", "target"), "demo: target is now a nested subvolume");
}

#[test]
fn recompression_reports() {
    let mut r = RecompressReport::new(9);
    r.skipped = Some("frozen".into());
    assert_eq!(recompress::run("demo", &r), "demo: skipped: frozen");
    r.done = true;
    r.new_snapshot = Some(7);
    assert_eq!(recompress::run("demo", &r), "demo: recompressed at zstd:9 (snapshot #7)");
    assert!(recompress::check_targets(0).is_err());
    assert_eq!(recompress::level(None, 9), 9);
    assert_eq!(recompress::level(Some(3), 9), 3);
    assert!(ended(0).is_ok());
    assert_eq!(ended(2), Err(BpmError::Partial { failed: 2 }));
}

#[test]
fn setup_steps() {
    let f = SetupFacts {
        cfg_path: "/etc/bpm/config.toml".into(),
        cfg_exists: false,
        cfg_is_default: false,
        force_config: false,
        hooks_dir: "/etc/bpm/hooks".into(),
        hooks_dir_exists: false,
    };
    assert_eq!(first_steps(&f), vec!["write /etc/bpm/config.toml", "create /etc/bpm/hooks"]);
    let f = SetupFacts { cfg_exists: true, hooks_dir_exists: true, ..f };
    assert!(first_steps(&f).is_empty());
    let s = StoreFacts {
        dir: "/space/.bpm".into(),
        dir_exists: false,
        is_subvolume: false,
        initialized: false,
        info_path: "/space/.bpm/store.json".into(),
    };
    let v = store_actions(&s, false).unwrap();
    assert_eq!(v.len(), 2);
    assert_eq!(store_text(&s, &v[0]), "create store subvolume /space/.bpm");
    assert_eq!(store_text(&s, &v[1]), "initialize /space/.bpm/store.json");
    assert!(matches!(store_actions(&s, true).unwrap().as_slice(), [StoreAction::Create]));
    let s = StoreFacts { dir_exists: true, ..s };
    assert_eq!(
        store_actions(&s, false).err().unwrap(),
        "/space/.bpm exists but is not a subvolume; move it away and rerun setup"
    );
    let rw = writable(&vec![("/space".into(), true), ("/gone".into(), false)], Some("/var"));
    assert_eq!(rw, vec!["/space", "-/var"]);
    assert_eq!(
        fill("ExecStart=@BIN@ --config @CFG@\nReadWritePaths=@RW@", "/b", &rw, "/c"),
        "ExecStart=/b --config /c\nReadWritePaths=/space -/var"
    );
    assert_eq!(unit_calls(true, true), vec![vec!["daemon-reload"]]);
    assert_eq!(unit_calls(false, false), vec![vec!["enable", "--now", "bpm.timer", "bpm-heavy.timer"]]);
    assert!(!write_if_changed(Some("a"), "a"));
    assert!(write_if_changed(Some("b"), "a") && write_if_changed(None, "a"));
    assert!(setup_text(&vec![], "helper").starts_with("already set up\n\nnext:\n"));
    assert!(setup_text(&vec![], "helper").ends_with("bpm setup --print-helper-hook"));
}

#[test]
fn hook_files_that_run_and_that_do_not() {
    let file = |uid, mode| HookFile {
        name: "10-x".into(),
        path: "/etc/bpm/hooks/post-snapshot.d/10-x".into(),
        stat: Ok(HookStat { is_file: true, mode, uid }),
    };
    let l = list_hooks(
        HookEvent::PostSnapshot,
        &vec![file(0, 0o755), file(1000, 0o755), file(0, 0o644), file(0, 0o777)],
        0,
        &vec![],
        None,
        "off",
        &vec![],
    );
    let runs: Vec<bool> = l.iter().map(|x| x.will_run).collect();
    assert_eq!(runs, vec![true, false, false, false]);
    let text = hooks_cmd::list_text(&l, "/etc/bpm/hooks");
    assert!(text.starts_with("EVENT"));
    assert!(hooks_cmd::list_text(&vec![], "/h")
        .starts_with("no hooks installed (global dir /h; events: pre-snapshot, post-snapshot, pre-delete, "));
    assert_eq!(hooks_cmd::all_names().len(), 16);
    match hooks_cmd::parse_event("no\"pe") {
        Err(BpmError::Usage(m)) => assert_eq!(m, r#"unknown event "no\"pe""#),
        _ => panic!("there is no such event"),
    }
}

#[test]
fn hooks_are_told_what_happens() {
    let h = HookCtx {
        project: Some("demo".into()),
        project_path: Some("/space/demo".into()),
        owner: Some((1000, 1000)),
        root: Some("/space".into()),
        snapshot: Some((4, "/space/.bpm/projects/demo/4/snapshot".into(), SnapshotKind::Auto)),
        stage: None,
        reason: "why".into(),
        extra: vec![],
    };
    let env = env_for(HookEvent::PostSnapshot, &h, HookScope::Global, false, "ada");
    assert_eq!(env.get("BPM_PROJECT").unwrap(), "demo");
    assert!(env.entries().iter().all(|e| !e.1.is_empty() || e.0.starts_with("BPM_")));
    let owner = Some((1000, 100));
    assert_eq!(runs_as(HookScope::Project, owner), owner);
    assert_eq!((runs_as(HookScope::Global, owner), runs_as(HookScope::Project, None)), (None, None));
    assert_eq!(hook_cwd(Some("/space/demo"), Some("/space")), "/space/demo");
    assert_eq!((hook_cwd(None, Some("/space")), hook_cwd(None, None)), ("/space".into(), "/".into()));
    assert_eq!((hook_home(owner), hook_home(None)), ("/tmp".into(), "/root".into()));
    let (s, ms) = (Duration::from_secs, |n: u128| Duration { ns: n * 1_000_000 });
    assert_eq!(wait_step(true, s(99), s(60), None), WaitStep::Done);
    assert_eq!(wait_step(false, s(60), s(60), None), WaitStep::Sleep(ms(20)));
    assert_eq!(wait_step(false, ms(60_001), s(60), None), WaitStep::Stop);
    assert_eq!(wait_step(false, s(61), s(60), Some(ms(4999))), WaitStep::Sleep(ms(50)));
    assert_eq!(wait_step(false, s(65), s(60), Some(s(5))), WaitStep::Kill);
    assert_eq!(wait_step(true, s(61), s(60), Some(s(1))), WaitStep::Kill);
    assert!(hook_outcome(HookExit::Code(0), Duration::from_secs(5), "").is_ok());
    assert!(hook_outcome(HookExit::TimedOut, Duration::from_secs(90), "").unwrap_err().contains("1m 30s"));
    assert!(hook_outcome(HookExit::Code(3), Duration::from_secs(5), "no").is_err());
    assert!(matches!(
        hook_failed(HookEvent::PreSnapshot, "/h", "d"),
        Err(BpmError::HookVeto { .. })
    ));
    assert!(hook_failed(HookEvent::PostSnapshot, "/h", "d").is_ok());
    let l = HookListing {
        event: "e".into(),
        path: "/p".into(),
        scope: HookScope::Project,
        will_run: false,
        skip_reason: None,
    };
    assert_eq!(l.scope.as_str(), "project");
}

#[test]
fn listed_snapshots() {
    let mut snaps: Vec<SnapshotMeta> = (1..=5).map(|i| SnapshotMeta::sample(i, "p")).collect();
    snaps[1].hold = true;
    snaps[1].hold_note = "keep".into();
    snaps[3].kind = SnapshotKind::Manual;
    let all = ListFilter { kind: None, held: false, limit: Some(2) };
    assert_eq!(select(&snaps, &all), vec![3, 4]);
    let held = ListFilter { kind: None, held: true, limit: None };
    assert_eq!(select(&snaps, &held), vec![1]);
    let manual = ListFilter { kind: Some("manual".into()), held: false, limit: None };
    assert_eq!(select(&snaps, &manual), vec![3]);
    let east = jiff::tz::TimeZone::fixed(jiff::tz::offset(2));
    assert_eq!(row(&snaps[1], &east, "1 KB"), vec!["2", "2026-09-10 02:28", "auto", "held", "-", "-", " [keep]"]);
    assert_eq!(list_text("p", "/d", vec![]), "p: no snapshots");
}

fn frozen() -> Frozen {
    Frozen { since: before(50), reasons: vec!["lost".into()], trigger_snap: Some(3), ref_snap: Some(2) }
}

#[test]
fn freezing_and_thawing() {
    let snaps = vec![SnapshotMeta::sample(1, "p")];
    let mut st = ProjectState::new();
    freeze(&mut st, "demo", "why", &snaps, NOW).unwrap();
    assert_eq!(st.frozen.as_ref().unwrap().reasons, vec!["why"]);
    assert!(freeze(&mut st, "demo", "again", &snaps, NOW).is_err());
    assert_eq!(thaw(&mut st, "demo").unwrap().reasons, vec!["why"]);
    assert!(st.frozen.is_none());
    assert!(thaw(&mut st, "demo").is_err());
}

#[test]
fn accepting_needs_counts() {
    let mut st = ProjectState::new();
    let mut snaps = vec![SnapshotMeta::sample(1, "p")];
    assert!(accept_current(&mut st, &snaps, "demo").is_some());
    snaps[0].stats = Some(TreeStats { files: 7, complete: true, ..TreeStats::empty() });
    accept_current(&mut st, &snaps, "demo");
    assert_eq!(st.ref_stats.unwrap().files, 7);
}

#[test]
fn holds_of_the_guard_are_released() {
    let mut snaps: Vec<SnapshotMeta> = (1..=2).map(|i| SnapshotMeta::sample(i, "p")).collect();
    snaps[0].hold = true;
    snaps[0].hold_note = "mine".into();
    let released = release_holds(&mut snaps);
    assert!(released.is_empty());
    assert!(snaps[0].hold);
}

#[test]
fn deleting_is_guarded() {
    let f = frozen();
    let mut m = SnapshotMeta::sample(1, "p");
    m.created = before(100);
    assert!(frozen_gate(Some(&f), &m, false).is_some());
    assert!(frozen_gate(Some(&f), &m, true).is_none());
    assert!(frozen_gate(None, &m, false).is_none());
    assert!(rm_selectors(false, None, &vec![]).is_err());
    assert_eq!(rm_selectors(true, Some("1"), &vec!["2".into()]).unwrap(), vec!["1", "2"]);
}

#[test]
fn forgetting_needs_consent() {
    assert!(forget("demo", "/d", &vec![], 0, false, true).is_ok());
    assert!(forget("demo", "/d", &vec![], 3, false, true).is_err());
    assert!(forget("demo", "/d", &vec![], 3, true, false).is_err());
    assert!(forget("demo", "/d", &vec![], 3, true, true).is_ok());
    assert!(forget("demo", "/d", &vec!["x".into()], 0, true, true).is_err());
    assert!(blockers(&vec![], &vec![], &vec![]).is_empty());
    assert_eq!(unknown_entries(&vec![("notes.txt".into(), false)]), vec!["notes.txt"]);
    assert!(matches!(removal("notes.txt", false, false), Removal::Leave));
}

#[test]
fn restoring_asks_what() {
    assert!(matches!(restore(true, &vec![]), Ok(RestoreKind::Recreate)));
    assert!(matches!(restore(false, &vec!["a".into()]), Ok(RestoreKind::Paths)));
    assert!(restore(false, &vec![]).is_err());
    assert_eq!(restore_selector(None), "latest");
    assert_eq!(restore_selector(Some("3")), "3");
    let mut st = ProjectState::new();
    st.frozen = Some(frozen());
    let mut post = SnapshotMeta::sample(9, "p");
    post.stats = Some(TreeStats { files: 7, complete: true, ..TreeStats::empty() });
    assert!(!settle_freeze(&mut st, &post, false));
    assert!(st.frozen.is_some());
    assert!(settle_freeze(&mut st, &post, true));
    assert!(st.frozen.is_none());
}

#[test]
fn doctors_report() {
    assert_eq!(kernel_version("6.8.0-31-generic"), Some((6, 8)));
    assert_eq!(kernel_version("x"), None);
    let agent = Agent { name: "helper".into(), title: "Helper".into(), product: "Helper Pro".into() };
    let mut d = Doc::new(false, false);
    check_kernel(&mut d, Some((6, 8)));
    check_snap_sudo(&mut d, &agent, false);
    let path = claude_settings(&agent, "ada", "/root");
    assert_eq!(path, "/home/ada/.helper/settings.json");
    assert_eq!(claude_settings(&agent, "root", "/root"), "/root/.helper/settings.json");
    check_claude_hook(&mut d, &agent, &path, Some("bpm snap --helper-hook"));
    check_claude_hook(&mut d, &agent, &path, Some("{}"));
    check_claude_hook(&mut d, &agent, &path, None);
    let n = d.out.len();
    assert_eq!(d.out[n - 1].what, "no bpm hook in /home/ada/.helper/settings.json (see `bpm setup --print-helper-hook`)");
    assert_eq!(d.out[n - 2].what, "Helper Pro hook configured in /home/ada/.helper/settings.json");
    assert!(doctor_text(&d).contains("Helper Pro hook"));
    let mut d = Doc::new(true, false);
    d.fixable("warn", "w".into(), "f".into(), Ok(()));
    d.fixable("warn", "w".into(), "f".into(), Err("no".into()));
    assert!(d.out[0].fixed && !d.out[1].fixed);
    assert_eq!(snapper_config("SUBVOLUME=\"/space\"\nTIMELINE_CREATE=\"yes\"\n", "/space"), Some(true));
    assert_eq!(snapper_config("SUBVOLUME=\"/home\"\n", "/space"), None);
}

#[test]
fn kept_leftovers_are_left_alone() {
    let f = LeftFacts {
        path: "/space/demo.bpm-keep-adopt-1".into(),
        orig: "/space/demo".into(),
        is_sub: true,
        orig_exists: true,
        orig_is_dir: true,
        orig_sub: true,
        registered: true,
        saved: true,
    };
    let l = Leftover::Keep { base: "demo".into(), op: "adopt".into() };
    assert!(matches!(check_root_leftovers(&l, &f).repair, LeftFix::Nothing));
    let l = Leftover::Rollback { base: "demo".into() };
    let f = LeftFacts { path: "/space/demo.bpm-rollback-1".into(), orig_exists: false, orig_is_dir: false, orig_sub: false, is_sub: false, ..f };
    assert!(matches!(check_root_leftovers(&l, &f).repair, LeftFix::RenameBack));
}

#[test]
fn ticks_go_on_where_they_can() {
    assert!(matches!(tick_root("/space", "/space/.bpm", true, None), RootStart::Go));
    assert!(matches!(tick_root("/space", "/space/.bpm", false, None), RootStart::Skip(..)));
    assert!(matches!(tick_root("/space", "/space/.bpm", true, Some("pid=1")), RootStart::Skip(..)));
    assert!(is_stale(Some(Duration::from_secs(601))));
    assert!(!is_stale(Some(Duration::from_secs(599))));
    let h = vec![
        Heavy::Recompress { name: "c".into() },
        Heavy::Adopt { name: "a".into() },
        Heavy::Collapse { name: "b".into() },
    ];
    let first = next_heavy(&h).unwrap();
    assert!(h.iter().all(|x| h[first].priority() <= x.priority()));
    assert!(next_heavy(&vec![]).is_none());
    assert!(heavy_gate(10, 20, "10 B").is_some());
    assert!(heavy_gate(20, 20, "20 B").is_none());
    assert!(!run_summary(&vec![RootTick::new("/space")], 0).is_empty());
    assert!(bpm::ops::tick::run(1).is_err());
}

#[test]
fn failed_adoptions_are_not_tried_again_at_once() {
    let names = vec!["a".to_string(), "b".to_string()];
    let mut tried = StrMap::new();
    let first = next_adoption(&names, &mut tried, NOW).unwrap();
    assert!(tried.has(&names[first]));
    let second = next_adoption(&names, &mut tried, NOW).unwrap();
    assert_ne!(first, second);
}

#[test]
fn missing_projects_keep_everything() {
    let mut st = ProjectState::new();
    let mut snaps: Vec<SnapshotMeta> = (1..=3).map(|i| SnapshotMeta::sample(i, "p")).collect();
    let held = handle_missing(&mut st, &mut snaps, NOW);
    assert_eq!(held, Some(2));
    assert!(snaps[2].hold);
    assert_eq!(st.stage, Stage::Orphaned);
    assert_eq!(st.missing_since, Some(NOW));
}

#[test]
fn moved_projects_are_reported() {
    let mut st = ProjectState::new();
    assert!(note_moved(&mut st, "demo", "/space", "/work/demo", NOW).is_some());
    assert!(note_moved(&mut st, "demo", "/space", "/work/demo", NOW).is_none());
}

#[test]
fn renamed_projects_move_in_the_store() {
    assert!(matches!(relink_renamed("demo", "demo", "/d", &RelinkTarget::Nothing), Relink::Keep));
    assert!(matches!(
        relink_renamed("new", "old", "/d", &RelinkTarget::Nothing),
        Relink::Move { aside: None }
    ));
    assert!(matches!(relink_renamed("new", "old", "/d", &RelinkTarget::NoRecord), Relink::Blocked(_)));
}

#[test]
fn the_root_is_snapshotted_in_intervals() {
    let c = ContainerCfg::new();
    let mut m = SnapshotMeta::sample(1, "@container");
    m.created = before(3600);
    let snaps = vec![m];
    assert!(!container_due(&c, &live(900, 900), &snaps, NOW));
    let late = Timestamp { ns: NOW.ns + 6 * 3600 * 1_000_000_000 };
    assert!(container_due(&c, &live(900, 900), &snaps, late));
    assert!(!container_due(&c, &live(101, 201), &snaps, late));
}

#[test]
fn snapper_is_handed_over() {
    let r = roots();
    assert_eq!(snapper_root("SUBVOLUME=\"/space\"", "space", &r).unwrap(), 0);
    assert!(snapper_root("SUBVOLUME=\"/home\"", "home", &r).is_err());
    assert_eq!(description("<x><description>a b</description></x>"), "a b");
    assert_eq!(description("<x></x>"), "");
    assert!(check_delete(&vec!["plain".into()], 0).is_err());
    assert!(check_delete(&vec!["plain".into()], 3).is_ok());
    assert!(check_delete(&vec![], 0).is_ok());
    assert!(matches!(import_next(ImportStep::Move, false), ImportStep::ProtectBack));
    let (_, end) = migrate_text(&vec![], &vec!["x".into()], false, false, "space");
    assert_eq!(end, Err(BpmError::Partial { failed: 1 }));
}

#[test]
fn commands_are_wrapped_in_snapshots() {
    assert_eq!(wrap_reason("", &vec!["make".into(), "clean".into()]), "make clean");
    let a = spawn_snap("demo", "post", "why", "/space", Some(3));
    assert!(a.contains(&"--pair".to_string()) && a.contains(&"3".to_string()));
    assert_eq!(snap_id("pre", true, br#"[{"id": 12}]"#), Ok(12));
    assert_eq!(snap_id("pre", true, b" [{\"id\": 12}, {\"id\": 13}]\n"), Ok(12));
    for no_list in [&br#"{"0": {"id": 5}}"#[..], b"[]", b"[{}]", b"7"] {
        assert_eq!(snap_id("pre", true, no_list), Err("bpm snap returned no id".to_string()));
    }
    assert!(snap_id("pre", false, b"").is_err());
    assert!(snap_id("pre", true, b"{").is_err());
}

fn facts(name: &str, unit: &str) -> RowFacts {
    RowFacts {
        name: name.into(),
        path: format!("/space/{name}"),
        unit: unit.into(),
        state: ProjectState::new(),
        snaps: vec![],
        missing: false,
        exclusive_bytes: None,
        exclusive: String::new(),
    }
}

#[test]
fn the_overview() {
    let mut b = facts("b", "old");
    b.state.last_change_at = Some(before(7200));
    b.state.frozen = Some(frozen());
    b.state.pending_convert.insert("target".into(), before(1));
    b.snaps = (1..=2).map(|i| SnapshotMeta::sample(i, "b")).collect();
    b.snaps[0].hold = true;
    b.snaps[1].created = before(300);
    let mut a = facts("a", "a");
    a.missing = true;
    let v = rows(&vec![b, a], NOW);
    assert_eq!(v[0].name, "a");
    assert_eq!(v[0].flags, vec!["MISSING"]);
    assert_eq!(v[1].flags, vec!["RENAMED(store:old)", "CONVERT(target)", "HELD(1)"]);
    assert_eq!(v[1].newest, Some(2));
    assert_eq!((v[1].idle.as_deref(), v[1].newest_age.as_deref()), (Some("2h"), Some("5m")));
    assert_eq!((v[0].idle.as_deref(), v[0].newest_age.as_deref()), (None, None));
    let r = RootReport {
        root: "/space".into(),
        store: "/space/.bpm".into(),
        store_exists: true,
        free_bytes: Some(1),
        projects: v,
        unadopted: vec!["x".into()],
        foreign_subvolumes: vec!["y".into()],
        ignored: vec![],
        leftovers: vec![],
        container_snapshots: 4,
        free: "1 B".into(),
    };
    let text = status_text(&vec![r], true);
    let expected = "root /space  store /space/.bpm  free 1 B  container snapshots 4\n\
        PROJECT  STAGE   IDLE  SNAPS  NEWEST     FLAGS\n\
        a        active  -     0      -          MISSING\n\
        b        active  2h    2      #2 5m ago  FROZEN RENAMED(store:old) CONVERT(target) HELD(1)\n\
        \n\
        b is FROZEN: lost\n  inspect: bpm list b; bpm diff b held\n  resolve: bpm rollback b held   or   bpm unfreeze b\n\
        \n\
        unadopted (plain directories, not protected): x\n\
        subvolumes not managed by bpm: y\n\
        \n";
    assert_eq!(text, expected);
}

#[test]
fn one_project_in_detail() {
    let mut state = ProjectState::new();
    state.frozen = Some(frozen());
    let snaps: Vec<SnapshotMeta> = (1..=2).map(|i| SnapshotMeta::sample(i, "p")).collect();
    let mut banlist = StrMap::new();
    banlist.insert("target".to_string(), PathState::of(Some(true), true));
    banlist.insert("dist".to_string(), PathState::of(None, false));
    let mut d = Detail {
        now: NOW,
        name: "p".into(),
        path: "/space/p".into(),
        state,
        profiles: vec!["rust".into()],
        banlist,
        unprotected_nested: vec!["sub".into()],
        snapshots: 2,
        snapshots_by_kind: snapshots_by_kind(&snaps),
        live_ctransid: Some(102),
        changed_since_newest: Some(false),
        stage_since: String::new(),
        last_change: String::new(),
        frozen_since: "then".into(),
        ref_bytes: String::new(),
        recompressed: String::new(),
        last_error: String::new(),
    };
    let expected = "p  /space/p\n  stage      active\n  last change -\n  live       identical to newest snapshot\n  \
        profiles   rust\n  snapshots  2 (auto 2)\n  FROZEN     since then: lost\n             \
        last good snapshot #2 (held): bpm diff p 2   bpm rollback p 2   bpm unfreeze p\n  banlist\n    \
        dist                     absent\n    target                   nested subvolume (excluded)\n  \
        WARNING: nested subvolumes not covered by snapshots: sub\n";
    assert_eq!(detail(&d), expected);
    d.state.last_change_at = Some(before(3 * 86_400));
    d.last_change = "then".into();
    assert_eq!(detail(&d), expected.replace("last change -", "last change then (3d ago)"));
}
