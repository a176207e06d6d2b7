use bpm::clock::FakeClock;
use bpm::cli::{dur, reads_dur, show_dur, Cmd, DoctorArgs, HookRunArgs, HooksCmd, ListArgs, StatusArgs};
use bpm::ctx::{origin, Identity, Invoker};
use bpm::error::{exit_code_for, not_found, refused, usage, BpmError, Cause};
use bpm::output::{emit, log_prefix, max_level, Level, Table};
use bpm::privilege::{root_step, sudo_args, RootStep};
use bpm::util::order::{name_order, stable_order};
use bpm::util::paths::{is_atomic_tmp, path_eq, path_join, path_lt, path_name, path_parent, path_starts_with};
use bpm::util::proc::opened_for_writing;
use bpm::util::relpath::{safe_relative, RelPath};
use bpm::util::strmap::StrMap;
use bpm::util::text::{
    dec_i32, dec_u64, join, lines, oct_u32, parse_u32, parse_u64, replace, split_char,
    split_either, str_lt, strip_prefix, strip_suffix, trim, trim_char, trim_end_matches, words,
};
use bpm::util::time::{add, age, fmt_age, sub, Duration, Timestamp, MAX_NS, MIN_NS};
use bpm::util::walk::{EntryInfo, EntryKind, TreeStats};

#[test]
fn table_alignment() {
    let mut t = Table::new(&["NAME", "STAGE", "NOTE"]);
    t.row(vec!["a".into(), "active".into(), "x".into()]);
    t.row(vec!["longer-name".into(), "cold".into(), "".into()]);
    let r = t.render();
    assert_eq!(r.lines().next().unwrap(), "NAME         STAGE   NOTE");
    assert_eq!(r.lines().nth(2).unwrap(), "longer-name  cold");
}

#[test]
fn numbers_are_read_as_they_are_written() {
    for n in [0u64, 7, 10, 4096, u64::MAX] {
        assert_eq!(dec_u64(n), n.to_string());
        assert_eq!(parse_u64(&dec_u64(n)), Some(n));
    }
    assert_eq!(parse_u64("18446744073709551616"), None);
    assert_eq!(parse_u64("+5"), "+5".parse::<u64>().ok());
    assert_eq!(parse_u64(""), None);
    assert_eq!(parse_u32("4294967296"), None);
    assert_eq!(dec_i32(i32::MIN), i32::MIN.to_string());
    assert_eq!(oct_u32(0o755), "755");
    assert_eq!(oct_u32(0), "0");
}

#[test]
fn texts_are_taken_apart_as_std_does_it() {
    for s in ["", "a", "a,b", ",", "a,,b,"] {
        let std: Vec<String> = s.split(',').map(String::from).collect();
        assert_eq!(split_char(s, ','), std);
    }
    for s in ["", "\n", "a\nb", "a\r\nb\n", "a\n\n"] {
        let std: Vec<String> = s.lines().map(String::from).collect();
        assert_eq!(lines(s), std);
    }
    for s in ["", " a\t b\n", "x\u{a0}y"] {
        let std: Vec<String> = s.split_whitespace().map(String::from).collect();
        assert_eq!(words(s), std);
        assert_eq!(trim(s), s.trim());
    }
    assert_eq!(replace("@A@-@A@", "@A@", "x"), "@A@-@A@".replace("@A@", "x"));
    assert_eq!(replace("aaa", "aa", "b"), "aaa".replace("aa", "b"));
    assert_eq!(trim_end_matches("9.tmp.tmp", ".tmp"), "9");
    assert_eq!(trim_char("\"x\"", '"'), "x");
    assert_eq!(strip_prefix("a/b", "a/"), Some("b".into()));
    assert_eq!(strip_suffix("a.b", ".c"), None);
    assert_eq!(split_either("a;b c", ';', ' '), vec!["a", "b", "c"]);
    assert_eq!(join(&vec!["a".into(), "b".into()], ", "), "a, b");
    assert!(str_lt("a", "b") && str_lt("a", "aa") && !str_lt("b", "a"));
}

#[test]
fn paths_are_compared_by_their_steps() {
    assert!(path_eq("/a//b/./c/", "/a/b/c"));
    assert!(!path_eq("/a/b", "a/b"));
    assert!(path_starts_with("/a/b/c", "/a/b"));
    assert!(!path_starts_with("/a/bc", "/a/b"));
    assert_eq!(path_join("/a", "b"), "/a/b");
    assert_eq!(path_join("/a/", "b"), "/a/b");
    assert_eq!(path_join("/a", "/b"), "/b");
    assert_eq!(path_parent("/a/b"), Some("/a".into()));
    assert_eq!(path_parent("/"), None);
    assert_eq!(path_name("/a/b"), Some("b".into()));
    assert!(path_lt("a/b", "a.b"));
}

#[test]
fn relative_paths_have_one_spelling() {
    assert_eq!(safe_relative("a//b/./c/"), Some("a/b/c".into()));
    assert_eq!(safe_relative("../x"), None);
    assert_eq!(safe_relative("/x"), None);
    assert_eq!(safe_relative("."), None);
    assert!(RelPath::parse("target").unwrap().is_top_level());
    assert!(!RelPath::parse("a/b").unwrap().is_top_level());
}

#[test]
fn maps_keep_their_keys_in_order() {
    let mut m = StrMap::new();
    for k in ["b", "a", "c", "a"] {
        m.insert(k.to_string(), k.len());
    }
    m.remove("c");
    let keys: Vec<&str> = m.entries().iter().map(|e| e.0.as_str()).collect();
    assert_eq!(keys, vec!["a", "b"]);
    assert!(m.has("a") && !m.has("c"));
    assert_eq!(m.copy().entries().len(), 2);
}

#[test]
fn orders_are_stable() {
    assert_eq!(stable_order(&vec![3, 1, 3, 0]), vec![3, 1, 0, 2]);
    assert_eq!(name_order(&vec!["b".into(), "a".into(), "b".into()]), vec![1, 0, 2]);
}

#[test]
fn times_stay_in_the_calendar() {
    let t = Timestamp { ns: MAX_NS };
    assert_eq!(add(t, Duration::from_secs(1)).ns, MAX_NS);
    assert_eq!(sub(Timestamp { ns: MIN_NS }, Duration::from_secs(1)).ns, MIN_NS);
    assert_eq!(age(Timestamp { ns: 5 }, Timestamp { ns: 9 }).ns, 0);
    assert_eq!(age(Timestamp { ns: 5 }, Timestamp { ns: -4 }).ns, 9);
    assert_eq!(MIN_NS, jiff::Timestamp::MIN.as_nanosecond());
    assert_eq!(MAX_NS, jiff::Timestamp::MAX.as_nanosecond());
}

#[test]
fn clocks_go_on_when_told() {
    let mut c = FakeClock::at("2026-09-14T10:00:00Z").unwrap();
    let start = c.now();
    c.advance(Duration::from_secs(60));
    assert_eq!(age(c.now(), start), Duration::from_secs(60));
    c.set(start);
    assert_eq!(c.now(), start);
    assert_eq!(start.as_second(), 1_789_380_000);
    assert!(FakeClock::at("yesterday").is_none());
}

#[test]
fn durations_on_the_command_line() {
    assert_eq!(dur("2min 12s").unwrap(), Duration::from_secs(132));
    assert!(dur("soon").is_err());
    assert_eq!(dur("1h 30m").unwrap(), Duration::from_secs(5400));
    assert!(reads_dur("2min 12s") && reads_dur("10000000000000ns"));
    assert!(reads_dur("1year 2months 3days 4hours 5min"));
    assert!(!reads_dur("18446744073709551615s 1000ms"));
    assert!(!reads_dur("5124095576030431h15s1000ms"));
    assert!(reads_dur("5000000000000M"));
    assert_eq!(show_dur(Duration::from_secs(132)), "2m 12s");
    assert_eq!(dur(&show_dur(Duration { ns: 5_400_000_000_007 })), Ok(Duration { ns: 5_400_000_000_007 }));
    assert!(reads_dur("1000000000000h") && reads_dur("18446744000000000000s"));
    assert_eq!(dur("1000000000000h").unwrap(), Duration::from_secs(3_600_000_000_000_000));
    assert!(reads_dur("1000000000000ms 1000000000000us") && reads_dur(&"1s ".repeat(300)));
    assert_eq!(dur("1000000000000ms 1000000000000us").unwrap(), Duration::from_secs(1_001_000_000));
}

#[test]
fn commands_that_need_root() {
    let list = Cmd::List(ListArgs { project: None, container: false, kind: None, held: false, limit: None });
    assert!(!list.needs_root());
    let status = |du| Cmd::Status(StatusArgs { project: None, unadopted: false, du });
    assert!(!status(false).needs_root());
    assert!(status(true).needs_root());
    assert!(!Cmd::Doctor(DoctorArgs { fix: false }).needs_root());
    assert!(Cmd::Doctor(DoctorArgs { fix: true }).needs_root());
    assert!(!Cmd::Hooks { cmd: HooksCmd::List { project: None } }.needs_root());
    let run = HookRunArgs { event: "e".into(), project: "p".into() };
    assert!(Cmd::Hooks { cmd: HooksCmd::Run(run) }.needs_root());
}

#[test]
fn root_is_got_through_sudo() {
    assert!(matches!(root_step(false, false, false, true), RootStep::Go));
    assert!(matches!(root_step(true, true, false, true), RootStep::Go));
    assert!(matches!(root_step(true, false, false, true), RootStep::Sudo));
    assert!(matches!(root_step(true, false, true, true), RootStep::Go));
    assert!(matches!(root_step(true, false, false, false), RootStep::Refuse));
    let a = sudo_args("/usr/bin/bpm", &vec!["tick".into()], Some("/c.toml"));
    assert_eq!(a, vec!["-n", "--", "/usr/bin/bpm", "--no-sudo", "--config", "/c.toml", "tick"]);
    let a = sudo_args("/b", &vec!["--config=/x".into()], Some("/c.toml"));
    assert_eq!(a, vec!["-n", "--", "/b", "--no-sudo", "--config=/x"]);
}

#[test]
fn sudo_names_the_invoker() {
    let i = Identity {
        euid: 0,
        uid: 0,
        gid: 0,
        sudo_uid: Some("1000".into()),
        sudo_gid: None,
        sudo_user: Some("ada".into()),
        user: Some("root".into()),
    };
    let inv = Invoker::detect(&i, "bpm tick".into());
    assert_eq!((inv.uid, inv.gid, inv.user.as_str()), (1000, 0, "ada"));
    assert_eq!(origin(&inv, "0.1.0").argv, "bpm tick");
    let i = Identity { sudo_uid: None, user: None, ..i };
    assert_eq!(Invoker::detect(&i, String::new()).user, "root");
}

#[test]
fn every_error_has_its_exit_code() {
    let all = [
        (usage("m".into()), 2, "m".to_string()),
        (
            BpmError::HookVeto { hook: "h".into(), detail: "d".into() },
            3,
            "vetoed by hook h: d".into(),
        ),
        (BpmError::Locked { holder: "x".into() }, 4, "locked by another bpm process (x)".into()),
        (BpmError::NeedsRoot("x".into()), 5, "this command needs root: x".into()),
        (not_found("x".into()), 6, "not found: x".into()),
        (refused("x".into()), 7, "refused: x".into()),
        (BpmError::Partial { failed: 3 }, 8, "3 project(s) had errors".into()),
    ];
    for (e, code, text) in all {
        assert_eq!(e.exit_code(), code);
        assert_eq!(e.message(), text);
        assert_eq!(exit_code_for(&vec![Cause::Other("while".into()), Cause::Bpm(e)]), code);
    }
    assert_eq!(exit_code_for(&vec![Cause::Other("x".into())]), 1);
}

#[test]
fn what_is_said_and_how_loud() {
    assert_eq!(emit(false, "a\nb\n\n"), Some("a\nb".into()));
    assert_eq!(emit(true, "a"), None);
    assert_eq!(emit(false, ""), None);
    assert_eq!(max_level(0, false), Level::Info);
    assert_eq!(max_level(3, false), Level::Trace);
    assert_eq!(max_level(3, true), Level::Warn);
    assert_eq!(log_prefix(Level::Error, true), "<3>");
    assert_eq!(log_prefix(Level::Warn, false), "bpm: warning: ");
    assert_eq!(log_prefix(Level::Info, false), "bpm: ");
    assert_eq!(log_prefix(Level::Debug, false), "bpm: debug: ");
}

#[test]
fn ages_are_shown_in_their_largest_unit() {
    for (secs, text) in [(0, "0s"), (59, "59s"), (60, "1m"), (3599, "59m"), (7200, "2h"), (86_400 * 3, "3d")] {
        assert_eq!(fmt_age(Duration::from_secs(secs)), text);
    }
    assert_eq!(fmt_age(Duration { ns: u128::MAX }), format!("{}d", u64::MAX / 86_400));
}

#[test]
fn unfinished_replacements_are_known_by_name() {
    assert!(is_atomic_tmp("state.toml.4711.tmp"));
    assert!(is_atomic_tmp("a.1.tmp"));
    for name in ["state.toml", "state.toml.tmp", ".1.tmp", "a..tmp", "a.x1.tmp", "12.tmp", ".tmp"] {
        assert!(!is_atomic_tmp(name), "{name}");
    }
}

#[test]
fn open_flags_tell_writers() {
    assert!(opened_for_writing("pos:\t0\nflags:\t0100001\nmnt_id:\t29\n"));
    assert!(opened_for_writing("flags:\t02"));
    assert!(!opened_for_writing("pos:\t0\nflags:\t0100000\n"));
    assert!(!opened_for_writing("flags:\t0100004\nflags:\t01\n"));
    assert!(!opened_for_writing("flags:\t\n"));
    assert!(!opened_for_writing("flags:\t09\n"));
    assert!(!opened_for_writing(""));
}

#[test]
fn a_tree_is_counted_entry_by_entry() {
    let entry = |kind: EntryKind, size: u64, mtime_ns: i128| EntryInfo { kind, size, mtime_ns, mode: 0o644 };
    let mut s = TreeStats::empty();
    s.count(&entry(EntryKind::Dir, 4096, 5), false, 7);
    s.count(&entry(EntryKind::File, 100, 9), false, 3);
    s.count(&entry(EntryKind::File, 100, 2), true, 2);
    s.count(&entry(EntryKind::Symlink(vec![b'x']), 1, MAX_NS + 1), false, 4);
    s.count(&entry(EntryKind::Other, 8, 1), false, 1);
    assert_eq!((s.files, s.dirs, s.symlinks, s.others), (2, 1, 1, 1));
    assert_eq!((s.bytes, s.path_bytes), (100, 200));
    assert_eq!(s.newest_mtime, Some(Timestamp { ns: 9 }));
    assert_eq!(s.newest_change, Some(Timestamp { ns: 7 }));
    s.count(&entry(EntryKind::File, u64::MAX, 0), false, 0);
    assert_eq!(s.bytes, u64::MAX);
}
