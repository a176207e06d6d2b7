use bpm::config::effective::{effective_for, EffectiveConfig, Merged};
use bpm::config::load::{config_path, load, ReadOutcome, Source};
use bpm::config::merge::{deep_merge, detect_profiles, Builtin};
use bpm::config::schema::{
    AdoptMode, Config, ContainerCfg, GlobalCfg, LifecyclePolicy, Policy, Precreate, ProfileCfg,
    ProfileSel, ProjectOverride, RecompressPolicy, RootCfg, ShrinkPolicy, SnapshotPolicy,
    ThinPolicy,
};
use bpm::config::value::{find_name, Table, Value};
use bpm::ops::config_cmd::{candidate, locate, render_table, run, show_list, show_project, Setting};
use bpm::util::relpath::RelPath;
use bpm::util::strmap::StrMap;
use bpm::util::time::Duration;

const CFG: &str = r#"
version = 1
[[root]]
path = "/space"
banlist_add = ["tmp"]
[root.policy.thin]
keep_all = "12h"
[defaults]
banlist = [".cache"]
[defaults.snapshot]
min_interval = "10m"
[profiles.rust]
markers = ["Cargo.toml"]
banlist = ["target"]
[profiles.rust.policy.lifecycle]
cold_after = "90d"
[projects.demo]
banlist_add = ["build"]
banlist_remove = [".cache"]
[projects.demo.policy.recompress]
level = 15
"#;

const BUILTIN: &str = r#"
banlist_precreate = "primary"
banlist_settle = "10m"
keep_build_on_adopt = true
[snapshot]
min_interval = "5m"
stats = true
stats_budget = "20s"
stats_min_interval = "30m"
[thin]
keep_all = "6h"
hourly = "48h"
daily = "14d"
weekly = "56d"
safety_ttl = "7d"
min_free = 0
[lifecycle]
dormant_after = "14d"
cold_after = "60d"
adopt_grace = "1d"
[recompress]
enabled = true
level = 9
max_bytes = 0
min_free = 0
nested = false
[shrink_guard]
enabled = true
min_files = 100
min_bytes = 0
exclude = [".git"]
sentinels = [".git"]
thin_after_freeze = true
"#;

fn value(v: &toml::Value) -> Value {
    match v {
        toml::Value::String(s) => Value::Text(s.clone()),
        toml::Value::Array(a) => Value::List(a.iter().map(value).collect()),
        toml::Value::Table(t) => Value::Table(table(t)),
        other => Value::Other(other.to_string()),
    }
}

fn table(t: &toml::Table) -> Table {
    Table { entries: t.iter().map(|(k, v)| (k.clone(), value(v))).collect() }
}

fn sub(t: &toml::Table, k: &str) -> Table {
    match t.get(k) {
        Some(toml::Value::Table(s)) => table(s),
        _ => Table { entries: vec![] },
    }
}

fn strings(t: &toml::Table, k: &str) -> Vec<String> {
    match t.get(k) {
        Some(toml::Value::Array(a)) => a.iter().map(|x| x.as_str().unwrap().to_string()).collect(),
        _ => vec![],
    }
}

fn parse_override(t: &toml::Table) -> ProjectOverride {
    ProjectOverride {
        managed: t.get("managed").and_then(|v| v.as_bool()),
        profile: t.get("profile").and_then(|v| v.as_str()).map(|s| ProfileSel::One(s.into())),
        banlist_add: strings(t, "banlist_add"),
        banlist_remove: strings(t, "banlist_remove"),
        sentinels_add: strings(t, "sentinels_add"),
        policy: sub(t, "policy"),
    }
}

fn read(text: &str) -> toml::Table {
    toml::from_str(text).unwrap()
}

fn parse(text: &str) -> Config {
    let t = read(text);
    let mut profiles = StrMap::new();
    if let Some(toml::Value::Table(ps)) = t.get("profiles") {
        for (k, p) in ps {
            let p = p.as_table().unwrap();
            profiles.insert(
                k.clone(),
                ProfileCfg {
                    markers: strings(p, "markers"),
                    banlist: strings(p, "banlist"),
                    policy: sub(p, "policy"),
                },
            );
        }
    }
    let mut projects = StrMap::new();
    if let Some(toml::Value::Table(ps)) = t.get("projects") {
        for (k, p) in ps {
            projects.insert(k.clone(), parse_override(p.as_table().unwrap()));
        }
    }
    let roots = t["root"]
        .as_array()
        .unwrap()
        .iter()
        .map(|r| {
            let r = r.as_table().unwrap();
            RootCfg {
                path: r["path"].as_str().unwrap().to_string(),
                ignore: vec![],
                adopt: AdoptMode::Manual,
                adopt_min_age: Duration::from_secs(0),
                banlist_add: strings(r, "banlist_add"),
                container: ContainerCfg::new(),
                policy: sub(r, "policy"),
            }
        })
        .collect();
    let cfg = Config {
        version: t["version"].as_integer().unwrap() as u32,
        global: GlobalCfg::new(),
        roots,
        defaults: sub(&t, "defaults"),
        profiles,
        projects,
    };
    cfg.validate().unwrap();
    cfg
}

fn builtin() -> Builtin {
    let mut profiles = StrMap::new();
    profiles.insert(
        "generic".to_string(),
        ProfileCfg { markers: vec![], banlist: vec![], policy: Table { entries: vec![] } },
    );
    Builtin { policy: table(&read(BUILTIN)), profiles }
}

fn at<'a>(t: &'a Table, section: &str, key: &str) -> &'a Value {
    let i = find_name(t, section).unwrap();
    match &t.entries[i].1 {
        Value::Table(s) => &s.entries[find_name(s, key).unwrap()].1,
        _ => panic!("{section} is no table"),
    }
}

fn dur(t: &Table, section: &str, key: &str) -> Duration {
    match at(t, section, key) {
        Value::Text(s) => Duration { ns: humantime::parse_duration(s).unwrap().as_nanos() },
        _ => panic!("{key} is no text"),
    }
}

fn number(t: &Table, section: &str, key: &str) -> u64 {
    match at(t, section, key) {
        Value::Other(s) => s.parse().unwrap(),
        _ => panic!("{key} is no number"),
    }
}

fn truth(t: &Table, section: &str, key: &str) -> bool {
    match at(t, section, key) {
        Value::Other(s) => s == "true",
        _ => panic!("{key} is no truth value"),
    }
}

fn list(t: &Table, section: &str, key: &str) -> Vec<String> {
    match at(t, section, key) {
        Value::List(l) => l
            .iter()
            .map(|v| match v {
                Value::Text(s) => s.clone(),
                _ => panic!("{key} holds other things than texts"),
            })
            .collect(),
        _ => panic!("{key} is no list"),
    }
}

fn policy(t: &Table) -> Policy {
    Policy {
        banlist_precreate: Precreate::Primary,
        banlist_settle: Duration::from_secs(600),
        keep_build_on_adopt: true,
        snapshot: SnapshotPolicy {
            min_interval: dur(t, "snapshot", "min_interval"),
            stats: truth(t, "snapshot", "stats"),
            stats_budget: dur(t, "snapshot", "stats_budget"),
            stats_min_interval: dur(t, "snapshot", "stats_min_interval"),
        },
        thin: ThinPolicy {
            keep_all: dur(t, "thin", "keep_all"),
            hourly: dur(t, "thin", "hourly"),
            daily: dur(t, "thin", "daily"),
            weekly: dur(t, "thin", "weekly"),
            safety_ttl: dur(t, "thin", "safety_ttl"),
            min_free: number(t, "thin", "min_free"),
        },
        lifecycle: LifecyclePolicy {
            dormant_after: dur(t, "lifecycle", "dormant_after"),
            cold_after: dur(t, "lifecycle", "cold_after"),
            adopt_grace: dur(t, "lifecycle", "adopt_grace"),
        },
        recompress: RecompressPolicy {
            enabled: truth(t, "recompress", "enabled"),
            level: number(t, "recompress", "level") as u8,
            max_bytes: number(t, "recompress", "max_bytes"),
            min_free: number(t, "recompress", "min_free"),
            nested: truth(t, "recompress", "nested"),
        },
        shrink_guard: ShrinkPolicy {
            enabled: truth(t, "shrink_guard", "enabled"),
            min_files: number(t, "shrink_guard", "min_files"),
            min_bytes: number(t, "shrink_guard", "min_bytes"),
            exclude: list(t, "shrink_guard", "exclude"),
            sentinels: list(t, "shrink_guard", "sentinels"),
            thin_after_freeze: truth(t, "shrink_guard", "thin_after_freeze"),
        },
    }
}

fn finish(m: Merged) -> EffectiveConfig {
    let p = policy(&m.table);
    m.finish(p)
}

fn names(v: &[RelPath]) -> Vec<&str> {
    v.iter().map(|p| p.as_str()).collect()
}

fn effective(cfg: &Config, name: &str, file: &str, present: &[&str]) -> EffectiveConfig {
    let file = parse_override(&read(file));
    let present: Vec<String> = present.iter().map(|s| s.to_string()).collect();
    let m = effective_for(&builtin(), cfg, &cfg.roots[0], name, "/space/x", Some(&file), &present);
    finish(m.unwrap())
}

#[test]
fn precedence_banlist_and_origins() {
    let cfg = parse(CFG);
    let e = effective(
        &cfg,
        "demo",
        "banlist_add = ['out/']\nsentinels_add = ['docs']\n[policy.snapshot]\nmin_interval = '1m'\n",
        &["Cargo.toml"],
    );
    assert_eq!(e.profiles, vec!["rust"]);
    assert_eq!(names(&e.banlist), vec!["target", "tmp", "build", "out"]);
    assert_eq!(names(&e.primary_banlist), vec!["target", "build", "out"]);
    assert_eq!(e.sentinels, vec![".git", "docs"]);
    assert_eq!(e.policy.snapshot.min_interval, Duration::from_secs(60));
    assert_eq!(e.origins.get("snapshot.min_interval").unwrap(), ".bpm.toml");
    assert_eq!(e.policy.thin.keep_all, Duration::from_secs(12 * 3600));
    assert_eq!(e.origins.get("thin.keep_all").unwrap(), "root(/space)");
    assert_eq!(e.policy.lifecycle.cold_after, Duration::from_secs(90 * 86400));
    assert_eq!(e.origins.get("lifecycle.cold_after").unwrap(), "profiles.rust");
    assert_eq!(e.policy.recompress.level, 15);
    assert_eq!(e.origins.get("recompress.level").unwrap(), "projects.demo");
    assert_eq!(e.origins.get("thin.hourly").unwrap(), "builtin");
    assert!(e.managed);
    assert!(e.ignored_project_keys.is_empty());
}

#[test]
fn project_file_cannot_weaken_the_guard_or_retention() {
    let cfg = parse(CFG);
    let e = effective(
        &cfg,
        "demo",
        "[policy.shrink_guard]\nenabled = false\n[policy.thin]\nkeep_all = '0s'\n[policy.lifecycle]\ndormant_after = '30d'\n",
        &[],
    );
    assert!(e.policy.shrink_guard.enabled);
    assert_eq!(e.policy.thin.keep_all, Duration::from_secs(12 * 3600));
    assert_eq!(e.policy.lifecycle.dormant_after, Duration::from_secs(30 * 86400), "other tables still apply");
    assert_eq!(e.ignored_project_keys, vec!["policy.shrink_guard", "policy.thin"]);
}

#[test]
fn detection_defaults_to_generic_and_project_config_can_be_disabled() {
    let mut cfg = parse(CFG);
    let e = effective(&cfg, "other", "managed = false", &[]);
    assert_eq!(e.profiles, vec!["generic"]);
    assert!(!e.managed);
    cfg.global.project_config = false;
    let e = effective(&cfg, "other", "managed = false", &[]);
    assert!(e.managed);
}

#[test]
fn unknown_profiles_are_refused() {
    let cfg = parse(CFG);
    let file = parse_override(&read("profile = 'fortran'"));
    let r = effective_for(&builtin(), &cfg, &cfg.roots[0], "demo", "/space/demo", Some(&file), &vec![]);
    assert_eq!(r.err().unwrap(), "project demo: unknown profile \"fortran\"");
}

#[test]
fn profiles_are_found_by_their_markers() {
    let cfg = parse(CFG);
    assert_eq!(detect_profiles(&builtin(), &cfg, &vec!["Cargo.toml".into()]), vec!["rust"]);
    assert_eq!(detect_profiles(&builtin(), &cfg, &vec!["Makefile".into()]), vec!["generic"]);
}

#[test]
fn tables_are_merged_name_by_name() {
    let mut base = table(&read("a = 1\n[t]\nx = 1\ny = 2\n"));
    let over = table(&read("[t]\ny = 3\n"));
    let mut origins = StrMap::new();
    deep_merge(&mut base, &over, "over", "", &mut origins);
    assert!(matches!(at(&base, "t", "x"), Value::Other(s) if s == "1"));
    assert!(matches!(at(&base, "t", "y"), Value::Other(s) if s == "3"));
    assert_eq!(origins.get("t.y").unwrap(), "over");
    assert!(origins.get("t.x").is_none());
}

fn bare() -> Config {
    Config {
        version: 1,
        global: GlobalCfg::new(),
        roots: vec![RootCfg::adhoc("/space".into())],
        defaults: Table { entries: vec![] },
        profiles: StrMap::new(),
        projects: StrMap::new(),
    }
}

#[test]
fn faults_of_a_configuration() {
    assert!(bare().validate().is_ok());
    let mut c = bare();
    c.version = 2;
    assert_eq!(c.validate().unwrap_err(), "unsupported config version 2");
    let mut c = bare();
    c.roots[0].path = "space".into();
    assert_eq!(c.validate().unwrap_err(), "root path must be absolute: space");
    let mut c = bare();
    c.defaults.entries.push(("thinn".into(), Value::Other("1".into())));
    assert_eq!(c.validate().unwrap_err(), "unknown key in [defaults]: thinn");
    let mut c = bare();
    c.global.project_hooks = "maybe".into();
    assert_eq!(c.validate().unwrap_err(), "global.project_hooks must be off, allowlist or on");
    let mut c = bare();
    c.global.destructive_patterns = vec!["rm".into(), "(".into()];
    let m = c.validate().unwrap_err();
    assert!(m.starts_with("destructive_patterns \"(\": "), "{m}");
    assert!(m.contains("unclosed group"), "{m}");
}

#[test]
fn destructive_commands_are_recognised() {
    let mut g = GlobalCfg::new();
    g.destructive_patterns = vec![r"\brm\s+-r".into(), r"git\s+clean".into()];
    assert_eq!(g.is_destructive("cd x && rm  -rf build"), Ok(true));
    assert_eq!(g.is_destructive("ls -r"), Ok(false));
}

#[test]
fn roots_are_found_by_their_path() {
    let c = bare();
    assert!(c.root_for("/space/").is_some());
    assert!(c.root_for("/space/x").is_none());
    assert_eq!(bpm::ctx::roots(&c, None).len(), 1);
    assert_eq!(bpm::ctx::roots(&c, Some("/space"))[0].path, "/space");
    let other = &bpm::ctx::roots(&c, Some("/other"))[0];
    assert_eq!((other.path.as_str(), other.adopt), ("/other", AdoptMode::Manual));
    assert_eq!(other.adopt_min_age, Duration::from_secs(900));
    assert!(other.ignore.is_empty() && other.banlist_add.is_empty());
}

#[test]
fn where_the_configuration_comes_from() {
    assert_eq!(config_path(Some("/a"), Some("/b")), "/a");
    assert_eq!(config_path(None, Some("/b")), "/b");
    assert_eq!(config_path(None, None), "/etc/bpm/config.toml");
    assert!(matches!(load("/a", true, false, ReadOutcome::Read), Source::File));
    assert!(matches!(load("/a", false, false, ReadOutcome::NotFound("x".into())), Source::Embedded));
    match load("/a", true, false, ReadOutcome::NotFound("gone".into())) {
        Source::Fail(m) => assert_eq!(m, "read /a: gone"),
        _ => panic!("it was asked for"),
    }
    assert!(matches!(load("/a", false, true, ReadOutcome::NotFound("x".into())), Source::Fail(_)));
    assert!(matches!(load("/a", false, false, ReadOutcome::Failed("x".into())), Source::Fail(_)));
}

#[test]
fn settings_are_printed_with_their_origins() {
    let mut origins = StrMap::new();
    origins.insert("thin.keep_all".to_string(), "root(/space)".to_string());
    let t = vec![
        ("thin".to_string(), Setting::Table(vec![("keep_all".to_string(), Setting::Value("\"12h\"".into()))])),
        ("keep_build_on_adopt".to_string(), Setting::Value("true".into())),
    ];
    assert_eq!(
        render_table(&t, "", &origins, true),
        "keep_build_on_adopt = true\n\n[thin]\nkeep_all = \"12h\"  # root(/space)\n"
    );
    assert_eq!(
        render_table(&t, "", &origins, false),
        "keep_build_on_adopt = true\n\n[thin]\nkeep_all = \"12h\"\n"
    );
    assert_eq!(show_list(&vec!["a".into(), "b\"c".into()]), r#"["a", "b\"c"]"#);
    assert_eq!(run(None, "x = 1\n"), "# source: embedded default (no config file)\nx = 1\n");
    assert_eq!(run(Some("/c"), ""), "# source: /c\n");
}

#[test]
fn the_configuration_of_a_project_is_printed() {
    let cfg = parse(CFG);
    let e = effective(&cfg, "demo", "managed = true", &["Cargo.toml"]);
    let s = show_project("demo", "/space/demo", &e, &vec![], false);
    assert_eq!(
        s,
        "# demo (/space/demo)\nmanaged = true\nprofiles = [\"rust\"]\nbanlist = [\"target\", \"tmp\", \"build\"]\n\
         primary_banlist = [\"target\", \"build\"]\nnever_precreate = []\nsentinels = [\".git\"]\n\n# policy\n"
    );
}

#[test]
fn unknown_projects_are_looked_for_below_the_roots() {
    let roots = vec![RootCfg::adhoc("/space".into())];
    assert_eq!(candidate("demo", &roots), "/space/demo");
    assert_eq!(candidate("./demo", &roots), "./demo");
    let (i, name, path) = locate("x", "/space/demo/sub", &roots).unwrap();
    assert_eq!((i, name.as_str(), path.as_str()), (0, "demo", "/space/demo"));
    assert!(locate("x", "/elsewhere", &roots).is_err());
}
