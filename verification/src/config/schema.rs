//! What a configuration file says, and the policy of one project after merging.

use vstd::prelude::*;

use crate::config::value::{copy_table, Table};
#[allow(unused_imports)]
use crate::config::value::{distinct, table_model, table_wf, Model};
use crate::outside;
use crate::util::paths::{is_absolute, path_eq};
#[allow(unused_imports)]
use crate::util::paths::{absolute, same_path};
use crate::util::strmap::StrMap;
use crate::util::text::{cat2, cat4, copy_list, dec_u64, str_eq};
#[allow(unused_imports)]
use crate::util::text::{dec, texts};
use crate::util::time::Duration;

verus! {

/// The whole configuration.
pub struct Config {
    pub version: u32,
    pub global: GlobalCfg,
    pub roots: Vec<RootCfg>,
    /// A policy layer with `profile`, `banlist` and `sentinels_add` beside it.
    pub defaults: Table,
    pub profiles: StrMap<ProfileCfg>,
    pub projects: StrMap<ProjectOverride>,
}

/// The version that a file without one has.
pub fn one() -> (r: u32)
    ensures
        r == 1,
{
    1
}

pub struct GlobalCfg {
    pub store_dir: String,
    pub lock_timeout: Duration,
    pub sudo: bool,
    pub hooks_dir: String,
    pub hook_timeout: Duration,
    pub project_hooks: String,
    pub project_hooks_allow: Vec<String>,
    pub project_config: bool,
    pub archive_dir: String,
    pub archive_zstd_level: u8,
    pub heavy_min_free: u64,
    pub profile_order: Vec<String>,
    pub hook_throttle: Duration,
    pub destructive_patterns: Vec<String>,
}

impl GlobalCfg {
    /// The settings of a file that sets nothing.
    pub fn new() -> (r: GlobalCfg)
        ensures
            r.store_dir@ == ".bpm"@,
            r.lock_timeout.ns == 30 * 1_000_000_000,
            r.sudo,
            r.hooks_dir@ == "/etc/bpm/hooks.d"@,
            r.hook_timeout.ns == 60 * 1_000_000_000,
            r.project_hooks@ == "off"@,
            r.project_hooks_allow@ == Seq::<String>::empty(),
            r.project_config,
            r.archive_dir@ == "/archives/bpm"@,
            r.archive_zstd_level == 19,
            r.heavy_min_free == 10 * 1024 * 1024 * 1024,
            texts(r.profile_order@) == seq!["generic"@, "python"@, "node"@, "cmake"@, "rust"@],
            r.hook_throttle.ns == 120 * 1_000_000_000,
            texts(r.destructive_patterns@) == seq![
                "\\brm\\s+(-[a-zA-Z]*[rRf]|--recursive|--force)"@,
                "\\bgit\\s+clean\\b"@,
                "\\bgit\\s+reset\\s+--hard"@,
            ],
    {
        let order = vec![
            "generic".to_owned(),
            "python".to_owned(),
            "node".to_owned(),
            "cmake".to_owned(),
            "rust".to_owned(),
        ];
        assert(texts(order@) =~= seq!["generic"@, "python"@, "node"@, "cmake"@, "rust"@]);
        let patterns = vec![
            "\\brm\\s+(-[a-zA-Z]*[rRf]|--recursive|--force)".to_owned(),
            "\\bgit\\s+clean\\b".to_owned(),
            "\\bgit\\s+reset\\s+--hard".to_owned(),
        ];
        assert(texts(patterns@) =~= seq![
            "\\brm\\s+(-[a-zA-Z]*[rRf]|--recursive|--force)"@,
            "\\bgit\\s+clean\\b"@,
            "\\bgit\\s+reset\\s+--hard"@,
        ]);
        GlobalCfg {
            store_dir: ".bpm".to_owned(),
            lock_timeout: Duration::from_secs(30),
            sudo: true,
            hooks_dir: "/etc/bpm/hooks.d".to_owned(),
            hook_timeout: Duration::from_secs(60),
            project_hooks: "off".to_owned(),
            project_hooks_allow: Vec::new(),
            project_config: true,
            archive_dir: "/archives/bpm".to_owned(),
            archive_zstd_level: 19,
            heavy_min_free: 10 * 1024 * 1024 * 1024,
            profile_order: order,
            hook_throttle: Duration::from_secs(120),
            destructive_patterns: patterns,
        }
    }

    /// Whether every pattern compiles; the first one that does not is named.
    pub fn destructive_regexes(&self) -> (r: Result<(), String>)
        ensures
            match r {
                Ok(_) => patterns_compile(texts(self.destructive_patterns@)),
                Err(m) => exists|i: int|
                    first_fault(texts(self.destructive_patterns@), i) && m@ == fault_message(
                        texts(self.destructive_patterns@)[i],
                    ),
            },
    {
        let ps = &self.destructive_patterns;
        let ghost all = texts(ps@);
        let mut i: usize = 0;
        while i < ps.len()
            invariant
                i <= ps@.len(),
                all == texts(ps@),
                ps == &self.destructive_patterns,
                forall|j: int| 0 <= j < i ==> outside::pattern_fault(#[trigger] all[j]) is None,
            decreases ps@.len() - i,
        {
            assert(all[i as int] == ps@[i as int]@);
            if let Some(e) = outside::pattern_error(ps[i].as_str()) {
                assert(first_fault(all, i as int));
                return Err(
                    cat4(
                        "destructive_patterns ",
                        outside::quote(ps[i].as_str()).as_str(),
                        ": ",
                        e.as_str(),
                    ),
                );
            }
            i += 1;
        }
        Ok(())
    }

    /// Whether one of the patterns is found in a command; the fault of the first pattern that
    /// does not compile.
    pub fn is_destructive(&self, command: &str) -> (r: Result<bool, String>)
        ensures
            match r {
                Ok(b) => patterns_compile(texts(self.destructive_patterns@)) && b == any_found(
                    texts(self.destructive_patterns@),
                    command@,
                ),
                Err(m) => exists|i: int|
                    first_fault(texts(self.destructive_patterns@), i) && m@ == fault_message(
                        texts(self.destructive_patterns@)[i],
                    ),
            },
    {
        match self.destructive_regexes() {
            Err(m) => Err(m),
            Ok(_) => {
                let ps = &self.destructive_patterns;
                let ghost all = texts(ps@);
                let mut i: usize = 0;
                while i < ps.len()
                    invariant
                        i <= ps@.len(),
                        all == texts(ps@),
                        ps == &self.destructive_patterns,
                        patterns_compile(all),
                        forall|j: int|
                            0 <= j < i ==> !outside::pattern_found(#[trigger] all[j], command@),
                    decreases ps@.len() - i,
                {
                    assert(all[i as int] == ps@[i as int]@);
                    if outside::pattern_matches(ps[i].as_str(), command) {
                        return Ok(true);
                    }
                    i += 1;
                }
                Ok(false)
            },
        }
    }
}

pub open spec fn patterns_compile(ps: Seq<Seq<char>>) -> bool {
    forall|i: int| 0 <= i < ps.len() ==> outside::pattern_fault(#[trigger] ps[i]) is None
}

/// Position `i` is the first whose pattern does not compile.
pub open spec fn first_fault(ps: Seq<Seq<char>>, i: int) -> bool {
    &&& 0 <= i < ps.len()
    &&& outside::pattern_fault(ps[i]) is Some
    &&& forall|j: int| 0 <= j < i ==> outside::pattern_fault(#[trigger] ps[j]) is None
}

/// What is said of a pattern that does not compile.
pub open spec fn fault_message(p: Seq<char>) -> Seq<char> {
    "destructive_patterns "@ + outside::quoted(p) + ": "@ + outside::pattern_fault(p)->0
}

pub open spec fn any_found(ps: Seq<Seq<char>>, text: Seq<char>) -> bool {
    exists|i: int| 0 <= i < ps.len() && outside::pattern_found(#[trigger] ps[i], text)
}

/// Whether new projects are taken over without being asked.
#[derive(Clone, Copy, Debug, PartialEq, Eq, Structural)]
pub enum AdoptMode {
    Auto,
    Manual,
}

/// One directory whose children are projects.
pub struct RootCfg {
    pub path: String,
    pub ignore: Vec<String>,
    pub adopt: AdoptMode,
    pub adopt_min_age: Duration,
    pub banlist_add: Vec<String>,
    pub container: ContainerCfg,
    pub policy: Table,
}

pub fn default_adopt() -> (r: AdoptMode)
    ensures
        r == AdoptMode::Manual,
{
    AdoptMode::Manual
}

pub fn default_adopt_min_age() -> (r: Duration)
    ensures
        r.ns == 900 * 1_000_000_000,
{
    Duration::from_secs(15 * 60)
}

impl RootCfg {
    /// A root that no file mentions.
    pub fn adhoc(path: String) -> (r: RootCfg)
        ensures
            r.path == path,
            r.ignore@ == Seq::<String>::empty(),
            r.adopt == AdoptMode::Manual,
            r.adopt_min_age.ns == 900 * 1_000_000_000,
            r.banlist_add@ == Seq::<String>::empty(),
            r.container == container_default(),
            table_wf(r.policy),
            table_model(r.policy) == Map::<Seq<char>, Model>::empty(),
    {
        let policy = Table { entries: Vec::new() };
        assert(table_model(policy) =~= Map::<Seq<char>, Model>::empty());
        RootCfg {
            path,
            ignore: Vec::new(),
            adopt: AdoptMode::Manual,
            adopt_min_age: default_adopt_min_age(),
            banlist_add: Vec::new(),
            container: ContainerCfg::new(),
            policy,
        }
    }

    /// The same root again.
    pub fn copy(&self) -> (r: RootCfg)
        requires
            table_wf(self.policy),
        ensures
            same_root(r, *self),
    {
        RootCfg {
            path: self.path.clone(),
            ignore: copy_list(&self.ignore),
            adopt: self.adopt,
            adopt_min_age: self.adopt_min_age,
            banlist_add: copy_list(&self.banlist_add),
            container: self.container,
            policy: copy_table(&self.policy),
        }
    }
}

/// Two roots with the same settings.
pub open spec fn same_root(a: RootCfg, b: RootCfg) -> bool {
    &&& a.path@ == b.path@
    &&& texts(a.ignore@) == texts(b.ignore@)
    &&& a.adopt == b.adopt
    &&& a.adopt_min_age == b.adopt_min_age
    &&& texts(a.banlist_add@) == texts(b.banlist_add@)
    &&& a.container == b.container
    &&& table_wf(a.policy)
    &&& table_model(a.policy) == table_model(b.policy)
}

/// Snapshots of the root itself.
#[derive(Clone, Copy, Debug, PartialEq, Eq, Structural)]
pub struct ContainerCfg {
    pub enabled: bool,
    pub interval: Duration,
    pub keep_all: Duration,
    pub daily: Duration,
    pub weekly: Duration,
}

/// Every six hours; all of a day, then one a day for a week and one a week for four.
pub open spec fn container_default() -> ContainerCfg {
    ContainerCfg {
        enabled: true,
        interval: Duration { ns: 21_600_000_000_000 },
        keep_all: Duration { ns: 86_400_000_000_000 },
        daily: Duration { ns: 604_800_000_000_000 },
        weekly: Duration { ns: 2_419_200_000_000_000 },
    }
}

impl ContainerCfg {
    pub fn new() -> (r: ContainerCfg)
        ensures
            r == container_default(),
    {
        ContainerCfg {
            enabled: true,
            interval: Duration::from_secs(6 * 3600),
            keep_all: Duration::from_secs(24 * 3600),
            daily: Duration::from_secs(7 * 86400),
            weekly: Duration::from_secs(28 * 86400),
        }
    }
}

/// A kind of project: how to recognise it, what not to snapshot, and its policy layer.
pub struct ProfileCfg {
    pub markers: Vec<String>,
    pub banlist: Vec<String>,
    pub policy: Table,
}

/// Which profiles a project has.
#[derive(Clone, Debug)]
pub enum ProfileSel {
    One(String),
    Many(Vec<String>),
}

/// The names that a selection gives; none means that they are found by looking.
pub open spec fn selected(p: ProfileSel) -> Option<Seq<Seq<char>>> {
    match p {
        ProfileSel::One(s) => if s@ == "auto"@ {
            None
        } else {
            Some(seq![s@])
        },
        ProfileSel::Many(v) => Some(texts(v@)),
    }
}

impl ProfileSel {
    /// The names; none means auto-detect.
    pub fn names(&self) -> (r: Option<Vec<String>>)
        ensures
            match r {
                Some(v) => selected(*self) == Some(texts(v@)),
                None => selected(*self) is None,
            },
    {
        match self {
            ProfileSel::One(s) => if str_eq(s.as_str(), "auto") {
                None
            } else {
                let v = vec![s.clone()];
                assert(texts(v@) =~= seq![s@]);
                Some(v)
            },
            ProfileSel::Many(v) => Some(crate::util::text::copy_list(v)),
        }
    }
}

/// What is set for one project, by the configuration or by a file in the project.
pub struct ProjectOverride {
    pub managed: Option<bool>,
    pub profile: Option<ProfileSel>,
    pub banlist_add: Vec<String>,
    pub banlist_remove: Vec<String>,
    pub sentinels_add: Vec<String>,
    pub policy: Table,
}

/// The merged policy of a project.
pub struct Policy {
    pub banlist_precreate: Precreate,
    pub banlist_settle: Duration,
    pub keep_build_on_adopt: bool,
    pub snapshot: SnapshotPolicy,
    pub thin: ThinPolicy,
    pub lifecycle: LifecyclePolicy,
    pub recompress: RecompressPolicy,
    pub shrink_guard: ShrinkPolicy,
}

/// Which missing banned directories get created as empty nested subvolumes ahead of time.
#[derive(Clone, Copy, Debug, PartialEq, Eq, Structural)]
pub enum Precreate {
    /// The main build directory of each detected profile, explicit additions, and any seen before.
    Primary,
    All,
    Never,
}

#[derive(Clone, Copy, Debug, PartialEq, Eq, Structural)]
pub struct SnapshotPolicy {
    pub min_interval: Duration,
    pub stats: bool,
    pub stats_budget: Duration,
    pub stats_min_interval: Duration,
}

#[derive(Clone, Copy, Debug, PartialEq, Eq, Structural)]
pub struct ThinPolicy {
    pub keep_all: Duration,
    pub hourly: Duration,
    pub daily: Duration,
    pub weekly: Duration,
    pub safety_ttl: Duration,
    pub min_free: u64,
}

#[derive(Clone, Copy, Debug, PartialEq, Eq, Structural)]
pub struct LifecyclePolicy {
    pub dormant_after: Duration,
    pub cold_after: Duration,
    pub adopt_grace: Duration,
}

/// The recompression policy without the gain it asks for, which is a fraction.
#[derive(Clone, Copy, Debug, PartialEq, Eq, Structural)]
pub struct RecompressPolicy {
    pub enabled: bool,
    pub level: u8,
    pub max_bytes: u64,
    pub min_free: u64,
    pub nested: bool,
}

/// The shrink-guard policy without its two fractions: how losses compare with those is said by
/// a gauge (see `policy::shrink`).
pub struct ShrinkPolicy {
    pub enabled: bool,
    pub min_files: u64,
    pub min_bytes: u64,
    pub exclude: Vec<String>,
    pub sentinels: Vec<String>,
    pub thin_after_freeze: bool,
}

/// The names of the policy settings.
pub open spec fn policy_key(k: Seq<char>) -> bool {
    k == "banlist_precreate"@ || k == "banlist_settle"@ || k == "keep_build_on_adopt"@ || k
        == "snapshot"@ || k == "thin"@ || k == "lifecycle"@ || k == "recompress"@ || k
        == "shrink_guard"@
}

/// Whether `k` is the name of a policy setting.
pub fn is_policy_key(k: &str) -> (r: bool)
    ensures
        r == policy_key(k@),
{
    str_eq(k, "banlist_precreate") || str_eq(k, "banlist_settle") || str_eq(
        k,
        "keep_build_on_adopt",
    ) || str_eq(k, "snapshot") || str_eq(k, "thin") || str_eq(k, "lifecycle") || str_eq(
        k,
        "recompress",
    ) || str_eq(k, "shrink_guard")
}

/// The names that may stand in the defaults.
pub open spec fn defaults_key(k: Seq<char>) -> bool {
    k == "profile"@ || k == "banlist"@ || k == "sentinels_add"@ || policy_key(k)
}

pub open spec fn hooks_mode(m: Seq<char>) -> bool {
    m == "off"@ || m == "allowlist"@ || m == "on"@
}

/// What is wrong with a configuration, in the order in which it is looked for.
pub open spec fn config_fault(c: Config) -> Option<Seq<char>> {
    let ps = texts(c.global.destructive_patterns@);
    if c.version != 1 {
        Some("unsupported config version "@ + dec(c.version as nat))
    } else if !patterns_compile(ps) {
        Some(fault_message(ps[choose|i: int| first_fault(ps, i)]))
    } else if exists|i: int| first_relative_root(c.roots@, i) {
        Some(
            "root path must be absolute: "@ + c.roots@[choose|i: int|
                first_relative_root(c.roots@, i)].path@,
        )
    } else if exists|i: int| first_unknown_key(c.defaults, i) {
        Some(
            "unknown key in [defaults]: "@ + c.defaults.entries@[choose|i: int|
                first_unknown_key(c.defaults, i)].0@,
        )
    } else if !hooks_mode(c.global.project_hooks@) {
        Some("global.project_hooks must be off, allowlist or on"@)
    } else {
        None
    }
}

pub open spec fn first_relative_root(r: Seq<RootCfg>, i: int) -> bool {
    &&& 0 <= i < r.len()
    &&& !absolute(r[i].path@)
    &&& forall|j: int| 0 <= j < i ==> absolute((#[trigger] r[j]).path@)
}

pub open spec fn first_unknown_key(t: Table, i: int) -> bool {
    &&& 0 <= i < t.entries@.len()
    &&& !defaults_key(t.entries@[i].0@)
    &&& forall|j: int| 0 <= j < i ==> defaults_key((#[trigger] t.entries@[j]).0@)
}

impl Config {
    /// Whether the configuration can be used.
    pub fn validate(&self) -> (r: Result<(), String>)
        ensures
            match r {
                Ok(_) => config_fault(*self) is None,
                Err(m) => config_fault(*self) == Some(m@),
            },
    {
        if self.version != 1 {
            return Err(
                cat2("unsupported config version ", dec_u64(self.version as u64).as_str()),
            );
        }
        let ghost ps = texts(self.global.destructive_patterns@);
        match self.global.destructive_regexes() {
            Err(m) => {
                proof {
                    let i = choose|i: int| first_fault(ps, i) && m@ == fault_message(ps[i]);
                    let j = choose|j: int| first_fault(ps, j);
                    assert(first_fault(ps, i));
                    assert(i == j) by {
                        if i < j {
                            assert(outside::pattern_fault(ps[i]) is None);
                        } else if j < i {
                            assert(outside::pattern_fault(ps[j]) is None);
                        }
                    }
                    assert(!patterns_compile(ps));
                }
                return Err(m);
            },
            Ok(_) => {},
        }
        let mut i: usize = 0;
        while i < self.roots.len()
            invariant
                i <= self.roots@.len(),
                self.version == 1,
                patterns_compile(texts(self.global.destructive_patterns@)),
                forall|j: int| 0 <= j < i ==> absolute((#[trigger] self.roots@[j]).path@),
            decreases self.roots@.len() - i,
        {
            if !is_absolute(self.roots[i].path.as_str()) {
                proof {
                    let c = choose|c: int| first_relative_root(self.roots@, c);
                    assert(first_relative_root(self.roots@, i as int));
                    if c < i {
                        assert(absolute(self.roots@[c].path@));
                    } else if i < c {
                        assert(absolute(self.roots@[i as int].path@));
                    }
                }
                return Err(cat2("root path must be absolute: ", self.roots[i].path.as_str()));
            }
            i += 1;
        }
        let mut k: usize = 0;
        while k < self.defaults.entries.len()
            invariant
                k <= self.defaults.entries@.len(),
                self.version == 1,
                patterns_compile(texts(self.global.destructive_patterns@)),
                !exists|i: int| first_relative_root(self.roots@, i),
                forall|j: int|
                    0 <= j < k ==> defaults_key((#[trigger] self.defaults.entries@[j]).0@),
            decreases self.defaults.entries@.len() - k,
        {
            let key = self.defaults.entries[k].0.as_str();
            if !(str_eq(key, "profile") || str_eq(key, "banlist") || str_eq(key, "sentinels_add")
                || is_policy_key(key)) {
                proof {
                    let c = choose|c: int| first_unknown_key(self.defaults, c);
                    assert(first_unknown_key(self.defaults, k as int));
                    if c < k {
                        assert(defaults_key(self.defaults.entries@[c].0@));
                    } else if k < c {
                        assert(defaults_key(self.defaults.entries@[k as int].0@));
                    }
                }
                return Err(cat2("unknown key in [defaults]: ", key));
            }
            k += 1;
        }
        let m = self.global.project_hooks.as_str();
        if !(str_eq(m, "off") || str_eq(m, "allowlist") || str_eq(m, "on")) {
            return Err("global.project_hooks must be off, allowlist or on".to_owned());
        }
        Ok(())
    }

    /// The root at exactly this path.
    pub fn root_for(&self, path: &str) -> (r: Option<&RootCfg>)
        ensures
            match r {
                Some(x) => exists|i: int|
                    0 <= i < self.roots@.len() && #[trigger] self.roots@[i] == *x && same_path(
                        x.path@,
                        path@,
                    ) && forall|j: int|
                        0 <= j < i ==> !same_path((#[trigger] self.roots@[j]).path@, path@),
                None => forall|i: int|
                    0 <= i < self.roots@.len() ==> !same_path(
                        (#[trigger] self.roots@[i]).path@,
                        path@,
                    ),
            },
    {
        let mut i: usize = 0;
        while i < self.roots.len()
            invariant
                i <= self.roots@.len(),
                forall|j: int|
                    0 <= j < i ==> !same_path((#[trigger] self.roots@[j]).path@, path@),
            decreases self.roots@.len() - i,
        {
            if path_eq(self.roots[i].path.as_str(), path) {
                return Some(&self.roots[i]);
            }
            i += 1;
        }
        None
    }
}

/// A configuration can be used where it is of the first version, its patterns compile, its roots
/// are absolute paths, its defaults hold only names that are known there, and the hooks of projects
/// are off, on, or on for a list.
pub proof fn law_what_a_configuration_has_to_be(c: Config)
    ensures
        config_fault(c) is None <==> {
            &&& c.version == 1
            &&& forall|i: int|
                0 <= i < c.global.destructive_patterns@.len() ==> outside::pattern_fault(
                    (#[trigger] c.global.destructive_patterns@[i])@,
                ) is None
            &&& forall|i: int|
                0 <= i < c.roots@.len() ==> (#[trigger] c.roots@[i]).path@.len() > 0
                    && c.roots@[i].path@[0] == '/'
            &&& forall|i: int|
                0 <= i < c.defaults.entries@.len() ==> defaults_key(
                    (#[trigger] c.defaults.entries@[i]).0@,
                )
            &&& c.global.project_hooks@ == "off"@ || c.global.project_hooks@ == "on"@
                || c.global.project_hooks@ == "allowlist"@
        },
{
    let ps = texts(c.global.destructive_patterns@);
    if patterns_compile(ps) {
        assert forall|i: int| 0 <= i < c.global.destructive_patterns@.len() implies
            outside::pattern_fault((#[trigger] c.global.destructive_patterns@[i])@) is None by {
            assert(outside::pattern_fault(ps[i]) is None);
        }
    }
    if forall|i: int|
        0 <= i < c.global.destructive_patterns@.len() ==> outside::pattern_fault(
            (#[trigger] c.global.destructive_patterns@[i])@,
        ) is None {
        assert forall|i: int| 0 <= i < ps.len() implies outside::pattern_fault(
            #[trigger] ps[i],
        ) is None by {
            assert(outside::pattern_fault(c.global.destructive_patterns@[i]@) is None);
        }
    }
    if exists|i: int| 0 <= i < c.roots@.len() && !absolute((#[trigger] c.roots@[i]).path@) {
        let i = choose|i: int| 0 <= i < c.roots@.len() && !absolute((#[trigger] c.roots@[i]).path@);
        lemma_some_relative_root(c.roots@, i);
    }
    if exists|i: int|
        0 <= i < c.defaults.entries@.len() && !defaults_key((#[trigger] c.defaults.entries@[i]).0@) {
        let i = choose|i: int|
            0 <= i < c.defaults.entries@.len() && !defaults_key(
                (#[trigger] c.defaults.entries@[i]).0@,
            );
        lemma_some_unknown_key(c.defaults, i);
    }
}

proof fn lemma_some_relative_root(r: Seq<RootCfg>, i: int)
    requires
        0 <= i < r.len(),
        !absolute(r[i].path@),
    ensures
        exists|k: int| first_relative_root(r, k),
    decreases i,
{
    if forall|j: int| 0 <= j < i ==> absolute((#[trigger] r[j]).path@) {
        assert(first_relative_root(r, i));
    } else {
        let j = choose|j: int| 0 <= j < i && !absolute((#[trigger] r[j]).path@);
        lemma_some_relative_root(r, j);
    }
}

proof fn lemma_some_unknown_key(t: Table, i: int)
    requires
        0 <= i < t.entries@.len(),
        !defaults_key(t.entries@[i].0@),
    ensures
        exists|k: int| first_unknown_key(t, k),
    decreases i,
{
    if forall|j: int| 0 <= j < i ==> defaults_key((#[trigger] t.entries@[j]).0@) {
        assert(first_unknown_key(t, i));
    } else {
        let j = choose|j: int| 0 <= j < i && !defaults_key((#[trigger] t.entries@[j]).0@);
        lemma_some_unknown_key(t, j);
    }
}

/// A root is snapshotted every six hours; all of a day is kept, then one a day for seven days and
/// one a week for four weeks.
pub proof fn law_roots_keep_four_weeks()
    ensures
        ({
            let c = container_default();
            let hour: int = 3_600_000_000_000;
            &&& c.enabled
            &&& c.interval.ns == 6 * hour
            &&& c.keep_all.ns == 24 * hour
            &&& c.daily.ns == 7 * 24 * hour
            &&& c.weekly.ns == 4 * 7 * 24 * hour
        }),
{
}

/// Eight settings make a policy.
pub proof fn law_the_settings_of_a_policy(k: Seq<char>)
    ensures
        policy_key(k) <==> seq![
            "snapshot"@,
            "thin"@,
            "lifecycle"@,
            "recompress"@,
            "shrink_guard"@,
            "banlist_precreate"@,
            "banlist_settle"@,
            "keep_build_on_adopt"@,
        ].contains(k),
        defaults_key(k) <==> policy_key(k) || seq!["banlist"@, "sentinels_add"@, "profile"@].contains(
            k,
        ),
{
    let p = seq![
        "snapshot"@,
        "thin"@,
        "lifecycle"@,
        "recompress"@,
        "shrink_guard"@,
        "banlist_precreate"@,
        "banlist_settle"@,
        "keep_build_on_adopt"@,
    ];
    assert(p[0] == "snapshot"@ && p[1] == "thin"@ && p[2] == "lifecycle"@ && p[3] == "recompress"@);
    assert(p[4] == "shrink_guard"@ && p[5] == "banlist_precreate"@ && p[6] == "banlist_settle"@);
    assert(p[7] == "keep_build_on_adopt"@);
    let d = seq!["banlist"@, "sentinels_add"@, "profile"@];
    assert(d[0] == "banlist"@ && d[1] == "sentinels_add"@ && d[2] == "profile"@);
}

} // verus!
