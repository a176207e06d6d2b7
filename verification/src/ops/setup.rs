//! `setup`: config, store subvolumes, hooks directory, systemd units.

use vstd::prelude::*;

use crate::btrfs::Uuid;
#[allow(unused_imports)]
use crate::output::row_texts;
use crate::store::StoreInfo;
use crate::util::text::{cat2, cat3, cat4, join, replace, str_eq, trim_right};
#[allow(unused_imports)]
use crate::util::text::{joined, replaced, texts, trim_end};
use crate::util::time::Timestamp;

verus! {

/// The timers that are enabled.
pub const TIMERS: [&'static str; 2] = ["bpm.timer", "bpm-heavy.timer"];

/// A template with the path of the program filled in, as it is printed.
pub fn claude_hook(template: &str, bin: &str) -> (r: String)
    ensures
        r@ == trim_end(replaced(template@, "@BIN@"@, bin@)),
{
    proof {
        reveal_strlit("@BIN@");
    }
    trim_right(replace(template, "@BIN@", bin).as_str())
}

/// A unit file: the program, the places that it may write to and the configuration filled in.
pub fn fill(unit: &str, bin: &str, rw: &Vec<String>, cfg: &str) -> (r: String)
    ensures
        r@ == replaced(
            replaced(replaced(unit@, "@BIN@"@, bin@), "@RW@"@, joined(texts(rw@), " "@)),
            "@CFG@"@,
            cfg@,
        ),
{
    proof {
        reveal_strlit("@BIN@");
        reveal_strlit("@RW@");
        reveal_strlit("@CFG@");
    }
    let a = replace(unit, "@BIN@", bin);
    let b = replace(a.as_str(), "@RW@", join(rw, " ").as_str());
    replace(b.as_str(), "@CFG@", cfg)
}

/// Whether a file is written: where it is missing or holds something else.
pub fn write_if_changed(present: Option<&str>, content: &str) -> (r: bool)
    ensures
        r == !(present is Some && present->0@ == content@),
{
    match present {
        Some(t) => !str_eq(t, content),
        None => true,
    }
}

/// The step of a call of the service manager.
pub fn systemctl(args: &Vec<String>) -> (r: String)
    ensures
        r@ == "systemctl "@ + joined(texts(args@), " "@),
{
    cat2("systemctl ", join(args, " ").as_str())
}

/// How the service manager is called to enable the timers.
pub fn enable_args() -> (r: Vec<String>)
    ensures
        texts(r@) == seq!["enable"@, "--now"@, "bpm.timer"@, "bpm-heavy.timer"@],
{
    let v = vec![
        "enable".to_owned(),
        "--now".to_owned(),
        "bpm.timer".to_owned(),
        "bpm-heavy.timer".to_owned(),
    ];
    assert(texts(v@) =~= seq!["enable"@, "--now"@, "bpm.timer"@, "bpm-heavy.timer"@]);
    v
}

/// What is known of the places that a setup touches.
pub struct SetupFacts {
    pub cfg_path: String,
    pub cfg_exists: bool,
    /// The configuration file holds the default already.
    pub cfg_is_default: bool,
    pub force_config: bool,
    pub hooks_dir: String,
    pub hooks_dir_exists: bool,
}

/// The first steps: the configuration and the directory of the hooks.
pub open spec fn first_texts(f: SetupFacts) -> Seq<Seq<char>> {
    (if (!f.cfg_exists || f.force_config) && !f.cfg_is_default {
        seq!["write "@ + f.cfg_path@]
    } else {
        Seq::empty()
    }) + (if f.hooks_dir_exists {
        Seq::empty()
    } else {
        seq!["create "@ + f.hooks_dir@]
    })
}

/// The first steps: the configuration and the directory of the hooks.
pub fn first_steps(f: &SetupFacts) -> (r: Vec<String>)
    ensures
        texts(r@) == first_texts(*f),
{
    let mut out: Vec<String> = Vec::new();
    if (!f.cfg_exists || f.force_config) && !f.cfg_is_default {
        out.push(cat2("write ", f.cfg_path.as_str()));
    }
    if !f.hooks_dir_exists {
        out.push(cat2("create ", f.hooks_dir.as_str()));
    }
    assert(texts(out@) =~= first_texts(*f));
    out
}

/// What is known of a root that is a directory.
pub struct StoreFacts {
    pub dir: String,
    pub dir_exists: bool,
    pub is_subvolume: bool,
    /// What is written down of the store is there.
    pub initialized: bool,
    pub info_path: String,
}

/// What is done about the store of a root.
pub enum StoreAction {
    /// Create its subvolume.
    Create,
    /// Create its directories and write down what it is.
    Initialize,
}

/// What is done about the store of a root: its subvolume is created where nothing is there, and
/// what it is is written down where that is missing; a dry run writes nothing down.
pub fn store_actions(f: &StoreFacts, dry_run: bool) -> (r: Result<Vec<StoreAction>, String>)
    ensures
        match r {
            Ok(v) => (f.dir_exists ==> f.is_subvolume) && v@ == (if f.dir_exists {
                Seq::empty()
            } else {
                seq![StoreAction::Create]
            }) + (if f.initialized || dry_run {
                Seq::empty()
            } else {
                seq![StoreAction::Initialize]
            }),
            Err(m) => f.dir_exists && !f.is_subvolume && m@ == f.dir@
                + " exists but is not a subvolume; move it away and rerun setup"@,
        },
{
    let mut out: Vec<StoreAction> = Vec::new();
    match store_step(f.dir.as_str(), f.dir_exists, f.is_subvolume) {
        StoreStep::Fail(m) => {
            return Err(m);
        },
        StoreStep::Create => {
            out.push(StoreAction::Create);
        },
        StoreStep::Keep => {},
    }
    if !f.initialized && !dry_run {
        out.push(StoreAction::Initialize);
    }
    Ok(out)
}

/// How a step about the store of a root is called.
pub fn store_text(f: &StoreFacts, a: &StoreAction) -> (r: String)
    ensures
        r@ == match a {
            StoreAction::Create => "create store subvolume "@ + f.dir@,
            StoreAction::Initialize => "initialize "@ + f.info_path@,
        },
{
    match a {
        StoreAction::Create => cat2("create store subvolume ", f.dir.as_str()),
        StoreAction::Initialize => cat2("initialize ", f.info_path.as_str()),
    }
}

/// The roots among the first `n` that are there.
pub open spec fn present(roots: Seq<(String, bool)>, n: int) -> Seq<Seq<char>>
    decreases n,
{
    if n <= 0 {
        Seq::empty()
    } else if roots[n - 1].1 {
        present(roots, n - 1).push(roots[n - 1].0@)
    } else {
        present(roots, n - 1)
    }
}

/// The places that the units may write to: the roots that are there, and, where it is there, the
/// directory that holds the archives; the service manager does without that one if it is missing.
pub fn writable(roots: &Vec<(String, bool)>, archives: Option<&str>) -> (r: Vec<String>)
    ensures
        texts(r@) == present(roots@, roots@.len() as int) + (match archives {
            Some(p) => seq!["-"@ + p@],
            None => Seq::empty(),
        }),
{
    let mut out: Vec<String> = Vec::new();
    let mut i: usize = 0;
    assert(texts(out@) =~= present(roots@, 0));
    while i < roots.len()
        invariant
            i <= roots@.len(),
            texts(out@) == present(roots@, i as int),
        decreases roots@.len() - i,
    {
        let ghost before = texts(out@);
        if roots[i].1 {
            out.push(roots[i].0.clone());
            assert(texts(out@) =~= before.push(roots@[i as int].0@));
        }
        i += 1;
    }
    match archives {
        Some(p) => {
            out.push(cat2("-", p));
        },
        None => {},
    }
    assert(texts(out@) =~= present(roots@, roots@.len() as int) + (match archives {
        Some(p) => seq!["-"@ + p@],
        None => Seq::empty(),
    }));
    out
}

/// How the service manager is called: to read changed units again, and to enable the timers.
pub fn unit_calls(changed: bool, no_enable: bool) -> (r: Vec<Vec<String>>)
    ensures
        row_texts(r@) == (if changed {
            seq![seq!["daemon-reload"@]]
        } else {
            Seq::empty()
        }) + (if no_enable {
            Seq::empty()
        } else {
            seq![seq!["enable"@, "--now"@, "bpm.timer"@, "bpm-heavy.timer"@]]
        }),
{
    let mut out: Vec<Vec<String>> = Vec::new();
    if changed {
        let reload = vec!["daemon-reload".to_owned()];
        assert(texts(reload@) =~= seq!["daemon-reload"@]);
        out.push(reload);
    }
    if !no_enable {
        out.push(enable_args());
    }
    assert(row_texts(out@) =~= (if changed {
        seq![seq!["daemon-reload"@]]
    } else {
        Seq::empty()
    }) + (if no_enable {
        Seq::empty()
    } else {
        seq![seq!["enable"@, "--now"@, "bpm.timer"@, "bpm-heavy.timer"@]]
    }));
    out
}

/// What is said of a call of the service manager that failed.
pub fn systemctl_failed(args: &Vec<String>) -> (r: String)
    ensures
        r@ == "systemctl "@ + joined(texts(args@), " "@) + " failed"@,
{
    cat2(systemctl(args).as_str(), " failed")
}

/// What is said of a program that is not there yet.
pub fn missing_program(bin: &str) -> (r: String)
    ensures
        r@ == bin@ + " does not exist yet; install the binary there (see scripts/install.sh)"@,
{
    cat2(bin, " does not exist yet; install the binary there (see scripts/install.sh)")
}

/// What is done about the store of a root.
pub enum StoreStep {
    /// It is there.
    Keep,
    /// Create its subvolume.
    Create,
    /// Something else stands in its place.
    Fail(String),
}

/// What is done about the store of a root.
pub fn store_step(dir: &str, exists_there: bool, is_subvolume: bool) -> (r: StoreStep)
    ensures
        match r {
            StoreStep::Keep => exists_there && is_subvolume,
            StoreStep::Create => !exists_there,
            StoreStep::Fail(m) => exists_there && !is_subvolume && m@ == dir@
                + " exists but is not a subvolume; move it away and rerun setup"@,
        },
{
    if !exists_there {
        StoreStep::Create
    } else if is_subvolume {
        StoreStep::Keep
    } else {
        StoreStep::Fail(
            cat2(dir, " exists but is not a subvolume; move it away and rerun setup"),
        )
    }
}

/// What is written down of a new store.
pub fn store_info(root: &str, root_uuid: Uuid, version: &str, now: Timestamp) -> (r: StoreInfo)
    ensures
        r.format == 1,
        r.root@ == root@,
        r.root_uuid == root_uuid,
        r.created == now,
        r.bpm_version@ == version@,
{
    StoreInfo {
        format: 1,
        root: root.to_owned(),
        root_uuid,
        created: now,
        bpm_version: version.to_owned(),
    }
}

/// What is said of a root that is no subvolume.
pub fn plain_root(root: &str) -> (r: String)
    ensures
        r@ == root@
            + " is not a subvolume root: projects can still be managed, but container snapshots are disabled"@,
{
    cat2(
        root,
        " is not a subvolume root: projects can still be managed, but container snapshots are disabled",
    )
}

/// What is said of a root that does not exist.
pub fn missing_root(root: &str) -> (r: String)
    ensures
        r@ == "root "@ + root@ + " does not exist; skipped"@,
{
    cat3("root ", root, " does not exist; skipped")
}

/// What to do after a setup, but for the name of an option.
pub const NEXT_STEPS: &'static str =
    "\n\nnext:\n  bpm status               # what is managed, what is not\n  bpm migrate-from-snapper # if snapper snapshots this root\n  bpm adopt --all          # or let the timer adopt projects one per tick\n  bpm setup --print-";

/// What is printed of a setup; `agent` is the tool whose hook can be printed.
pub fn run(steps: &Vec<String>, agent: &str) -> (r: String)
    ensures
        r@ == (if steps@.len() == 0 {
            "already set up"@
        } else {
            joined(texts(steps@), "\n"@)
        }) + NEXT_STEPS@ + agent@ + "-hook"@,
{
    let done = if steps.len() == 0 {
        "already set up".to_owned()
    } else {
        join(steps, "\n")
    };
    cat4(done.as_str(), NEXT_STEPS, agent, "-hook")
}

/// The configuration is written where there is none or that is forced, unless it is there already
/// as it would be written; the directory of the hooks is made where it is missing.
pub proof fn law_setup_begins_with_what_is_missing(f: SetupFacts)
    ensures
        first_texts(f).len() == (if !f.cfg_is_default && (f.force_config || !f.cfg_exists) {
            1int
        } else {
            0
        }) + (if f.hooks_dir_exists {
            0int
        } else {
            1
        }),
{
}

/// The units may write to the roots that are there, in their order.
pub proof fn law_units_write_to_roots_that_are_there(
    roots: Seq<(String, bool)>,
    n: int,
)
    requires
        0 < n <= roots.len(),
    ensures
        present(roots, 0).len() == 0,
        roots[n - 1].1 ==> present(roots, n) == present(roots, n - 1).push(roots[n - 1].0@),
        !roots[n - 1].1 ==> present(roots, n) == present(roots, n - 1),
{
}

} // verus!
