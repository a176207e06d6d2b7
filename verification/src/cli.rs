//! The commands and their options, as plain values.

use vstd::prelude::*;

use crate::outside;
use crate::util::text::{char_is_space, chars_of};
use crate::util::time::Duration;

verus! {

/// What stands further on only adds seconds.
proof fn lemma_seconds_grow(s: Seq<char>, i: int, k: int)
    requires
        0 <= i <= k,
    ensures
        outside::seconds_upto(s, i) <= outside::seconds_upto(s, k),
    decreases k,
{
    if i < k {
        lemma_seconds_grow(s, i, k - 1);
    }
}

fn seconds_at_most(v: &Vec<char>, i: usize) -> (r: u128)
    requires
        i < v@.len(),
    ensures
        r == outside::most_seconds(v@, i as int),
        1 <= r <= 31_557_600,
{
    let c = v[i];
    let next = if v.len() - i > 1 {
        v[i + 1]
    } else {
        ' '
    };
    match c {
        's' | 'n' | 'u' | 'µ' => 1,
        'm' => if next == 'o' {
            2_630_016
        } else {
            60
        },
        'M' => 2_630_016,
        'h' => 3_600,
        'd' => 86_400,
        'w' => 604_800,
        _ => 31_557_600,
    }
}

/// Whether [`dur`] takes a text: one that cannot write as many seconds as 64 bits can count.
pub fn reads_dur(s: &str) -> (r: bool)
    ensures
        r == outside::is_tame(s@),
{
    let all = chars_of(s);
    let most: u128 = u64::MAX as u128;
    let mut i: usize = 0;
    let mut total: u128 = 0;
    // the number so far, or something above `most` where it is above that
    let mut number: u128 = 0;
    while i < all.len()
        invariant
            all@ == s@,
            most == u64::MAX,
            i <= all@.len(),
            total == outside::seconds_upto(s@, i as int),
            total < most,
            number <= most * 10 + 9,
            number <= most ==> number == outside::number_upto(s@, i as int),
            number > most ==> outside::number_upto(s@, i as int) > most,
        decreases all@.len() - i,
    {
        let c = all[i];
        if '0' <= c && c <= '9' {
            if number <= most {
                let d: u128 = c as u128 - 48;
                number = number * 10 + d;
            }
        } else if !char_is_space(c) {
            let per: u128 = seconds_at_most(&all, i);
            let ghost n = outside::number_upto(s@, i as int);
            assert((n + 1) * per >= n + 1) by (nonlinear_arith)
                requires
                    per >= 1,
            ;
            if number > most {
                proof {
                    lemma_seconds_grow(s@, i + 1, s@.len() as int);
                }
                return false;
            }
            assert((number + 1) * per <= (most + 1) * 31_557_600) by (nonlinear_arith)
                requires
                    number <= most,
                    1 <= per <= 31_557_600,
            ;
            total = total + (number + 1) * per;
            number = 0;
            if total >= most {
                proof {
                    lemma_seconds_grow(s@, i + 1, s@.len() as int);
                }
                return false;
            }
        }
        i += 1;
    }
    true
}

/// The duration that an option like `2min 12s` writes, or why it writes none.
pub fn dur(s: &str) -> (r: Result<Duration, String>)
    requires
        outside::is_tame(s@),
    ensures
        match r {
            Ok(d) => outside::reads_as(s@, d.ns as nat),
            Err(m) => outside::duration_read(s@) == Err::<nat, Seq<char>>(m@),
        },
{
    outside::parse_duration(s)
}

/// A duration in words, which [`dur`] reads again.
pub fn show_dur(d: Duration) -> (r: String)
    requires
        d.ns / 1_000_000_000 <= u64::MAX,
    ensures
        r@ == outside::duration_written(d.ns as nat),
        outside::reads_as(r@, d.ns as nat),
{
    let secs: u64 = (d.ns / 1_000_000_000) as u64;
    let nanos: u32 = (d.ns % 1_000_000_000) as u32;
    outside::format_duration(secs, nanos)
}

/// A whole command line.
pub struct Cli {
    pub global: GlobalArgs,
    pub cmd: Cmd,
}

/// Options of every command.
pub struct GlobalArgs {
    /// Machine-readable output.
    pub json: bool,
    /// Show what would change without changing anything.
    pub dry_run: bool,
    /// How much more is logged.
    pub verbose: u8,
    /// Only warnings and errors.
    pub quiet: bool,
    /// Never start again through sudo.
    pub no_sudo: bool,
    /// Run no user hooks.
    pub no_hooks: bool,
    pub config: Option<String>,
    /// Restrict to one root.
    pub root: Option<String>,
}

pub enum Cmd {
    Setup(SetupArgs),
    Adopt(AdoptArgs),
    Tick(TickArgs),
    Snap(SnapArgs),
    Wrap(WrapArgs),
    List(ListArgs),
    Status(StatusArgs),
    Diff(DiffArgs),
    Restore(RestoreArgs),
    Rollback(RollbackArgs),
    Rm(RmArgs),
    Hold(HoldArgs),
    Unhold(HoldArgs),
    Freeze(FreezeArgs),
    Unfreeze(UnfreezeArgs),
    Recompress(RecompressArgs),
    Archive(ArchiveArgs),
    Unarchive(UnarchiveArgs),
    Forget(ForgetArgs),
    Convert(ConvertArgs),
    Config(ConfigArgs),
    Hooks { cmd: HooksCmd },
    MigrateFromSnapper(MigrateArgs),
    Doctor(DoctorArgs),
    Completions { shell: String },
}

/// A command that only reads, or that starts another one which asks for itself.
pub open spec fn runs_as_anyone(c: Cmd) -> bool {
    match c {
        Cmd::List(_) => true,
        Cmd::Diff(_) => true,
        Cmd::Config(_) => true,
        Cmd::Completions { .. } => true,
        Cmd::Wrap(_) => true,
        Cmd::Status(a) => !a.du,
        Cmd::Doctor(a) => !a.fix,
        Cmd::Hooks { cmd } => cmd is List,
        Cmd::Snap(a) => a.claude_hook,
        Cmd::Setup(a) => a.print_claude_hook,
        _ => false,
    }
}

impl Cmd {
    /// Whether the command needs root.
    pub fn needs_root(&self) -> (r: bool)
        ensures
            r == !runs_as_anyone(*self),
    {
        match self {
            Cmd::List(_) => false,
            Cmd::Diff(_) => false,
            Cmd::Config(_) => false,
            Cmd::Completions { .. } => false,
            Cmd::Wrap(_) => false,
            Cmd::Status(a) => a.du,
            Cmd::Doctor(a) => a.fix,
            Cmd::Hooks { cmd } => matches!(cmd, HooksCmd::Run(_)),
            Cmd::Snap(a) => !a.claude_hook,
            Cmd::Setup(a) => !a.print_claude_hook,
            _ => true,
        }
    }
}

pub struct SetupArgs {
    pub no_units: bool,
    /// Install units but do not enable the timers.
    pub no_enable: bool,
    /// Overwrite an existing configuration with the default.
    pub force_config: bool,
    pub print_claude_hook: bool,
    /// The program that the units start.
    pub bin: String,
}

pub struct AdoptArgs {
    pub projects: Vec<String>,
    pub all: bool,
    /// Start banned directories empty instead of copying their contents.
    pub no_keep_build: bool,
    /// Proceed even if files are open for writing.
    pub force: bool,
    /// Also compare the full path listing after copying.
    pub verify_paths: bool,
}

pub struct TickArgs {
    pub projects: Vec<String>,
    pub no_heavy: bool,
    pub heavy_only: bool,
    /// Wait this long for another run to finish.
    pub lock_timeout: Duration,
}

pub struct SnapArgs {
    pub project: Option<String>,
    pub all: bool,
    /// Snapshot the root container.
    pub container: bool,
    pub reason: String,
    pub kind: String,
    /// Skip if the newest snapshot is younger than this.
    pub throttle: Option<Duration>,
    /// Skip if nothing changed since the newest snapshot.
    pub if_changed: bool,
    /// Skip the walk that counts files.
    pub quick: bool,
    pub hold: bool,
    /// Pair this snapshot with another.
    pub pair: Option<u64>,
    pub lock_timeout: Option<Duration>,
    /// Read the request of a tool on standard input, and never fail.
    pub claude_hook: bool,
    /// Never fail.
    pub never_fail: bool,
}

pub struct WrapArgs {
    pub project: Option<String>,
    pub reason: String,
    pub command: Vec<String>,
}

pub struct ListArgs {
    pub project: Option<String>,
    pub container: bool,
    pub kind: Option<String>,
    pub held: bool,
    pub limit: Option<usize>,
}

pub struct StatusArgs {
    pub project: Option<String>,
    /// Also list unadopted directories and other entries.
    pub unadopted: bool,
    /// Include the sizes of snapshots.
    pub du: bool,
}

pub struct DiffArgs {
    pub project: String,
    pub from: String,
    pub to: Option<String>,
    pub stat: bool,
    pub name_only: bool,
    pub path: Option<String>,
}

pub struct RestoreArgs {
    pub project: String,
    pub snapshot: Option<String>,
    pub paths: Vec<String>,
    pub to: Option<String>,
    /// Replace existing files.
    pub overwrite: bool,
    /// Recreate the whole project.
    pub recreate: bool,
}

pub struct RollbackArgs {
    pub project: String,
    pub snapshot: String,
    /// Delete the current build directories instead of keeping them.
    pub drop_build_dirs: bool,
    /// Proceed even if files are open for writing.
    pub force: bool,
}

pub struct RmArgs {
    pub project: Option<String>,
    pub snapshots: Vec<String>,
    pub force_held: bool,
    /// Delete snapshots of the root container; every argument is a snapshot.
    pub container: bool,
}

pub struct HoldArgs {
    pub project: String,
    pub snapshots: Vec<String>,
    pub note: String,
}

pub struct FreezeArgs {
    pub project: String,
    pub reason: String,
}

pub struct UnfreezeArgs {
    pub project: String,
    /// Also release the snapshots that the shrink guard holds.
    pub release_holds: bool,
}

pub struct RecompressArgs {
    pub projects: Vec<String>,
    pub level: Option<u8>,
    pub all_cold: bool,
    /// Skip the compressibility sample.
    pub force: bool,
}

pub struct ArchiveArgs {
    pub project: String,
    pub snapshot: Option<String>,
    pub dest: Option<String>,
    pub level: Option<u8>,
    /// Send compressed data as it is.
    pub fast: bool,
    pub delete_snapshots: bool,
    pub delete_live: bool,
    /// Confirm destructive options.
    pub yes: bool,
}

pub struct UnarchiveArgs {
    pub project: String,
    pub file: Option<String>,
    /// Only receive into the store.
    pub no_live: bool,
}

pub struct ForgetArgs {
    pub project: String,
    pub delete_snapshots: bool,
    pub yes: bool,
}

pub struct ConvertArgs {
    pub project: String,
    pub path: String,
    pub discard_contents: bool,
    pub force: bool,
}

pub struct ConfigArgs {
    pub project: Option<String>,
    pub show_origin: bool,
    /// Print the default configuration.
    pub default: bool,
}

pub enum HooksCmd {
    List { project: Option<String> },
    Run(HookRunArgs),
}

pub struct HookRunArgs {
    pub event: String,
    pub project: String,
}

pub struct MigrateArgs {
    pub snapper_config: String,
    /// Adopt every project now.
    pub adopt_all: bool,
    /// Import the snapshots as held ones of the container.
    pub import: bool,
    /// Delete the old snapshots and their configuration at the end.
    pub delete_snapper: bool,
    pub yes: bool,
}

pub struct DoctorArgs {
    pub fix: bool,
}

/// Whatever changes a project, a snapshot or the machine needs root; what only looks does not, nor
/// does a hook or a wrapper that starts the command again for itself.
pub proof fn law_what_changes_anything_needs_root(c: Cmd)
    ensures
        c is Adopt || c is Tick || c is Restore || c is Rollback || c is Rm || c is Hold
            || c is Unhold || c is Freeze || c is Unfreeze || c is Recompress || c is Archive
            || c is Unarchive || c is Forget || c is Convert || c is MigrateFromSnapper
            ==> !runs_as_anyone(c),
        c is List || c is Diff || c is Config || c is Completions || c is Wrap ==> runs_as_anyone(c),
        c matches Cmd::Doctor(a) ==> (runs_as_anyone(c) <==> !a.fix),
        c matches Cmd::Status(a) ==> (runs_as_anyone(c) <==> !a.du),
        c matches Cmd::Snap(a) ==> (runs_as_anyone(c) <==> a.claude_hook),
        c matches Cmd::Setup(a) ==> (runs_as_anyone(c) <==> a.print_claude_hook),
        c matches Cmd::Hooks { cmd } ==> (runs_as_anyone(c) <==> cmd is List),
{
}

} // verus!
