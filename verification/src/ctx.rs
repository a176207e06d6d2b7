//! Who runs a command, and with what options.

use vstd::prelude::*;

use crate::config::schema::{Config, RootCfg};
#[allow(unused_imports)]
use crate::config::schema::{container_default, same_root, AdoptMode};
#[allow(unused_imports)]
use crate::config::value::{table_model, table_wf, Model};
use crate::store::Origin;
use crate::util::paths::path_eq;
#[allow(unused_imports)]
use crate::util::paths::same_path;
use crate::util::text::parse_u32;
#[allow(unused_imports)]
use crate::util::text::{dec, law_number_round_trip, parsed};

verus! {

#[derive(Clone, Debug)]
pub struct Opts {
    pub json: bool,
    pub dry_run: bool,
    pub verbose: u8,
    pub quiet: bool,
    pub no_sudo: bool,
    pub no_hooks: bool,
    pub root: Option<String>,
    pub config: Option<String>,
}

/// Who started the command.
#[derive(Clone, Debug)]
pub struct Invoker {
    pub uid: u32,
    pub gid: u32,
    pub user: String,
    pub argv: String,
}

/// What the environment says of who started the command.
pub struct Identity {
    pub euid: u32,
    pub uid: u32,
    pub gid: u32,
    pub sudo_uid: Option<String>,
    pub sudo_gid: Option<String>,
    pub sudo_user: Option<String>,
    pub user: Option<String>,
}

pub open spec fn number_in(s: Option<String>) -> Option<nat> {
    match s {
        Some(t) => parsed(t@, u32::MAX as nat),
        None => None,
    }
}

/// Whether the command was started through sudo.
pub open spec fn through_sudo(i: Identity) -> bool {
    i.euid == 0 && number_in(i.sudo_uid) is Some
}

fn number(s: &Option<String>) -> (r: Option<u32>)
    ensures
        match r {
            Some(n) => number_in(*s) == Some(n as nat),
            None => number_in(*s) is None,
        },
{
    match s {
        Some(t) => parse_u32(t.as_str()),
        None => None,
    }
}

impl Invoker {
    /// Who started the command: through sudo, the one that sudo names.
    pub fn detect(i: &Identity, argv: String) -> (r: Invoker)
        ensures
            r.argv == argv,
            through_sudo(*i) ==> r.uid == number_in(i.sudo_uid)->0 && r.gid == (match number_in(
                i.sudo_gid,
            ) {
                Some(g) => g as int,
                None => 0,
            }) && r.user@ == (match i.sudo_user {
                Some(u) => u@,
                None => Seq::empty(),
            }),
            !through_sudo(*i) ==> r.uid == i.uid && r.gid == i.gid && r.user@ == (match i.user {
                Some(u) => u@,
                None => if i.euid == 0 {
                    "root"@
                } else {
                    Seq::empty()
                },
            }),
    {
        if i.euid == 0 {
            if let Some(uid) = number(&i.sudo_uid) {
                let gid: u32 = match number(&i.sudo_gid) {
                    Some(g) => g,
                    None => 0,
                };
                let user = match &i.sudo_user {
                    Some(u) => u.clone(),
                    None => String::new(),
                };
                return Invoker { uid, gid, user, argv };
            }
        }
        let user = match &i.user {
            Some(u) => u.clone(),
            None => if i.euid == 0 {
                "root".to_owned()
            } else {
                String::new()
            },
        };
        Invoker { uid: i.uid, gid: i.gid, user, argv }
    }
}

/// The position of the first root at exactly this path; none where there is no such root.
pub open spec fn root_at(roots: Seq<RootCfg>, path: Seq<char>, n: int) -> Option<int>
    decreases n,
{
    if n <= 0 {
        None
    } else {
        match root_at(roots, path, n - 1) {
            Some(i) => Some(i),
            None => if same_path(roots[n - 1].path@, path) {
                Some(n - 1)
            } else {
                None
            },
        }
    }
}

/// The configured roots, or just the one that was asked for: with its settings where it is
/// configured, with those of a root that no file mentions where it is not.
pub fn roots(cfg: &Config, root: Option<&str>) -> (r: Vec<RootCfg>)
    requires
        forall|i: int| 0 <= i < cfg.roots@.len() ==> table_wf((#[trigger] cfg.roots@[i]).policy),
    ensures
        match root {
            None => r@.len() == cfg.roots@.len() && forall|i: int|
                0 <= i < r@.len() ==> same_root(#[trigger] r@[i], cfg.roots@[i]),
            Some(p) => r@.len() == 1 && match root_at(cfg.roots@, p@, cfg.roots@.len() as int) {
                Some(i) => same_root(r@[0], cfg.roots@[i]),
                None => r@[0].path@ == p@ && r@[0].ignore@.len() == 0 && r@[0].adopt
                    == AdoptMode::Manual && r@[0].adopt_min_age.ns == 900 * 1_000_000_000
                    && r@[0].banlist_add@.len() == 0 && r@[0].container == container_default()
                    && table_wf(r@[0].policy) && table_model(r@[0].policy) == Map::<
                    Seq<char>,
                    Model,
                >::empty(),
            },
        },
{
    let mut out: Vec<RootCfg> = Vec::new();
    let mut i: usize = 0;
    while i < cfg.roots.len()
        invariant
            i <= cfg.roots@.len(),
            forall|i: int|
                0 <= i < cfg.roots@.len() ==> table_wf((#[trigger] cfg.roots@[i]).policy),
            match root {
                None => out@.len() == i && forall|j: int|
                    0 <= j < i ==> same_root(#[trigger] out@[j], cfg.roots@[j]),
                Some(p) => match root_at(cfg.roots@, p@, i as int) {
                    Some(j) => out@.len() == 1 && same_root(out@[0], cfg.roots@[j]),
                    None => out@.len() == 0,
                },
            },
        decreases cfg.roots@.len() - i,
    {
        match root {
            None => {
                out.push(cfg.roots[i].copy());
            },
            Some(p) => {
                if out.len() == 0 && path_eq(cfg.roots[i].path.as_str(), p) {
                    out.push(cfg.roots[i].copy());
                }
            },
        }
        i += 1;
    }
    match root {
        Some(p) => {
            if out.len() == 0 {
                out.push(RootCfg::adhoc(p.to_owned()));
            }
        },
        None => {},
    }
    out
}

/// What is written down of the command that took a snapshot.
pub fn origin(i: &Invoker, version: &str) -> (r: Origin)
    ensures
        r.bpm@ == version@,
        r.user@ == i.user@,
        r.argv@ == i.argv@,
{
    Origin { bpm: version.to_owned(), user: i.user.clone(), argv: i.argv.clone() }
}

/// The root that is asked for is the first one at exactly that path.
pub proof fn law_the_first_root_at_a_path_counts(roots: Seq<RootCfg>, path: Seq<char>, n: int)
    requires
        0 <= n <= roots.len(),
    ensures
        root_at(roots, path, n) matches Some(i) ==> 0 <= i < n && same_path(roots[i].path@, path)
            && forall|j: int| 0 <= j < i ==> !same_path((#[trigger] roots[j]).path@, path),
        root_at(roots, path, n) is None ==> forall|j: int|
            0 <= j < n ==> !same_path((#[trigger] roots[j]).path@, path),
    decreases n,
{
    if n > 0 {
        law_the_first_root_at_a_path_counts(roots, path, n - 1);
    }
}

/// A command was started through sudo where it runs as root and sudo names a user by number.
pub proof fn law_sudo_names_the_user_by_number(i: Identity, n: nat)
    ensures
        i.euid != 0 || i.sudo_uid is None ==> !through_sudo(i),
        i.euid == 0 && n <= u32::MAX && (i.sudo_uid matches Some(t) && t@ == dec(n))
            ==> through_sudo(i) && number_in(i.sudo_uid) == Some(n),
{
    if n <= u32::MAX {
        law_number_round_trip(n, u32::MAX as nat);
    }
}

} // verus!
