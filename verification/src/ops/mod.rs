//! The decisions of the commands.

use vstd::prelude::*;

use crate::config::schema::{GlobalCfg, RootCfg};
use crate::error::BpmError;
use crate::project::locate_path;
#[allow(unused_imports)]
use crate::project::holds;
use crate::store::snapid::{resolve_str, resolve_text};
#[allow(unused_imports)]
use crate::store::snapid::{
    law_selectors_are_read_as_written, named_in, selector, selector_text, selects, selects_some,
    SnapSelector,
};
use crate::store::SnapshotMeta;
#[allow(unused_imports)]
use crate::util::relpath::steps;
use crate::util::text::{dec_u64, str_eq, trim};
#[allow(unused_imports)]
use crate::util::text::{dec, trimmed};
use crate::util::time::{Duration, Timestamp};

pub mod adopt;
pub mod archive;
pub mod config_cmd;
pub mod diff;
pub mod doctor;
pub mod freeze;
pub mod hold;
pub mod hooks_cmd;
pub mod list;
pub mod migrate;
pub mod recompress;
pub mod restore;
pub mod rm;
pub mod setup;
pub mod snap;
pub mod status;
pub mod tick;
pub mod wrap;

verus! {

/// The project that contains a directory, for commands that name none.
pub fn project_of(roots: &Vec<RootCfg>, cwd: &str) -> (r: Result<(usize, String), BpmError>)
    ensures
        match r {
            Ok((i, name)) => i < roots@.len() && holds(roots@[i as int].path@, cwd@) && name@
                == steps(cwd@)[steps(roots@[i as int].path@).len() as int] && forall|j: int|
                0 <= j < i ==> !holds((#[trigger] roots@[j]).path@, cwd@),
            Err(e) => (forall|j: int|
                0 <= j < roots@.len() ==> !holds((#[trigger] roots@[j]).path@, cwd@)) && e is Usage
                && e->Usage_0@ == "not inside a managed project; name one explicitly"@,
        },
{
    match locate_path(roots, cwd) {
        Some(x) => Ok(x),
        None => Err(
            BpmError::Usage("not inside a managed project; name one explicitly".to_owned()),
        ),
    }
}

/// A selector with `held` read as the last good snapshot of a frozen project.
pub open spec fn meant(sel: Seq<char>, frozen_ref: Option<u64>) -> Seq<char> {
    match frozen_ref {
        Some(id) => if trimmed(sel) == "held"@ {
            dec(id as nat)
        } else {
            sel
        },
        None => sel,
    }
}

fn meaning(sel: &str, frozen_ref: Option<u64>) -> (r: String)
    ensures
        r@ == meant(sel@, frozen_ref),
{
    if let Some(id) = frozen_ref {
        if str_eq(trim(sel).as_str(), "held") {
            return dec_u64(id);
        }
    }
    sel.to_owned()
}

/// What a selector gives, where `at` is the instant that it names as a local date.
pub open spec fn gives(
    r: Result<&SnapshotMeta, BpmError>,
    sel: Seq<char>,
    at: Option<Timestamp>,
    snaps: Seq<SnapshotMeta>,
) -> bool {
    match selector(sel, at) {
        Ok(x) => match r {
            Ok(m) => exists|i: int|
                0 <= i < snaps.len() && #[trigger] selects(x, snaps, i) && *m == snaps[i],
            Err(e) => !selects_some(x, snaps) && e is NotFound && e->NotFound_0@
                == "no snapshot matches "@ + selector_text(x),
        },
        Err(m) => r is Err && r->Err_0 is Usage && r->Err_0->Usage_0@ == m,
    }
}

/// Resolves a snapshot selector; `held` means the frozen project's last good snapshot.
pub fn select<'a>(
    sel: &str,
    snaps: &'a Vec<SnapshotMeta>,
    tz: &jiff::tz::TimeZone,
    frozen_ref: Option<u64>,
) -> (r: Result<&'a SnapshotMeta, BpmError>)
    ensures
        gives(
            r,
            meant(sel@, frozen_ref),
            named_in(meant(sel@, frozen_ref), *tz),
            snaps@,
        ),
{
    resolve_str(meaning(sel, frozen_ref).as_str(), snaps, tz)
}

/// Resolves a snapshot selector whose meaning as a local date is `at`.
pub fn select_at<'a>(
    sel: &str,
    at: Option<Timestamp>,
    snaps: &'a Vec<SnapshotMeta>,
    frozen_ref: Option<u64>,
) -> (r: Result<&'a SnapshotMeta, BpmError>)
    ensures
        gives(r, meant(sel@, frozen_ref), at, snaps@),
{
    resolve_text(meaning(sel, frozen_ref).as_str(), at, snaps)
}

/// How long a command waits for a lock.
pub fn lock_timeout(g: &GlobalCfg, explicit: Option<Duration>) -> (r: Duration)
    ensures
        r == match explicit {
            Some(d) => d,
            None => g.lock_timeout,
        },
{
    match explicit {
        Some(d) => d,
        None => g.lock_timeout,
    }
}

/// How a command over several projects ends: with an error where some of them failed.
pub fn ended(failed: usize) -> (r: Result<(), BpmError>)
    ensures
        match r {
            Ok(_) => failed == 0,
            Err(e) => failed > 0 && e == (BpmError::Partial { failed }),
        },
{
    if failed > 0 {
        return Err(BpmError::Partial { failed });
    }
    Ok(())
}

/// In a frozen project `held` means the last good snapshot, by its id; anything else, and `held`
/// in a project that is not frozen, means what it says.
pub proof fn law_held_means_the_last_good_snapshot(
    sel: Seq<char>,
    id: u64,
    at: Option<Timestamp>,
)
    ensures
        trimmed(sel) == "held"@ ==> selector(meant(sel, Some(id)), at) == Ok::<
            SnapSelector,
            Seq<char>,
        >(SnapSelector::Id(id)),
        trimmed(sel) != "held"@ ==> meant(sel, Some(id)) == sel,
        meant(sel, None) == sel,
{
    law_selectors_are_read_as_written(id as nat, sel, at);
}

} // verus!
