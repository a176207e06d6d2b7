//! Change detection from subvolume transaction counters.
//!
//! A snapshot inherits the source's `ctransid` and snapshotting does not bump it, so equal
//! `ctransid` means no content change since that snapshot. `generation` is compared with the
//! snapshot's creation transaction as a second signal, because some metadata-only changes
//! (a bare chmod) move `generation` without moving `ctransid`.

use vstd::prelude::*;

use crate::btrfs::SubvolInfo;
use crate::store::{ProjectState, SnapshotMeta};
use crate::util::text::{cat5, dec_u64};
#[allow(unused_imports)]
use crate::util::text::dec;
use crate::util::time::{age, Duration, Timestamp};
#[allow(unused_imports)]
use crate::util::time::elapsed;

verus! {

/// The live subvolume holds what the snapshot holds.
pub open spec fn same_content(live: SubvolInfo, newest: SnapshotMeta) -> bool {
    live.ctransid == newest.source_ctransid && live.generation <= newest.snapshot_otransid
}

pub fn identical(live: &SubvolInfo, newest: &SnapshotMeta) -> (r: bool)
    ensures
        r == same_content(*live, *newest),
{
    live.ctransid == newest.source_ctransid && live.generation <= newest.snapshot_otransid
}

pub open spec fn differs(live: SubvolInfo, newest: Option<&SnapshotMeta>) -> bool {
    match newest {
        None => true,
        Some(n) => !same_content(live, *n),
    }
}

/// Whether anything changed since the newest snapshot.
pub fn changed_since(live: &SubvolInfo, newest: Option<&SnapshotMeta>) -> (r: bool)
    ensures
        r == differs(*live, newest),
{
    match newest {
        None => true,
        Some(n) => !identical(live, n),
    }
}

/// The content changed after the last snapshot and after the last change of the tool itself.
pub open spec fn changed_by_user(live: SubvolInfo, st: ProjectState) -> bool {
    live.ctransid > st.snap_ctransid && live.ctransid > st.tool_ctransid
}

/// A content change not caused by the tool itself: resets the idle clock.
pub fn user_changed(live: &SubvolInfo, st: &ProjectState) -> (r: bool)
    ensures
        r == changed_by_user(*live, *st),
{
    live.ctransid > st.snap_ctransid && live.ctransid > st.tool_ctransid
}

#[derive(Debug, PartialEq, Eq)]
pub enum SnapDecision {
    Take(String),
    Skip(&'static str),
}

pub struct SnapInputs<'a> {
    pub live: &'a SubvolInfo,
    pub newest: Option<&'a SnapshotMeta>,
    pub now: Timestamp,
    pub min_interval: Duration,
    pub free: u64,
    pub min_free: u64,
}

/// The reason of an automatic snapshot.
pub open spec fn change_reason(live: SubvolInfo, newest: Option<&SnapshotMeta>) -> Seq<char> {
    "changed (ctransid "@ + (match newest {
        Some(n) => dec(n.source_ctransid as nat),
        None => "none"@,
    }) + " -> "@ + dec(live.ctransid as nat) + ")"@
}

/// Why no snapshot is taken, in the order in which it is asked; nothing where one is taken.
pub open spec fn skip_reason(i: SnapInputs) -> Option<Seq<char>> {
    if !differs(*i.live, i.newest) {
        Some("unchanged"@)
    } else if i.newest is Some && elapsed(i.now, i.newest->0.created) < i.min_interval.ns {
        Some("min_interval"@)
    } else if i.free < i.min_free {
        Some("low free space"@)
    } else {
        None
    }
}

/// Whether the tick takes a snapshot now, and why or why not.
pub fn decide_auto_snapshot(i: &SnapInputs) -> (r: SnapDecision)
    ensures
        match r {
            SnapDecision::Skip(s) => skip_reason(*i) == Some(s@),
            SnapDecision::Take(s) => skip_reason(*i) is None && s@ == change_reason(
                *i.live,
                i.newest,
            ),
        },
{
    if !changed_since(i.live, i.newest) {
        return SnapDecision::Skip("unchanged");
    }
    if let Some(n) = i.newest {
        if age(i.now, n.created).ns < i.min_interval.ns {
            return SnapDecision::Skip("min_interval");
        }
    }
    if i.free < i.min_free {
        return SnapDecision::Skip("low free space");
    }
    let from = match i.newest {
        Some(n) => dec_u64(n.source_ctransid),
        None => "none".to_owned(),
    };
    SnapDecision::Take(
        cat5("changed (ctransid ", from.as_str(), " -> ", dec_u64(i.live.ctransid).as_str(), ")"),
    )
}

/// An automatic snapshot is taken only of content that no snapshot holds yet, and always of
/// such content once the interval is over and space is not short.
pub proof fn law_snapshots_follow_changes(i: SnapInputs)
    ensures
        skip_reason(i) is None ==> differs(*i.live, i.newest),
        (differs(*i.live, i.newest) && (i.newest is Some ==> elapsed(i.now, i.newest->0.created)
            >= i.min_interval.ns) && i.free >= i.min_free) ==> skip_reason(i) is None,
{
}

/// A snapshot holds what is live exactly where the counter of content changes is the one that it
/// was taken at and nothing happened after the transaction in which it was made: a change that
/// moves one of the two counters alone counts, and without a snapshot everything does.
pub proof fn law_either_counter_tells_of_a_change(live: SubvolInfo, n: &SnapshotMeta)
    ensures
        differs(live, None),
        differs(live, Some(n)) <==> live.ctransid < n.source_ctransid || live.ctransid
            > n.source_ctransid || live.generation > n.snapshot_otransid,
        same_content(live, *n) <==> !differs(live, Some(n)),
{
}

/// The idle clock starts anew exactly where the content changed later than both the last snapshot
/// and the last change of the tool.
pub proof fn law_activity_is_newer_than_the_tool(live: SubvolInfo, st: ProjectState)
    ensures
        changed_by_user(live, st) <==> st.snap_ctransid < live.ctransid && st.tool_ctransid
            < live.ctransid,
{
}

/// The tick takes a snapshot exactly where there is none yet or something changed since the newest
/// one, that one is as old as the interval asks for, and as much space is free as is asked for. A
/// project without snapshots waits for no interval.
pub proof fn law_automatic_snapshots_are_due(i: SnapInputs)
    ensures
        skip_reason(i) is None <==> i.free >= i.min_free && match i.newest {
            None => true,
            Some(n) => (i.live.ctransid != n.source_ctransid || i.live.generation
                > n.snapshot_otransid) && (i.min_interval.ns == 0 || i.now.ns - n.created.ns
                >= i.min_interval.ns),
        },
        skip_reason(i) == Some("low free space"@) ==> i.free < i.min_free,
        skip_reason(i) == Some("unchanged"@) <== i.newest is Some && i.live.ctransid
            == i.newest->0.source_ctransid && i.live.generation <= i.newest->0.snapshot_otransid,
{
    reveal_strlit("unchanged");
    reveal_strlit("min_interval");
    reveal_strlit("low free space");
    assert("unchanged"@.len() == 9 && "min_interval"@.len() == 12 && "low free space"@.len() == 14);
}

} // verus!
