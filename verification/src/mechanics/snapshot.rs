//! Take and delete snapshots. Deletion always proves ownership first.

use vstd::prelude::*;

use crate::btrfs::SubvolInfo;
#[allow(unused_imports)]
use crate::btrfs::uuid_text;
use crate::error::BpmError;
use crate::hooks::HookCtx;
use crate::mechanics::{show_uuid, Target};
#[allow(unused_imports)]
use crate::policy::change::same_content;
#[allow(unused_imports)]
use crate::mechanics::uuid_or_none;
use crate::store::{newest, KindClass, Origin, ProjectRecord, SnapshotKind, SnapshotMeta};
#[allow(unused_imports)]
use crate::store::meta::{class_of, kind_name};
#[allow(unused_imports)]
use crate::store::{is_newest, newest_index};
use crate::util::paths::{path_eq, path_parent};
#[allow(unused_imports)]
use crate::util::paths::{
    law_parents_lie_one_step_up, lemma_rooted_has_no_dot, parent_of, same_path,
};
#[allow(unused_imports)]
use crate::util::relpath::steps;
use crate::util::text::{cat3, cat4, cat5, dec_u64};
#[allow(unused_imports)]
use crate::util::text::dec;
use crate::util::time::{Duration, Timestamp};
use crate::util::walk::TreeStats;

verus! {

pub struct SnapOpts {
    pub kind: SnapshotKind,
    pub reason: String,
    pub stats: bool,
    pub stats_budget: Duration,
    pub hold: bool,
    pub pair: Option<u64>,
}

impl SnapOpts {
    /// A snapshot with counts, not held.
    pub fn new(kind: SnapshotKind, reason: String) -> (r: SnapOpts)
        ensures
            r.kind == kind,
            r.reason == reason,
            r.stats,
            r.stats_budget.ns == 120 * 1_000_000_000,
            !r.hold,
            r.pair is None,
    {
        SnapOpts {
            kind,
            reason,
            stats: true,
            stats_budget: Duration::from_secs(120),
            hold: false,
            pair: None,
        }
    }
}

/// What the hooks around a snapshot are told.
pub fn hook_ctx(t: &Target, id: u64, path: String, o: &SnapOpts) -> (r: HookCtx)
    ensures
        r.project == Some(t.name),
        r.project_path == Some(t.live),
        r.owner == t.owner,
        r.root == Some(t.root),
        r.snapshot == Some((id, path, o.kind)),
        r.stage is None,
        r.reason == o.reason,
        r.extra@ == Seq::<(String, String)>::empty(),
{
    HookCtx {
        project: Some(t.name.clone()),
        project_path: Some(t.live.clone()),
        owner: t.owner,
        root: Some(t.root.clone()),
        snapshot: Some((id, path, o.kind)),
        stage: None,
        reason: o.reason.clone(),
        extra: Vec::new(),
    }
}

/// What came of an attempt to reserve an id by making its directory.
#[derive(Clone, Copy, Debug, PartialEq, Eq, Structural)]
pub enum Attempt {
    /// The directory was made and no snapshot has the id.
    Made,
    /// The directory was made, but a snapshot with the id is there.
    Taken,
    /// Someone else made the directory.
    Raced,
    Failed,
}

/// What comes after an attempt to reserve an id.
#[derive(Clone, Copy, Debug, PartialEq, Eq, Structural)]
pub enum Reservation {
    /// The id is reserved.
    Reserved,
    /// Try the next id; `undo` says to remove the directory first.
    Again { undo: bool },
    /// The last attempt failed for a reason of its own.
    Error,
    /// There were too many attempts.
    GiveUp,
}

/// How often an id is tried.
pub const RESERVE_ATTEMPTS: u32 = 100;

/// What comes after an attempt to reserve an id.
pub open spec fn reserved_after(n: u32, a: Attempt) -> Reservation {
    match a {
        Attempt::Made => Reservation::Reserved,
        Attempt::Failed => Reservation::Error,
        Attempt::Taken => if n < RESERVE_ATTEMPTS {
            Reservation::Again { undo: true }
        } else {
            Reservation::GiveUp
        },
        Attempt::Raced => if n < RESERVE_ATTEMPTS {
            Reservation::Again { undo: false }
        } else {
            Reservation::GiveUp
        },
    }
}

/// What comes after attempt number `n`, counted from one.
pub fn reserve_next(n: u32, a: Attempt) -> (r: Reservation)
    ensures
        r == match a {
            Attempt::Made => Reservation::Reserved,
            Attempt::Failed => Reservation::Error,
            Attempt::Taken => if n < RESERVE_ATTEMPTS {
                Reservation::Again { undo: true }
            } else {
                Reservation::GiveUp
            },
            Attempt::Raced => if n < RESERVE_ATTEMPTS {
                Reservation::Again { undo: false }
            } else {
                Reservation::GiveUp
            },
        },
        r == reserved_after(n, a),
{
    match a {
        Attempt::Made => Reservation::Reserved,
        Attempt::Failed => Reservation::Error,
        Attempt::Taken => if n < RESERVE_ATTEMPTS {
            Reservation::Again { undo: true }
        } else {
            Reservation::GiveUp
        },
        Attempt::Raced => if n < RESERVE_ATTEMPTS {
            Reservation::Again { undo: false }
        } else {
            Reservation::GiveUp
        },
    }
}

/// Whether the live subvolume is the one that the store expects.
pub fn check_live(t: &Target, live: &SubvolInfo) -> (r: Result<(), String>)
    ensures
        match r {
            Ok(_) => t.expected_uuid is Some ==> t.expected_uuid->0@ == live.uuid@,
            Err(m) => t.expected_uuid is Some && t.expected_uuid->0@ != live.uuid@ && m@ == t.live@
                + " is subvolume "@ + uuid_text(live.uuid@) + " but the store expects "@
                + uuid_text(t.expected_uuid->0@),
        },
{
    if let Some(u) = t.expected_uuid {
        if !live.uuid.same(&u) {
            return Err(
                cat5(
                    t.live.as_str(),
                    " is subvolume ",
                    live.uuid.to_string().as_str(),
                    " but the store expects ",
                    u.to_string().as_str(),
                ),
            );
        }
    }
    Ok(())
}

/// Whether a new snapshot is one of the live subvolume.
pub fn check_parent(snap: &SubvolInfo, live: &SubvolInfo) -> (r: Result<(), String>)
    ensures
        match r {
            Ok(_) => snap.parent_uuid is Some && snap.parent_uuid->0@ == live.uuid@,
            Err(m) => !(snap.parent_uuid is Some && snap.parent_uuid->0@ == live.uuid@) && m@
                == "snapshot parent uuid "@ + uuid_or_none(snap.parent_uuid)
                + " does not match live "@ + uuid_text(live.uuid@),
        },
{
    let ok = match &snap.parent_uuid {
        Some(p) => p.same(&live.uuid),
        None => false,
    };
    if ok {
        Ok(())
    } else {
        Err(
            cat4(
                "snapshot parent uuid ",
                show_uuid(&snap.parent_uuid).as_str(),
                " does not match live ",
                live.uuid.to_string().as_str(),
            ),
        )
    }
}

/// A record has the counters and the identity of the snapshot itself.
pub open spec fn has_counters(m: SnapshotMeta, snap: SubvolInfo) -> bool {
    m.source_ctransid == snap.ctransid && m.snapshot_otransid == snap.otransid && m.snapshot_uuid
        == snap.uuid
}

/// What any record of a new snapshot says.
pub open spec fn recorded(m: SnapshotMeta, t: Target, o: SnapOpts, id: u64, now: Timestamp) -> bool {
    &&& m.format == 1
    &&& m.id == id
    &&& m.project@ == t.name@
    &&& m.created == now
    &&& m.kind == o.kind
    &&& m.reason@ == o.reason@
    &&& m.pair == o.pair
    &&& m.hold == o.hold
    &&& m.received_uuid is None
}

/// The record that a snapshot would have, were it taken now.
pub fn planned_meta(
    t: &Target,
    o: &SnapOpts,
    id: u64,
    now: Timestamp,
    live: &SubvolInfo,
    origin: Origin,
) -> (m: SnapshotMeta)
    ensures
        recorded(m, *t, *o, id, now),
        m.hold_note@.len() == 0,
        m.source_uuid == live.uuid,
        m.source_ctransid == live.ctransid,
        m.snapshot_uuid@ == Seq::new(16, |i: int| 0u8),
        m.snapshot_otransid == live.generation,
        m.stats is None,
        m.origin == origin,
{
    SnapshotMeta {
        format: 1,
        id,
        project: t.name.clone(),
        created: now,
        kind: o.kind,
        reason: o.reason.clone(),
        pair: o.pair,
        hold: o.hold,
        hold_note: String::new(),
        source_uuid: live.uuid,
        source_ctransid: live.ctransid,
        snapshot_uuid: crate::btrfs::Uuid::nil(),
        snapshot_otransid: live.generation,
        received_uuid: None,
        stats: None,
        origin,
    }
}

/// The record of a snapshot that was taken: it holds the counters that the snapshot has.
pub fn taken_meta(
    t: &Target,
    o: &SnapOpts,
    id: u64,
    now: Timestamp,
    live: &SubvolInfo,
    snap: &SubvolInfo,
    stats: Option<TreeStats>,
    origin: Origin,
) -> (m: SnapshotMeta)
    ensures
        recorded(m, *t, *o, id, now),
        m.hold_note@ == if o.hold {
            "held at creation"@
        } else {
            Seq::empty()
        },
        m.source_uuid == live.uuid,
        m.source_ctransid == snap.ctransid,
        m.snapshot_uuid == snap.uuid,
        m.snapshot_otransid == snap.otransid,
        m.stats == stats,
        m.origin == origin,
        has_counters(m, *snap),
{
    let hold_note = if o.hold {
        "held at creation".to_owned()
    } else {
        String::new()
    };
    SnapshotMeta {
        format: 1,
        id,
        project: t.name.clone(),
        created: now,
        kind: o.kind,
        reason: o.reason.clone(),
        pair: o.pair,
        hold: o.hold,
        hold_note,
        source_uuid: live.uuid,
        source_ctransid: snap.ctransid,
        snapshot_uuid: snap.uuid,
        snapshot_otransid: snap.otransid,
        received_uuid: None,
        stats,
        origin,
    }
}

/// The steps of taking a snapshot, and its ends.
#[derive(Clone, Copy, Debug, PartialEq, Eq, Structural)]
pub enum TakeStep {
    PreHook,
    Snapshot,
    Flush,
    /// Read the new snapshot's counters and check whose snapshot it is.
    Inspect,
    WriteMeta,
    /// Give the directory its final name.
    Publish,
    PostHook,
    Done,
    /// Failed with only the reserved directory to remove.
    RemoveTmp,
    /// Failed with the new snapshot and its directory to remove.
    RemoveSnapshot,
    /// Failed with nothing to remove: the snapshot is there.
    Fail,
}

/// The step after one that went well or did not.
pub open spec fn after_step(s: TakeStep, ok: bool) -> TakeStep {
    match s {
        TakeStep::PreHook => if ok {
            TakeStep::Snapshot
        } else {
            TakeStep::RemoveTmp
        },
        TakeStep::Snapshot => if ok {
            TakeStep::Flush
        } else {
            TakeStep::RemoveTmp
        },
        TakeStep::Flush => if ok {
            TakeStep::Inspect
        } else {
            TakeStep::RemoveSnapshot
        },
        TakeStep::Inspect => if ok {
            TakeStep::WriteMeta
        } else {
            TakeStep::RemoveSnapshot
        },
        TakeStep::WriteMeta => if ok {
            TakeStep::Publish
        } else {
            TakeStep::RemoveSnapshot
        },
        TakeStep::Publish => if ok {
            TakeStep::PostHook
        } else {
            TakeStep::RemoveSnapshot
        },
        TakeStep::PostHook => if ok {
            TakeStep::Done
        } else {
            TakeStep::Fail
        },
        end => end,
    }
}

/// The step after one that went well or did not.
pub fn take_next(s: TakeStep, ok: bool) -> (r: TakeStep)
    ensures
        r == after_step(s, ok),
{
    match (s, ok) {
        (TakeStep::PreHook, true) => TakeStep::Snapshot,
        (TakeStep::PreHook, false) => TakeStep::RemoveTmp,
        (TakeStep::Snapshot, true) => TakeStep::Flush,
        (TakeStep::Snapshot, false) => TakeStep::RemoveTmp,
        (TakeStep::Flush, true) => TakeStep::Inspect,
        (TakeStep::Flush, false) => TakeStep::RemoveSnapshot,
        (TakeStep::Inspect, true) => TakeStep::WriteMeta,
        (TakeStep::Inspect, false) => TakeStep::RemoveSnapshot,
        (TakeStep::WriteMeta, true) => TakeStep::Publish,
        (TakeStep::WriteMeta, false) => TakeStep::RemoveSnapshot,
        (TakeStep::Publish, true) => TakeStep::PostHook,
        (TakeStep::Publish, false) => TakeStep::RemoveSnapshot,
        (TakeStep::PostHook, true) => TakeStep::Done,
        (TakeStep::PostHook, false) => TakeStep::Fail,
        (end, _) => end,
    }
}

/// Where a snapshot ends up when its steps go as `oks` says.
pub open spec fn take_run(oks: Seq<bool>) -> TakeStep
    decreases oks.len(),
{
    if oks.len() == 0 {
        TakeStep::PreHook
    } else {
        after_step(take_run(oks.drop_last()), oks.last())
    }
}

/// How far taking a snapshot has come, where all went well so far.
pub open spec fn take_rank(s: TakeStep) -> int {
    match s {
        TakeStep::PreHook => 0,
        TakeStep::Snapshot => 1,
        TakeStep::Flush => 2,
        TakeStep::Inspect => 3,
        TakeStep::WriteMeta => 4,
        TakeStep::Publish => 5,
        TakeStep::PostHook => 6,
        TakeStep::Done => 7,
        TakeStep::RemoveTmp => -1,
        TakeStep::RemoveSnapshot => -2,
        TakeStep::Fail => -3,
    }
}

/// A snapshot gets its final name only after it was made, flushed, found to be one of the live
/// subvolume and recorded; a veto before that leaves nothing behind.
pub proof fn law_published_snapshots_are_recorded(oks: Seq<bool>)
    ensures
        take_rank(take_run(oks)) >= 0 ==> forall|i: int|
            0 <= i < oks.len() && i < take_rank(take_run(oks)) ==> #[trigger] oks[i],
        take_run(oks) == TakeStep::Fail ==> oks.len() > 6 && forall|i: int|
            0 <= i < 6 ==> #[trigger] oks[i],
        oks.len() > 0 && !oks[0] ==> take_run(oks) == TakeStep::RemoveTmp,
    decreases oks.len(),
{
    if oks.len() > 0 {
        let rest = oks.drop_last();
        law_published_snapshots_are_recorded(rest);
        assert(forall|i: int| 0 <= i < rest.len() ==> rest[i] == oks[i]);
        lemma_take_rank(rest);
        if rest.len() == 0 {
            reveal_with_fuel(take_run, 2);
        }
        let before = take_run(rest);
        if take_rank(take_run(oks)) >= 0 {
            assert forall|i: int| 0 <= i < oks.len() && i < take_rank(take_run(oks)) implies
                #[trigger] oks[i] by {
                if i < rest.len() {
                    assert(rest[i]);
                }
            }
        }
        if take_run(oks) == TakeStep::Fail {
            assert forall|i: int| 0 <= i < 6 implies #[trigger] oks[i] by {
                assert(rest[i]);
            }
        }
    }
}

/// As long as nothing failed, there were at least as many steps as the rank says.
proof fn lemma_take_rank(oks: Seq<bool>)
    ensures
        take_rank(take_run(oks)) <= oks.len(),
        take_rank(take_run(oks)) >= 0 ==> take_rank(take_run(oks)) == oks.len() || take_run(oks)
            == TakeStep::Done,
        take_run(oks) == TakeStep::Fail ==> oks.len() > 6,
    decreases oks.len(),
{
    if oks.len() > 0 {
        lemma_take_rank(oks.drop_last());
    }
}

#[derive(Clone, Copy, Debug, PartialEq, Eq, Structural)]
pub enum DeleteMode {
    /// Retention or collapse: never held, never newest, never keep-class.
    Policy,
    /// Explicit removal: held requires `force_held`; newest allowed.
    User { force_held: bool },
}

/// Whether a snapshot lies where the snapshots of its project lie.
pub fn check_place(canon: &str, unit_canon: &str) -> (r: Result<(), BpmError>)
    ensures
        match r {
            Ok(_) => is_grandchild(canon@, unit_canon@),
            Err(e) => !is_grandchild(canon@, unit_canon@) && e is Refused && e->Refused_0@ == canon@
                + " is not inside "@ + unit_canon@,
        },
{
    let inside = match path_parent(canon) {
        Some(p) => match path_parent(p.as_str()) {
            Some(q) => path_eq(q.as_str(), unit_canon),
            None => false,
        },
        None => false,
    };
    if inside {
        Ok(())
    } else {
        Err(BpmError::Refused(cat3(canon, " is not inside ", unit_canon)))
    }
}

/// `path` is two steps below `dir`.
pub open spec fn is_grandchild(path: Seq<char>, dir: Seq<char>) -> bool {
    match parent_of(path) {
        Some(p) => match parent_of(p) {
            Some(q) => same_path(q, dir),
            None => false,
        },
        None => false,
    }
}

/// A snapshot is of the project: its parent is a subvolume that the project has or had, or it
/// was received and is still what was received.
pub open spec fn owned(record: ProjectRecord, info: SubvolInfo, meta: SnapshotMeta) -> bool {
    (info.parent_uuid is Some && record.knows(info.parent_uuid->0@)) || (meta.kind
        == SnapshotKind::Received && info.received_uuid is Some && meta.received_uuid is Some
        && info.received_uuid->0@ == meta.received_uuid->0@)
}

/// Why a snapshot may not be deleted, in the order in which it is asked.
pub open spec fn delete_fault(
    canon: Seq<char>,
    is_subvol: bool,
    info: SubvolInfo,
    record: ProjectRecord,
    snaps: Seq<SnapshotMeta>,
    meta: SnapshotMeta,
    mode: DeleteMode,
) -> Option<Seq<char>> {
    let id = dec(meta.id as nat);
    if !is_subvol {
        Some(canon + " is not a subvolume"@)
    } else if info.flags % 2 != 1 {
        Some(canon + " is not read-only"@)
    } else if info.uuid@ != meta.snapshot_uuid@ {
        Some(
            "snapshot #"@ + id + " uuid "@ + uuid_text(info.uuid@) + " does not match metadata "@
                + uuid_text(meta.snapshot_uuid@),
        )
    } else if !owned(record, info, meta) {
        Some(
            "snapshot #"@ + id + " parent "@ + uuid_or_none(info.parent_uuid)
                + " is not a subvolume of project "@ + record.name@,
        )
    } else {
        match mode {
            DeleteMode::Policy => if meta.hold || class_of(meta.kind) == KindClass::Keep {
                Some(
                    "snapshot #"@ + id + " is held or a keep-kind ("@ + kind_name(meta.kind) + ")"@,
                )
            } else if newest_index(snaps) is Some && snaps[newest_index(snaps)->0].id == meta.id {
                Some("snapshot #"@ + id + " is the newest"@)
            } else {
                None
            },
            DeleteMode::User { force_held } => if meta.hold && !force_held {
                Some(
                    "snapshot #"@ + id + " is held ("@ + meta.hold_note@
                        + "); unhold it or pass --force-held"@,
                )
            } else {
                None
            },
        }
    }
}

/// Whether a snapshot may be deleted; `info` is what btrfs says of it.
pub fn authorize_delete(
    canon: &str,
    is_subvol: bool,
    info: &SubvolInfo,
    record: &ProjectRecord,
    snaps: &Vec<SnapshotMeta>,
    meta: &SnapshotMeta,
    mode: DeleteMode,
) -> (r: Result<(), BpmError>)
    ensures
        match r {
            Ok(_) => delete_fault(canon@, is_subvol, *info, *record, snaps@, *meta, mode) is None,
            Err(e) => e is Refused && delete_fault(
                canon@,
                is_subvol,
                *info,
                *record,
                snaps@,
                *meta,
                mode,
            ) == Some(e->Refused_0@),
        },
{
    if !is_subvol {
        return Err(
            BpmError::Refused(crate::util::text::cat2(canon, " is not a subvolume")),
        );
    }
    if !info.readonly() {
        return Err(BpmError::Refused(crate::util::text::cat2(canon, " is not read-only")));
    }
    let id = dec_u64(meta.id);
    if !info.uuid.same(&meta.snapshot_uuid) {
        let mut m = cat5(
            "snapshot #",
            id.as_str(),
            " uuid ",
            info.uuid.to_string().as_str(),
            " does not match metadata ",
        );
        m.append(meta.snapshot_uuid.to_string().as_str());
        return Err(BpmError::Refused(m));
    }
    let received = meta.kind == SnapshotKind::Received && match (
        &info.received_uuid,
        &meta.received_uuid,
    ) {
        (Some(a), Some(b)) => a.same(b),
        _ => false,
    };
    if !(record.owns(info.parent_uuid) || received) {
        let mut m = cat5(
            "snapshot #",
            id.as_str(),
            " parent ",
            show_uuid(&info.parent_uuid).as_str(),
            " is not a subvolume of project ",
        );
        m.append(record.name.as_str());
        return Err(BpmError::Refused(m));
    }
    match mode {
        DeleteMode::Policy => {
            if meta.hold || meta.kind.class() == KindClass::Keep {
                return Err(
                    BpmError::Refused(
                        cat5(
                            "snapshot #",
                            id.as_str(),
                            " is held or a keep-kind (",
                            meta.kind.as_str(),
                            ")",
                        ),
                    ),
                );
            }
            let is_newest_id = match newest(snaps) {
                Some(n) => n.id == meta.id,
                None => false,
            };
            if is_newest_id {
                return Err(
                    BpmError::Refused(cat3("snapshot #", id.as_str(), " is the newest")),
                );
            }
            Ok(())
        },
        DeleteMode::User { force_held } => {
            if meta.hold && !force_held {
                return Err(
                    BpmError::Refused(
                        cat5(
                            "snapshot #",
                            id.as_str(),
                            " is held (",
                            meta.hold_note.as_str(),
                            "); unhold it or pass --force-held",
                        ),
                    ),
                );
            }
            Ok(())
        },
    }
}

/// Nothing is deleted unless it is a read-only subvolume, the one that its record describes,
/// and of the project; policy never deletes a held snapshot, one of a kept kind, or the newest.
pub proof fn law_deletion_is_proven(
    canon: Seq<char>,
    is_subvol: bool,
    info: SubvolInfo,
    record: ProjectRecord,
    snaps: Seq<SnapshotMeta>,
    meta: SnapshotMeta,
    mode: DeleteMode,
)
    requires
        delete_fault(canon, is_subvol, info, record, snaps, meta, mode) is None,
    ensures
        is_subvol,
        info.flags % 2 == 1,
        info.uuid@ == meta.snapshot_uuid@,
        owned(record, info, meta),
        mode == DeleteMode::Policy ==> !meta.hold && class_of(meta.kind) != KindClass::Keep && (
        newest_index(snaps) is Some ==> snaps[newest_index(snaps)->0].id != meta.id),
        meta.hold ==> mode == (DeleteMode::User { force_held: true }),
{
}

/// What the hooks around a deletion are told.
pub fn delete_hook_ctx(record: &ProjectRecord, meta: &SnapshotMeta, canon: &str, why: &str) -> (r:
    HookCtx)
    ensures
        r.project == Some(record.name),
        r.project_path == Some(record.path),
        r.owner == Some((record.owner_uid, record.owner_gid)),
        r.root is None,
        r.snapshot is Some && (r.snapshot->0).0 == meta.id && (r.snapshot->0).1@ == canon@ && (
        r.snapshot->0).2 == meta.kind,
        r.stage is None,
        r.reason@ == why@,
        r.extra@ == Seq::<(String, String)>::empty(),
{
    HookCtx {
        project: Some(record.name.clone()),
        project_path: Some(record.path.clone()),
        owner: Some((record.owner_uid, record.owner_gid)),
        root: None,
        snapshot: Some((meta.id, canon.to_owned(), meta.kind)),
        stage: None,
        reason: why.to_owned(),
        extra: Vec::new(),
    }
}

/// A snapshot may be deleted where it is a read-only subvolume, the one that its record describes
/// and of a subvolume that the project has or had (or still what was received). Beyond that, the
/// tool itself spares what is held, what the user made or brought in, and the newest one; the
/// user is stopped only by a hold that is not to be forced.
pub proof fn law_what_may_be_deleted(
    canon: Seq<char>,
    is_subvol: bool,
    info: SubvolInfo,
    record: ProjectRecord,
    snaps: Seq<SnapshotMeta>,
    meta: SnapshotMeta,
    mode: DeleteMode,
)
    ensures
        delete_fault(canon, is_subvol, info, record, snaps, meta, mode) is None <==> {
            &&& is_subvol && info.flags % 2 == 1 && info.uuid@ == meta.snapshot_uuid@
            &&& (info.parent_uuid matches Some(u) && (u@ == record.uuid@ || exists|i: int|
                0 <= i < record.uuid_history@.len() && #[trigger] record.uuid_history@[i]@ == u@))
                || (meta.kind is Received && (info.received_uuid matches Some(a)
                && meta.received_uuid matches Some(b) && a@ == b@))
            &&& mode is Policy ==> !meta.hold && !(meta.kind is Manual || meta.kind is Import
                || meta.kind is Received || meta.kind is Recovered) && (newest_index(snaps) matches
                Some(n) ==> snaps[n].id != meta.id)
            &&& mode matches DeleteMode::User { force_held } ==> !meta.hold || force_held
        },
{
}

/// How taking a snapshot ends: before it is made a failure leaves nothing but the temporary
/// directory to remove, between that and its final name the snapshot itself is removed again, and
/// after that it stays.
pub proof fn law_snapshots_end_by_their_steps(oks: Seq<bool>)
    requires
        oks.len() == 7,
    ensures
        take_run(oks) == TakeStep::RemoveTmp <==> !(oks[0] && oks[1]),
        take_run(oks) == TakeStep::RemoveSnapshot <==> oks[0] && oks[1] && !(oks[2] && oks[3]
            && oks[4] && oks[5]),
        take_run(oks) == TakeStep::Fail <==> oks[0] && oks[1] && oks[2] && oks[3] && oks[4] && oks[5]
            && !oks[6],
        take_run(oks) == TakeStep::Done <==> oks[0] && oks[1] && oks[2] && oks[3] && oks[4]
            && oks[5] && oks[6],
{
    reveal_with_fuel(take_run, 8);
    assert(oks.drop_last() =~= oks.take(6));
    assert(oks.take(6).drop_last() =~= oks.take(5));
    assert(oks.take(5).drop_last() =~= oks.take(4));
    assert(oks.take(4).drop_last() =~= oks.take(3));
    assert(oks.take(3).drop_last() =~= oks.take(2));
    assert(oks.take(2).drop_last() =~= oks.take(1));
    assert(oks.take(1).drop_last() =~= oks.take(0));
    assert(oks.take(0).len() == 0);
}

/// A snapshot lies in its place where it is exactly two steps below the directory of its project.
pub proof fn law_snapshots_lie_two_steps_down(path: Seq<char>, dir: Seq<char>)
    requires
        path.len() > 0 && path[0] == '/',
        dir.len() > 0 && dir[0] == '/',
    ensures
        is_grandchild(path, dir) <==> steps(path).len() == steps(dir).len() + 2 && forall|i: int|
            0 <= i < steps(dir).len() ==> steps(path)[i] == #[trigger] steps(dir)[i],
{
    law_parents_lie_one_step_up(path);
    lemma_rooted_has_no_dot(dir);
    let s = steps(path);
    let d = steps(dir);
    if s.len() > 0 {
        let p = parent_of(path)->0;
        law_parents_lie_one_step_up(p);
        if s.len() > 1 {
            let q = parent_of(p)->0;
            assert(steps(q) == s.drop_last().drop_last());
            if s.len() == d.len() + 2 && forall|i: int|
                0 <= i < d.len() ==> s[i] == #[trigger] d[i] {
                assert(s.drop_last().drop_last() =~= d);
            }
            if s.drop_last().drop_last() == d {
                assert forall|i: int| 0 <= i < d.len() implies s[i] == #[trigger] d[i] by {
                    assert(s.drop_last().drop_last()[i] == s[i]);
                }
            }
        }
    }
}

/// An id is tried for a hundred times; what was made for one that is taken is undone before the
/// next try, and nothing was made where another one was faster.
pub proof fn law_ids_are_tried_for_a_hundred_times(n: u32, a: Attempt)
    ensures
        reserved_after(n, a) is Reserved <==> a is Made,
        reserved_after(n, a) is Error <==> a is Failed,
        reserved_after(n, a) is GiveUp <==> (a is Taken || a is Raced) && n >= 100,
        reserved_after(n, a) matches Reservation::Again { undo } ==> (undo <==> a is Taken) && n
            < 100,
{
}

/// A project is unchanged since a snapshot as long as its change counter is the one that the
/// snapshot was born with and it was not written to after the transaction of the snapshot.
pub proof fn law_snapshots_remember_what_they_hold(
    m: SnapshotMeta,
    snap: SubvolInfo,
    live: SubvolInfo,
)
    requires
        has_counters(m, snap),
    ensures
        same_content(live, m) <==> live.ctransid == snap.ctransid && live.generation
            <= snap.otransid,
        m.snapshot_uuid@ == snap.uuid@,
{
}

/// The record of a snapshot dates from when it was taken, and says of what and why as was asked.
pub proof fn law_records_say_what_was_asked(
    m: SnapshotMeta,
    t: Target,
    o: SnapOpts,
    id: u64,
    now: Timestamp,
    later: Timestamp,
)
    requires
        recorded(m, t, o, id, now),
    ensures
        later.ns - m.created.ns == later.ns - now.ns,
        m.id == id && m.project@ == t.name@,
        m.kind == o.kind && m.reason@ == o.reason@ && m.pair == o.pair,
        m.hold <==> o.hold,
        m.received_uuid is None,
{
}

} // verus!
