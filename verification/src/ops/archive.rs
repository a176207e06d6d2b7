//! `archive` and `unarchive` (manual only).

use vstd::prelude::*;

use crate::btrfs::SubvolInfo;
use crate::config::schema::{GlobalCfg, RootCfg};
use crate::error::BpmError;
use crate::hooks::HookCtx;
use crate::mechanics::adopt::is_valid_name;
#[allow(unused_imports)]
use crate::mechanics::adopt::valid_name;
use crate::mechanics::archive::{ArchiveReport, Manifest};
use crate::mechanics::retire::Unproven;
use crate::mechanics::snapshot::SnapOpts;
use crate::outside;
use crate::policy::change::identical;
#[allow(unused_imports)]
use crate::policy::change::same_content;
use crate::project::{locate_path, ProjectRef};
#[allow(unused_imports)]
use crate::project::holds;
use crate::store::{
    newest_at, ArchiveRecord, ProjectRecord, ProjectState, SnapshotKind, SnapshotMeta,
};
#[allow(unused_imports)]
use crate::store::{is_newest, newest_index, snapshot_place};
use crate::util::paths::path_join;
#[allow(unused_imports)]
use crate::util::paths::joined_path;
#[allow(unused_imports)]
use crate::util::relpath::steps;
use crate::util::text::{cat2, cat3, cat4, cat5, chars_of, dec_u64, string_of};
#[allow(unused_imports)]
use crate::util::text::{dec, texts};
use crate::util::time::Timestamp;

verus! {

/// Why a project is not archived, in the order in which it is asked.
pub open spec fn archive_fault(
    name: Seq<char>,
    path: Seq<char>,
    deletes: bool,
    yes: bool,
    frozen: bool,
    named: bool,
    in_place: bool,
) -> Option<Seq<char>> {
    if deletes && !yes {
        Some("--delete-live and --delete-snapshots need --yes"@)
    } else if frozen {
        Some(name + " is frozen; resolve that first (bpm status "@ + name + ")"@)
    } else if !named && !in_place {
        Some(path + " does not exist; pass --snapshot"@)
    } else {
        None
    }
}

/// Whether a project can be archived; `named` says that a snapshot was named, `in_place` that
/// the managed subvolume is there.
pub fn archive(
    name: &str,
    path: &str,
    deletes: bool,
    yes: bool,
    st: &ProjectState,
    named: bool,
    in_place: bool,
) -> (r: Result<(), BpmError>)
    ensures
        match r {
            Ok(_) => archive_fault(
                name@,
                path@,
                deletes,
                yes,
                st.frozen is Some,
                named,
                in_place,
            ) is None,
            Err(e) => e is Refused && archive_fault(
                name@,
                path@,
                deletes,
                yes,
                st.frozen is Some,
                named,
                in_place,
            ) == Some(e->Refused_0@),
        },
{
    if deletes && !yes {
        return Err(
            BpmError::Refused("--delete-live and --delete-snapshots need --yes".to_owned()),
        );
    }
    if st.frozen.is_some() {
        return Err(
            BpmError::Refused(
                cat4(name, " is frozen; resolve that first (bpm status ", name, ")"),
            ),
        );
    }
    if !named && !in_place {
        return Err(BpmError::Refused(cat2(path, " does not exist; pass --snapshot")));
    }
    Ok(())
}

/// The snapshot that is archived where none is named: the newest one, where it holds the live
/// state; else one has to be taken. `live` is what btrfs says after a flush.
pub fn current_snapshot(live: &SubvolInfo, snaps: &Vec<SnapshotMeta>) -> (r: Option<usize>)
    ensures
        match r {
            Some(i) => is_newest(snaps@, i as int) && same_content(*live, snaps@[i as int]),
            None => snaps@.len() == 0 || !same_content(*live, snaps@[newest_index(snaps@)->0]),
        },
{
    match newest_at(snaps) {
        Some(i) => if identical(live, &snaps[i]) {
            Some(i)
        } else {
            None
        },
        None => None,
    }
}

/// The snapshot that is taken for an archive.
pub fn archive_snapshot() -> (r: SnapOpts)
    ensures
        r.kind == SnapshotKind::Manual,
        r.reason@ == "archive"@,
        r.stats && !r.hold && r.pair is None,
        r.stats_budget.ns == 120 * 1_000_000_000,
{
    SnapOpts::new(SnapshotKind::Manual, "archive".to_owned())
}

/// What the hooks around an archive are told.
pub fn archive_hook(pref: &ProjectRef, meta: &SnapshotMeta) -> (r: HookCtx)
    ensures
        r.project is Some && r.project->0@ == pref.unit.name@,
        r.project_path is Some && r.project_path->0@ == pref.record.path@,
        r.owner == Some((pref.record.owner_uid, pref.record.owner_gid)),
        r.root is Some && r.root->0@ == pref.root.path@,
        r.snapshot is Some && (r.snapshot->0).0 == meta.id && (r.snapshot->0).1@ == snapshot_place(
            pref.unit.dir@,
            meta.id,
        ) && (r.snapshot->0).2 == meta.kind,
        r.stage is None,
        r.reason@ == "archive"@,
        r.extra@.len() == 0,
{
    HookCtx {
        project: Some(pref.unit.name.clone()),
        project_path: Some(pref.record.path.clone()),
        owner: Some((pref.record.owner_uid, pref.record.owner_gid)),
        root: Some(pref.root.path.clone()),
        snapshot: Some((meta.id, pref.unit.snapshot_path(meta.id), meta.kind)),
        stage: None,
        reason: "archive".to_owned(),
        extra: Vec::new(),
    }
}

/// Where an archive goes and how strongly it is compressed, as far as the user does not say.
pub fn archive_options(g: &GlobalCfg, dest: Option<&str>, level: Option<u8>) -> (r: (String, u8))
    ensures
        r.0@ == match dest {
            Some(d) => d@,
            None => g.archive_dir@,
        },
        r.1 == match level {
            Some(l) => l,
            None => g.archive_zstd_level,
        },
{
    let d = match dest {
        Some(d) => d.to_owned(),
        None => g.archive_dir.clone(),
    };
    let l = match level {
        Some(l) => l,
        None => g.archive_zstd_level,
    };
    (d, l)
}

/// An archive was written.
pub fn note_archived(st: &mut ProjectState, report: &ArchiveReport, meta: &SnapshotMeta, now: Timestamp)
    ensures
        final(st).archives@.len() == old(st).archives@.len() + 1,
        forall|i: int|
            0 <= i < old(st).archives@.len() ==> final(st).archives@[i] == old(st).archives@[i],
        ({
            let a = final(st).archives@.last();
            a.file@ == report.file@ && a.sha256@ == report.sha256@ && a.at == now && a.snapshot
                == meta.id
        }),
        *final(st) == (ProjectState { archives: final(st).archives, ..*old(st) }),
{
    st.archives.push(
        ArchiveRecord {
            file: report.file.clone(),
            sha256: report.sha256.clone(),
            at: now,
            snapshot: meta.id,
        },
    );
}

/// Why the live project stays although it was to be deleted: it is not exactly what was
/// archived. `before` says that no snapshot was deleted yet.
pub fn not_identical(path: &str, id: u64, why: &Unproven, before: bool) -> (r: BpmError)
    ensures
        r is Refused && r->Refused_0@ == "archive written, but "@ + path@
            + " is not exactly snapshot #"@ + dec(id as nat) + " ("@ + why.0@ + (if before {
            "); live project and snapshots kept"@
        } else {
            "); live project kept"@
        }),
{
    let mut m = cat5(
        "archive written, but ",
        path,
        " is not exactly snapshot #",
        dec_u64(id).as_str(),
        " (",
    );
    m.append(why.0.as_str());
    if before {
        m.append("); live project and snapshots kept");
    } else {
        m.append("); live project kept");
    }
    BpmError::Refused(m)
}

/// The positions of the snapshots that go with an archive, among the first `n`: all but held
/// ones and the archived one.
pub open spec fn superseded_at(s: Seq<SnapshotMeta>, kept: u64, n: int) -> Seq<usize>
    decreases n,
{
    if n <= 0 {
        Seq::empty()
    } else if !s[n - 1].hold && s[n - 1].id != kept {
        superseded_at(s, kept, n - 1).push((n - 1) as usize)
    } else {
        superseded_at(s, kept, n - 1)
    }
}

/// The positions of the snapshots that go with an archive: all but held ones and the archived
/// one.
pub fn superseded(snaps: &Vec<SnapshotMeta>, kept: u64) -> (r: Vec<usize>)
    ensures
        r@ == superseded_at(snaps@, kept, snaps@.len() as int),
        forall|k: int|
            0 <= k < r@.len() ==> (#[trigger] r@[k]) < snaps@.len() && !snaps@[r@[k] as int].hold
                && snaps@[r@[k] as int].id != kept,
{
    let mut out: Vec<usize> = Vec::new();
    let mut i: usize = 0;
    while i < snaps.len()
        invariant
            i <= snaps@.len(),
            out@ == superseded_at(snaps@, kept, i as int),
            forall|k: int|
                0 <= k < out@.len() ==> (#[trigger] out@[k]) < snaps@.len()
                    && !snaps@[out@[k] as int].hold && snaps@[out@[k] as int].id != kept,
        decreases snaps@.len() - i,
    {
        if !snaps[i].hold && snaps[i].id != kept {
            out.push(i);
        }
        i += 1;
    }
    out
}

/// What is done once an archive was written.
#[derive(Clone, Copy, Debug, PartialEq, Eq, Structural)]
pub enum CleanupStep {
    /// Prove that the live project is exactly what was archived.
    Prove,
    /// Delete the snapshots that the archive supersedes.
    DeleteSnapshots,
    /// Prove it again, now that the snapshots are gone.
    ProveAgain,
    DeleteLive,
    Done,
    /// It is not what was archived, and everything stays.
    KeepAll,
    /// It is not what was archived, and stays.
    KeepLive,
    Fail,
}

/// What comes after the snapshots that the archive supersedes.
pub open spec fn after_snapshots(delete_live: bool) -> CleanupStep {
    if delete_live {
        CleanupStep::ProveAgain
    } else {
        CleanupStep::Done
    }
}

/// What comes before the live project is looked at once more.
pub open spec fn before_live(delete_live: bool, delete_snapshots: bool) -> CleanupStep {
    if delete_snapshots {
        CleanupStep::DeleteSnapshots
    } else {
        after_snapshots(delete_live)
    }
}

/// The first step once an archive was written.
pub open spec fn first_cleanup(delete_live: bool, delete_snapshots: bool) -> CleanupStep {
    if delete_live {
        CleanupStep::Prove
    } else {
        before_live(delete_live, delete_snapshots)
    }
}

/// The step after one that went well or did not.
pub open spec fn after_cleanup(
    s: CleanupStep,
    ok: bool,
    delete_live: bool,
    delete_snapshots: bool,
) -> CleanupStep {
    match s {
        CleanupStep::Prove => if ok {
            before_live(delete_live, delete_snapshots)
        } else {
            CleanupStep::KeepAll
        },
        CleanupStep::DeleteSnapshots => if ok {
            after_snapshots(delete_live)
        } else {
            CleanupStep::Fail
        },
        CleanupStep::ProveAgain => if ok {
            CleanupStep::DeleteLive
        } else {
            CleanupStep::KeepLive
        },
        CleanupStep::DeleteLive => if ok {
            CleanupStep::Done
        } else {
            CleanupStep::Fail
        },
        end => end,
    }
}

/// The first step once an archive was written.
pub fn cleanup_first(delete_live: bool, delete_snapshots: bool) -> (r: CleanupStep)
    ensures
        r == first_cleanup(delete_live, delete_snapshots),
{
    if delete_live {
        CleanupStep::Prove
    } else if delete_snapshots {
        CleanupStep::DeleteSnapshots
    } else {
        CleanupStep::Done
    }
}

/// The step after one that went well or did not.
pub fn cleanup_next(s: CleanupStep, ok: bool, delete_live: bool, delete_snapshots: bool) -> (r:
    CleanupStep)
    ensures
        r == after_cleanup(s, ok, delete_live, delete_snapshots),
{
    match s {
        CleanupStep::Prove => if !ok {
            CleanupStep::KeepAll
        } else if delete_snapshots {
            CleanupStep::DeleteSnapshots
        } else if delete_live {
            CleanupStep::ProveAgain
        } else {
            CleanupStep::Done
        },
        CleanupStep::DeleteSnapshots => if !ok {
            CleanupStep::Fail
        } else if delete_live {
            CleanupStep::ProveAgain
        } else {
            CleanupStep::Done
        },
        CleanupStep::ProveAgain => if ok {
            CleanupStep::DeleteLive
        } else {
            CleanupStep::KeepLive
        },
        CleanupStep::DeleteLive => if ok {
            CleanupStep::Done
        } else {
            CleanupStep::Fail
        },
        CleanupStep::Done => CleanupStep::Done,
        CleanupStep::KeepAll => CleanupStep::KeepAll,
        CleanupStep::KeepLive => CleanupStep::KeepLive,
        CleanupStep::Fail => CleanupStep::Fail,
    }
}

/// Where the work after an archive ends up when its steps go as `oks` says.
pub open spec fn cleanup_run(
    oks: Seq<bool>,
    delete_live: bool,
    delete_snapshots: bool,
) -> CleanupStep
    decreases oks.len(),
{
    if oks.len() == 0 {
        first_cleanup(delete_live, delete_snapshots)
    } else {
        after_cleanup(
            cleanup_run(oks.drop_last(), delete_live, delete_snapshots),
            oks.last(),
            delete_live,
            delete_snapshots,
        )
    }
}

/// The live project is deleted only where that was asked for, and only after it was proven to be
/// what was archived, both before any snapshot went and right before it goes itself. Snapshots
/// go only where that was asked for, and none where the first proof failed.
pub proof fn law_archived_projects_are_proven(
    oks: Seq<bool>,
    delete_live: bool,
    delete_snapshots: bool,
)
    ensures
        ({
            let s = cleanup_run(oks, delete_live, delete_snapshots);
            let n: int = if delete_snapshots {
                2
            } else {
                1
            };
            &&& s == CleanupStep::Prove ==> oks.len() == 0 && delete_live
            &&& s == CleanupStep::DeleteSnapshots ==> delete_snapshots && (delete_live ==> oks.len()
                == 1 && oks[0]) && (!delete_live ==> oks.len() == 0)
            &&& s == CleanupStep::ProveAgain ==> delete_live && oks.len() == n && oks[0] && oks[n
                - 1]
            &&& s == CleanupStep::DeleteLive ==> delete_live && oks.len() == n + 1 && oks[0]
                && oks[n - 1] && oks[n]
            &&& s == CleanupStep::KeepAll ==> delete_live && oks.len() > 0 && !oks[0]
        }),
    decreases oks.len(),
{
    if oks.len() > 0 {
        let rest = oks.drop_last();
        law_archived_projects_are_proven(rest, delete_live, delete_snapshots);
        assert(forall|i: int| 0 <= i < rest.len() ==> rest[i] == oks[i]);
        assert(oks[oks.len() - 1] == oks.last());
    }
}

/// What is printed of an archive that was only pretended.
pub fn pretended_text(name: &str, id: u64, file: &str) -> (r: String)
    ensures
        r@ == "[dry-run] "@ + name@ + ": would archive snapshot #"@ + dec(id as nat) + " to "@
            + file@,
{
    let mut m = cat4("[dry-run] ", name, ": would archive snapshot #", dec_u64(id).as_str());
    m.append(" to ");
    m.append(file);
    m
}

/// What is printed of an archive; `size` is its size as people read it.
pub open spec fn archived_text(
    name: Seq<char>,
    id: u64,
    report: ArchiveReport,
    size: Seq<char>,
    dest: Seq<char>,
    root: Seq<char>,
) -> Seq<char> {
    let sha = report.sha256@;
    name + ": snapshot #"@ + dec(id as nat) + " archived to "@ + report.file@ + " ("@ + size
        + ", sha256 "@ + (if sha.len() > 16 {
        sha.take(16)
    } else {
        sha
    }) + ")\nNOTE: "@ + dest + " is on the same filesystem as "@ + root
        + "; this saves space but is not a backup. Copy the .zst, .manifest.toml and .sha256 files off this machine."@
}

/// What is printed of an archive; `size` is its size as people read it.
pub fn archived_message(
    name: &str,
    id: u64,
    report: &ArchiveReport,
    size: &str,
    dest: &str,
    root: &str,
) -> (r: String)
    ensures
        r@ == archived_text(name@, id, *report, size@, dest@, root@),
{
    let v = chars_of(report.sha256.as_str());
    let short = if v.len() > 16 {
        string_of(&v, 0, 16)
    } else {
        report.sha256.clone()
    };
    assert(short@ =~= if report.sha256@.len() > 16 {
        report.sha256@.take(16)
    } else {
        report.sha256@
    });
    let mut m = cat5(
        name,
        ": snapshot #",
        dec_u64(id).as_str(),
        " archived to ",
        report.file.as_str(),
    );
    m.append(" (");
    m.append(size);
    m.append(", sha256 ");
    m.append(short.as_str());
    m.append(")\nNOTE: ");
    m.append(dest);
    m.append(" is on the same filesystem as ");
    m.append(root);
    m.append(
        "; this saves space but is not a backup. Copy the .zst, .manifest.toml and .sha256 files off this machine.",
    );
    m
}

/// Whether an archive names a project that can be.
pub fn unarchive(file: &str, m: &Manifest) -> (r: Result<(), BpmError>)
    ensures
        match r {
            Ok(_) => m.project@.len() > 0 && valid_name(m.project@),
            Err(e) => !(m.project@.len() > 0 && valid_name(m.project@)) && e is Refused
                && e->Refused_0@ == file@ + ": manifest names an invalid project "@
                + outside::quoted(m.project@),
        },
{
    let name = m.project.as_str();
    if name.is_empty() || !is_valid_name(name) {
        return Err(
            BpmError::Refused(
                cat3(file, ": manifest names an invalid project ", outside::quote(name).as_str()),
            ),
        );
    }
    Ok(())
}

/// Where the project of an archive belongs: below the root that holds its original path, which is
/// `original` without symbolic links, or else below the first root, under its own name.
pub fn unarchive_place(roots: &Vec<RootCfg>, m: &Manifest, original: Option<&str>) -> (r: Result<
    (usize, String),
    BpmError,
>)
    ensures
        match r {
            Ok((i, name)) => i < roots@.len() && if is_held(roots@, original) {
                holds(roots@[i as int].path@, original->0@) && name@ == steps(
                    original->0@,
                )[steps(roots@[i as int].path@).len() as int] && forall|j: int|
                    0 <= j < i ==> !holds((#[trigger] roots@[j]).path@, original->0@)
            } else {
                i == 0 && name@ == m.project@
            },
            Err(e) => roots@.len() == 0 && e is Usage && e->Usage_0@
                == "no root for this archive; pass --root"@,
        },
{
    let found = match original {
        Some(p) => locate_path(roots, p),
        None => None,
    };
    match found {
        Some(x) => {
            assert(holds(roots@[x.0 as int].path@, original->0@));
            Ok(x)
        },
        None => {
            if roots.len() > 0 {
                return Ok((0, m.project.clone()));
            }
            Err(BpmError::Usage("no root for this archive; pass --root".to_owned()))
        },
    }
}

/// Some root holds a path.
pub open spec fn is_held(roots: Seq<RootCfg>, path: Option<&str>) -> bool {
    path is Some && exists|j: int|
        0 <= j < roots.len() && holds((#[trigger] roots[j]).path@, path->0@)
}

/// The record of a project that is known from its archive alone.
pub fn unarchive_record(root: &str, name: &str, m: &Manifest, now: Timestamp) -> (r: ProjectRecord)
    ensures
        r.format == 1,
        r.name@ == name@,
        r.path@ == joined_path(root@, name@),
        r.uuid == m.project_uuid,
        r.uuid_history@ == m.uuid_history@,
        r.owner_uid == m.owner_uid,
        r.owner_gid == m.owner_gid,
        r.adopted == now,
{
    let mut r = ProjectRecord::new(
        name,
        path_join(root, name).as_str(),
        m.project_uuid,
        m.owner_uid,
        m.owner_gid,
        now,
    );
    let mut i: usize = 0;
    while i < m.uuid_history.len()
        invariant
            i <= m.uuid_history@.len(),
            r.uuid_history@ == m.uuid_history@.take(i as int),
            r.format == 1,
            r.name@ == name@,
            r.path@ == joined_path(root@, name@),
            r.uuid == m.project_uuid,
            r.owner_uid == m.owner_uid,
            r.owner_gid == m.owner_gid,
            r.adopted == now,
        decreases m.uuid_history@.len() - i,
    {
        r.uuid_history.push(m.uuid_history[i]);
        assert(r.uuid_history@ =~= m.uuid_history@.take(i + 1));
        i += 1;
    }
    assert(m.uuid_history@.take(i as int) =~= m.uuid_history@);
    r
}

/// What a project knows about its build directories after its archive was received.
pub open spec fn seen_with(
    seen: Map<Seq<char>, ()>,
    nested: Seq<Seq<char>>,
) -> Map<Seq<char>, ()>
    decreases nested.len(),
{
    if nested.len() == 0 {
        seen
    } else {
        seen_with(seen, nested.drop_last()).insert(nested.last(), ())
    }
}

/// Remembers the build directories that the archived project had.
pub fn note_nested(st: &mut ProjectState, nested: &Vec<String>)
    ensures
        final(st).banlist_seen@ == seen_with(old(st).banlist_seen@, texts(nested@)),
        *final(st) == (ProjectState { banlist_seen: final(st).banlist_seen, ..*old(st) }),
{
    let ghost t = texts(nested@);
    let ghost start = st.banlist_seen@;
    let mut i: usize = 0;
    assert(t.take(0) =~= Seq::<Seq<char>>::empty());
    while i < nested.len()
        invariant
            i <= nested@.len(),
            t == texts(nested@),
            start == old(st).banlist_seen@,
            st.banlist_seen@ == seen_with(start, t.take(i as int)),
            *st == (ProjectState { banlist_seen: st.banlist_seen, ..*old(st) }),
        decreases nested@.len() - i,
    {
        assert(t.take(i + 1).drop_last() =~= t.take(i as int));
        st.banlist_seen.insert(nested[i].clone(), ());
        i += 1;
    }
    assert(t.take(i as int) =~= t);
}

/// What is said where the project of a received archive is there already.
pub fn stays_in_store(path: &str, id: u64, name: &str) -> (r: String)
    ensures
        r@ == path@ + " exists; received snapshot #"@ + dec(id as nat)
            + " stays in the store (use `bpm rollback "@ + name@ + " "@ + dec(id as nat) + "`)"@,
{
    let mut m = cat4(
        path,
        " exists; received snapshot #",
        dec_u64(id).as_str(),
        " stays in the store (use `bpm rollback ",
    );
    m.append(name);
    m.append(" ");
    m.append(dec_u64(id).as_str());
    m.append("`)");
    m
}

/// The first snapshot of a project that was made anew from an archive.
pub fn unarchive_snapshot(id: u64) -> (r: SnapOpts)
    ensures
        r.kind == SnapshotKind::Post,
        r.reason@ == "unarchived from #"@ + dec(id as nat),
        r.stats && !r.hold && r.pair is None,
        r.stats_budget.ns == 120 * 1_000_000_000,
{
    SnapOpts::new(SnapshotKind::Post, cat2("unarchived from #", dec_u64(id).as_str()))
}

/// What is printed of an archive that was only checked.
pub fn verified_text(name: &str, file: &str, no_live: bool) -> (r: String)
    ensures
        r@ == "[dry-run] "@ + name@ + ": archive "@ + file@ + " verified; would receive it"@ + (
        if no_live {
            ""@
        } else {
            " and recreate the project if its directory is gone"@
        }),
{
    let mut m = cat5("[dry-run] ", name, ": archive ", file, " verified; would receive it");
    let more = if no_live {
        ""
    } else {
        " and recreate the project if its directory is gone"
    };
    m.append(more);
    m
}

/// What is printed of an archive that was received; `recreated` is the project's path where it
/// was made anew.
pub fn received_text(name: &str, file: &str, id: u64, recreated: Option<&str>) -> (r: String)
    ensures
        r@ == name@ + ": received "@ + file@ + " as held snapshot #"@ + dec(id as nat) + (
        match recreated {
            Some(p) => "; recreated "@ + p@,
            None => Seq::empty(),
        }),
{
    let mut m = cat5(
        name,
        ": received ",
        file,
        " as held snapshot #",
        dec_u64(id).as_str(),
    );
    let mut more = String::new();
    if let Some(p) = recreated {
        more = cat2("; recreated ", p);
    }
    m.append(more.as_str());
    assert(more@ =~= match recreated {
        Some(p) => "; recreated "@ + p@,
        None => Seq::empty(),
    });
    m
}

/// A project may be archived where it is not frozen, there is something to archive, and whatever
/// is to be deleted after it was confirmed.
pub proof fn law_what_may_be_archived(
    name: Seq<char>,
    path: Seq<char>,
    deletes: bool,
    yes: bool,
    frozen: bool,
    named: bool,
    in_place: bool,
)
    ensures
        archive_fault(name, path, deletes, yes, frozen, named, in_place) is None <==> (deletes
            ==> yes) && !frozen && (named || in_place),
{
}

/// With an archive go all snapshots that are neither held nor the archived one, each once and in
/// their order.
pub proof fn law_archives_supersede_all_but_held_ones(s: Seq<SnapshotMeta>, kept: u64, n: int)
    requires
        0 <= n <= s.len() <= usize::MAX,
    ensures
        forall|i: int|
            #![trigger s[i]]
            0 <= i < n ==> (superseded_at(s, kept, n).contains(i as usize) <==> !s[i].hold && s[i].id
                != kept),
        forall|k: int|
            0 <= k < superseded_at(s, kept, n).len() ==> (#[trigger] superseded_at(s, kept, n)[k])
                < n,
        forall|j: int, k: int|
            0 <= j < k < superseded_at(s, kept, n).len() ==> #[trigger] superseded_at(s, kept, n)[j]
                < #[trigger] superseded_at(s, kept, n)[k],
    decreases n,
{
    if n > 0 {
        law_archives_supersede_all_but_held_ones(s, kept, n - 1);
        let q = superseded_at(s, kept, n - 1);
        let p = superseded_at(s, kept, n);
        assert forall|i: int| #![trigger s[i]] 0 <= i < n implies (p.contains(i as usize)
            <==> !s[i].hold && s[i].id != kept) by {
            if q.contains(i as usize) {
                let j = choose|j: int| 0 <= j < q.len() && q[j] == i as usize;
                assert(p[j] == i as usize);
            }
            if p.contains(i as usize) {
                let j = choose|j: int| 0 <= j < p.len() && p[j] == i as usize;
                if j < q.len() {
                    assert(q[j] == i as usize);
                }
            }
            if i == n - 1 && !s[i].hold && s[i].id != kept {
                assert(p[q.len() as int] == i as usize);
            }
        }
    }
}

/// How the work after an archive ends, by what was to be deleted: everything stays where the first
/// proof fails, and the live project where the second one does.
pub proof fn law_cleanups_end_by_their_steps(oks: Seq<bool>)
    requires
        oks.len() == 4,
    ensures
        cleanup_run(oks, true, true) == CleanupStep::KeepAll <==> !oks[0],
        cleanup_run(oks, true, true) == CleanupStep::KeepLive <==> oks[0] && oks[1] && !oks[2],
        cleanup_run(oks, true, true) == CleanupStep::Done <==> oks[0] && oks[1] && oks[2] && oks[3],
        cleanup_run(oks, true, true) == CleanupStep::Fail <==> oks[0] && (!oks[1] || (oks[2]
            && !oks[3])),
        cleanup_run(oks.take(3), true, false) == CleanupStep::KeepAll <==> !oks[0],
        cleanup_run(oks.take(3), true, false) == CleanupStep::KeepLive <==> oks[0] && !oks[1],
        cleanup_run(oks.take(3), true, false) == CleanupStep::Done <==> oks[0] && oks[1] && oks[2],
        cleanup_run(oks.take(3), true, false) == CleanupStep::Fail <==> oks[0] && oks[1] && !oks[2],
        cleanup_run(oks.take(1), false, true) == CleanupStep::Done <==> oks[0],
        cleanup_run(oks.take(1), false, true) == CleanupStep::Fail <==> !oks[0],
        cleanup_run(oks.take(0), false, false) == CleanupStep::Done,
{
    reveal_with_fuel(cleanup_run, 5);
    assert(oks.drop_last() =~= oks.take(3));
    assert(oks.take(3).drop_last() =~= oks.take(2));
    assert(oks.take(2).drop_last() =~= oks.take(1));
    assert(oks.take(1).drop_last() =~= oks.take(0));
    assert(oks.take(0).len() == 0);
}

/// A project that was received has seen its build directories and whatever it had seen before.
pub proof fn law_received_projects_have_seen_their_build_directories(
    seen: Map<Seq<char>, ()>,
    nested: Seq<Seq<char>>,
    k: Seq<char>,
)
    ensures
        seen_with(seen, nested).contains_key(k) <==> seen.contains_key(k) || nested.contains(k),
    decreases nested.len(),
{
    if nested.len() > 0 {
        let t = nested.drop_last();
        law_received_projects_have_seen_their_build_directories(seen, t, k);
        if t.contains(k) {
            let j = choose|j: int| 0 <= j < t.len() && t[j] == k;
            assert(nested[j] == k);
        }
        if nested.contains(k) && k != nested.last() {
            let j = choose|j: int| 0 <= j < nested.len() && nested[j] == k;
            assert(t[j] == k);
        }
        assert(nested[nested.len() - 1] == nested.last());
    }
}

} // verus!
