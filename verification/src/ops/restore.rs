//! `restore` (paths or whole project) and `rollback`.

use vstd::prelude::*;

use crate::btrfs::SubvolInfo;
use crate::config::schema::LifecyclePolicy;
use crate::error::BpmError;
use crate::mechanics::observe::{
    accept_as_reference, init_new_live, note_replaced_live, note_snapshot,
};
#[allow(unused_imports)]
use crate::mechanics::observe::{accepted, snapshot_noted, started};
use crate::mechanics::rollback::{RestoreReport, RollbackReport};
use crate::mechanics::snapshot::SnapOpts;
use crate::policy::change::identical;
#[allow(unused_imports)]
use crate::policy::change::same_content;
use crate::policy::shrink::reset;
#[allow(unused_imports)]
use crate::policy::shrink::mark_of;
use crate::store::{newest, ProjectState, SnapshotKind, SnapshotMeta, Stage};
#[allow(unused_imports)]
use crate::store::meta::counted;
#[allow(unused_imports)]
use crate::store::newest_index;
use crate::util::text::{cat2, cat3, cat4, cat5, dec_u64, join};
#[allow(unused_imports)]
use crate::util::text::{dec, joined, texts};
use crate::util::time::Timestamp;

verus! {

/// What a restore is to do.
#[derive(Clone, Copy, Debug, PartialEq, Eq, Structural)]
pub enum RestoreKind {
    Recreate,
    Paths,
}

/// What a restore is to do: the whole project, or the paths that are named.
pub fn restore(recreate: bool, paths: &Vec<String>) -> (r: Result<RestoreKind, BpmError>)
    ensures
        match r {
            Ok(k) => if recreate {
                k == RestoreKind::Recreate && paths@.len() == 0
            } else {
                k == RestoreKind::Paths && paths@.len() > 0
            },
            Err(e) => e is Usage && if recreate {
                paths@.len() > 0 && e->Usage_0@
                    == "--recreate restores the whole project; do not list paths"@
            } else {
                paths@.len() == 0 && e->Usage_0@
                    == "name the paths to restore, or pass --recreate for the whole project"@
            },
        },
{
    if recreate {
        if paths.len() > 0 {
            return Err(
                BpmError::Usage(
                    "--recreate restores the whole project; do not list paths".to_owned(),
                ),
            );
        }
        return Ok(RestoreKind::Recreate);
    }
    if paths.len() == 0 {
        return Err(
            BpmError::Usage(
                "name the paths to restore, or pass --recreate for the whole project".to_owned(),
            ),
        );
    }
    Ok(RestoreKind::Paths)
}

/// The selector of a restore: the latest snapshot, where none is named.
pub fn restore_selector(named: Option<&str>) -> (r: String)
    ensures
        r@ == match named {
            Some(s) => s@,
            None => "latest"@,
        },
{
    match named {
        Some(s) => s.to_owned(),
        None => "latest".to_owned(),
    }
}

/// The first snapshot of a project that was made anew.
pub fn recreate_snapshot(id: u64) -> (r: SnapOpts)
    ensures
        r.kind == SnapshotKind::Post,
        r.reason@ == "recreated from #"@ + dec(id as nat),
        r.stats && !r.hold && r.pair is None,
        r.stats_budget.ns == 120 * 1_000_000_000,
{
    SnapOpts::new(SnapshotKind::Post, cat2("recreated from #", dec_u64(id).as_str()))
}

/// The state of a project that was made anew: active, and no longer frozen or missing.
pub fn note_recreated(
    st: &mut ProjectState,
    p: &LifecyclePolicy,
    post: &SnapshotMeta,
    info: &SubvolInfo,
    now: Timestamp,
)
    ensures
        *final(st) == (ProjectState {
            snap_ctransid: post.source_ctransid,
            last_change_at: Some(now),
            stage: Stage::Active,
            ..started(*old(st), *post, *info, *p, now, now)
        }),
        final(st).frozen is None,
        final(st).missing_since is None,
{
    init_new_live(st, p, post, info, now, now);
    st.snap_ctransid = post.source_ctransid;
    st.last_change_at = Some(now);
    st.stage = Stage::Active;
}

/// What is printed of a project that was made anew.
pub fn recreated_text(name: &str, path: &str, from: u64, post: u64) -> (r: String)
    ensures
        r@ == name@ + ": recreated "@ + path@ + " from snapshot #"@ + dec(from as nat)
            + " (new snapshot #"@ + dec(post as nat) + "); build directories start empty"@,
{
    let mut m = cat5(
        name,
        ": recreated ",
        path,
        " from snapshot #",
        dec_u64(from).as_str(),
    );
    m.append(" (new snapshot #");
    m.append(dec_u64(post).as_str());
    m.append("); build directories start empty");
    m
}

/// The snapshot after a restore.
pub fn restored_snapshot(id: u64) -> (r: SnapOpts)
    ensures
        r.kind == SnapshotKind::Post,
        r.reason@ == "after restoring from #"@ + dec(id as nat),
        r.stats && !r.hold && r.pair is None,
        r.stats_budget.ns == 120 * 1_000_000_000,
{
    SnapOpts::new(SnapshotKind::Post, cat2("after restoring from #", dec_u64(id).as_str()))
}

/// The stage after activity.
pub open spec fn made_active(st: ProjectState, now: Timestamp) -> ProjectState {
    if st.stage == Stage::Active {
        st
    } else {
        ProjectState { stage: Stage::Active, stage_since: Some(now), ..st }
    }
}

/// The state after a restore into the project.
pub open spec fn restored_state(st: ProjectState, post: SnapshotMeta, now: Timestamp) -> ProjectState {
    made_active(
        ProjectState {
            snap_ctransid: post.source_ctransid,
            last_change_at: Some(now),
            ..snapshot_noted(st, post)
        },
        now,
    )
}

/// The state after a restore into the project, of which `post` is the snapshot: it is activity.
pub fn note_restored(st: &mut ProjectState, post: &SnapshotMeta, now: Timestamp)
    ensures
        *final(st) == made_active(
            ProjectState {
                snap_ctransid: post.source_ctransid,
                last_change_at: Some(now),
                ..snapshot_noted(*old(st), *post)
            },
            now,
        ),
        *final(st) == restored_state(*old(st), *post, now),
{
    note_snapshot(st, post);
    st.snap_ctransid = post.source_ctransid;
    st.last_change_at = Some(now);
    st.set_stage(Stage::Active, now);
}

/// The lines of what was restored.
pub open spec fn restored_lines(restored: Seq<Seq<char>>, pre: Option<u64>) -> Seq<Seq<char>> {
    Seq::new(restored.len(), |i: int| "restored "@ + restored[i]) + (match pre {
        Some(id) => seq!["(previous state saved as snapshot #"@ + dec(id as nat) + ")"@],
        None => seq![],
    })
}

/// What is printed of a restore.
pub fn restored_text(report: &RestoreReport) -> (r: String)
    ensures
        r@ == joined(restored_lines(texts(report.restored@), report.pre_snapshot), "\n"@),
{
    let ghost t = texts(report.restored@);
    let ghost all = Seq::new(t.len(), |i: int| "restored "@ + t[i]);
    let mut lines: Vec<String> = Vec::new();
    let mut i: usize = 0;
    assert(texts(lines@) =~= all.take(0));
    while i < report.restored.len()
        invariant
            i <= report.restored@.len(),
            t == texts(report.restored@),
            all == Seq::new(t.len(), |i: int| "restored "@ + t[i]),
            texts(lines@) == all.take(i as int),
        decreases report.restored@.len() - i,
    {
        let ghost before = texts(lines@);
        lines.push(cat2("restored ", report.restored[i].as_str()));
        assert(texts(lines@) =~= before.push(all[i as int]));
        assert(all.take(i + 1) =~= before.push(all[i as int]));
        i += 1;
    }
    assert(all.take(i as int) =~= all);
    if let Some(id) = report.pre_snapshot {
        lines.push(cat3("(previous state saved as snapshot #", dec_u64(id).as_str(), ")"));
    }
    assert(texts(lines@) =~= restored_lines(t, report.pre_snapshot));
    join(&lines, "\n")
}

/// The live state is what a rollback would bring.
pub open spec fn is_there_already(
    live: SubvolInfo,
    snaps: Seq<SnapshotMeta>,
    meta: SnapshotMeta,
) -> bool {
    newest_index(snaps) is Some && snaps[newest_index(snaps)->0].id == meta.id && same_content(
        live,
        meta,
    )
}

/// Whether a rollback would change anything: not to the newest snapshot while the live state is
/// what it holds.
pub fn rollback(name: &str, live: &SubvolInfo, snaps: &Vec<SnapshotMeta>, meta: &SnapshotMeta) -> (r:
    Result<(), BpmError>)
    ensures
        ({
            let same = newest_index(snaps@) is Some && snaps@[newest_index(snaps@)->0].id == meta.id
                && same_content(*live, *meta);
            match r {
                Ok(_) => !same,
                Err(e) => same && e is Refused && e->Refused_0@ == name@
                    + " is already identical to snapshot #"@ + dec(meta.id as nat),
            }
        }),
        r is Err == is_there_already(*live, snaps@, *meta),
{
    let is_newest_one = match newest(snaps) {
        Some(n) => n.id == meta.id,
        None => false,
    };
    if is_newest_one && identical(live, meta) {
        return Err(
            BpmError::Refused(
                cat3(name, " is already identical to snapshot #", dec_u64(meta.id).as_str()),
            ),
        );
    }
    Ok(())
}

/// The snapshot before a rollback.
pub fn safety_snapshot(id: u64) -> (r: SnapOpts)
    ensures
        r.kind == SnapshotKind::Rollback,
        r.reason@ == "before rollback to #"@ + dec(id as nat),
        r.stats && !r.hold && r.pair is None,
        r.stats_budget.ns == 120 * 1_000_000_000,
{
    SnapOpts::new(SnapshotKind::Rollback, cat2("before rollback to #", dec_u64(id).as_str()))
}

/// The snapshot before a restore that replaces something.
pub fn pre_restore_snapshot(id: u64) -> (r: SnapOpts)
    ensures
        r.kind == SnapshotKind::PreRestore,
        r.reason@ == "before restoring from #"@ + dec(id as nat),
        r.stats && !r.hold && r.pair is None,
        r.stats_budget.ns == 120 * 1_000_000_000,
{
    SnapOpts::new(SnapshotKind::PreRestore, cat2("before restoring from #", dec_u64(id).as_str()))
}

/// The snapshot after a rollback, paired with the one before.
pub fn post_snapshot(id: u64, safety: u64) -> (r: SnapOpts)
    ensures
        r.kind == SnapshotKind::Post,
        r.reason@ == "rolled back to #"@ + dec(id as nat),
        r.stats && !r.hold,
        r.stats_budget.ns == 120 * 1_000_000_000,
        r.pair == Some(safety),
{
    let mut o = SnapOpts::new(SnapshotKind::Post, cat2("rolled back to #", dec_u64(id).as_str()));
    o.pair = Some(safety);
    o
}

/// The files of the first snapshot with an id, where it was counted.
pub open spec fn files_of(s: Seq<SnapshotMeta>, id: u64) -> Option<u64>
    decreases s.len(),
{
    if s.len() == 0 {
        None
    } else if s[0].id == id {
        if counted(s[0]) {
            Some(s[0].stats->0.files)
        } else {
            None
        }
    } else {
        files_of(s.skip(1), id)
    }
}

fn find_files(snaps: &Vec<SnapshotMeta>, id: u64) -> (r: Option<u64>)
    ensures
        r == files_of(snaps@, id),
{
    let mut i: usize = 0;
    assert(snaps@.skip(0) =~= snaps@);
    while i < snaps.len()
        invariant
            i <= snaps@.len(),
            files_of(snaps@, id) == files_of(snaps@.skip(i as int), id),
        decreases snaps@.len() - i,
    {
        assert(snaps@.skip(i as int)[0] == snaps@[i as int]);
        if snaps[i].id == id {
            return match snaps[i].complete_stats() {
                Some(s) => Some(s.files),
                None => None,
            };
        }
        assert(snaps@.skip(i as int).skip(1) =~= snaps@.skip(i + 1));
        i += 1;
    }
    None
}

/// How many files the last good state had: by the snapshot that the freeze names, or else by the
/// mark of the guard.
pub open spec fn good_files(st: ProjectState, s: Seq<SnapshotMeta>) -> u64 {
    let named = match st.frozen {
        Some(f) => match f.ref_snap {
            Some(id) => files_of(s, id),
            None => None,
        },
        None => None,
    };
    match named {
        Some(n) => n,
        None => match st.ref_stats {
            Some(r) => r.files,
            None => 0,
        },
    }
}

/// How many files the last good state had.
pub fn reference_files(st: &ProjectState, snaps: &Vec<SnapshotMeta>) -> (n: u64)
    ensures
        n == good_files(*st, snaps@),
{
    if let Some(f) = &st.frozen {
        if let Some(id) = f.ref_snap {
            if let Some(n) = find_files(snaps, id) {
                return n;
            }
        }
    }
    match &st.ref_stats {
        Some(r) => r.files,
        None => 0,
    }
}

/// The state after a rollback, of which `post` is the snapshot: counters start over, the rollback
/// is activity, and what the user went back to is evaluated and becomes the reference of the
/// guard.
pub open spec fn rolled_back(
    st: ProjectState,
    post: SnapshotMeta,
    live: SubvolInfo,
    now: Timestamp,
) -> ProjectState {
    made_active(
        ProjectState {
            seen_ctransid: live.ctransid,
            tool_ctransid: live.ctransid,
            snap_ctransid: post.source_ctransid,
            last_change_at: Some(now),
            collapse_incomplete_ctransid: None,
            ..accepted(snapshot_noted(st, post), post)
        },
        now,
    )
}

/// Notes a rollback, of which `post` is the snapshot. Returns how many files the last good state
/// had before.
pub fn note_rolled_back(
    st: &mut ProjectState,
    snaps: &Vec<SnapshotMeta>,
    post: &SnapshotMeta,
    live: &SubvolInfo,
    now: Timestamp,
) -> (n: u64)
    ensures
        n == good_files(*old(st), snaps@),
        *final(st) == rolled_back(*old(st), *post, *live, now),
{
    let n: u64 = reference_files(st, snaps);
    note_snapshot(st, post);
    accept_as_reference(st, post);
    note_replaced_live(st, live, now);
    st.snap_ctransid = post.source_ctransid;
    st.set_stage(Stage::Active, now);
    n
}

/// The state after a rollback, by whether enough was brought back to end a freeze.
pub open spec fn freeze_settled(st: ProjectState, post: SnapshotMeta, recovered: bool) -> ProjectState {
    if st.frozen is Some && counted(post) && recovered {
        ProjectState { frozen: None, ref_stats: Some(mark_of(post.stats->0, post.id)), ..st }
    } else {
        st
    }
}

/// Ends the freeze after a rollback that brought enough back; `recovered` says whether it did,
/// by the files of `post` and of the last good state.
pub fn settle_freeze(st: &mut ProjectState, post: &SnapshotMeta, recovered: bool) -> (unfroze: bool)
    ensures
        unfroze == (old(st).frozen is Some && counted(*post) && recovered),
        *final(st) == if unfroze {
            ProjectState {
                frozen: None,
                ref_stats: Some(mark_of(post.stats->0, post.id)),
                ..*old(st)
            }
        } else {
            *old(st)
        },
        *final(st) == freeze_settled(*old(st), *post, recovered),
{
    if st.frozen.is_none() || !recovered {
        return false;
    }
    match post.complete_stats() {
        Some(s) => {
            st.frozen = None;
            st.ref_stats = Some(reset(s, post.id));
            true
        },
        None => false,
    }
}

/// What is printed of a rollback.
pub open spec fn rolled_back_text(
    name: Seq<char>,
    to: u64,
    report: RollbackReport,
    post: u64,
    unfroze: bool,
) -> Seq<char> {
    name + ": rolled back to #"@ + dec(to as nat) + " (previous state kept as snapshot #"@ + dec(
        report.safety_snapshot as nat,
    ) + "; new snapshot #"@ + dec(post as nat) + ")"@ + (if report.moved_nested@.len() > 0 {
        "\n  kept build directories: "@ + joined(texts(report.moved_nested@), ", "@)
    } else {
        Seq::empty()
    }) + (if unfroze {
        "\n  project unfrozen"@
    } else {
        Seq::empty()
    }) + (match report.leftover {
        Some(l) => "\n  leftover "@ + l@ + " (run `bpm doctor --fix`)"@,
        None => Seq::empty(),
    })
}

/// What is printed of a rollback.
pub fn rolled_back_message(
    name: &str,
    to: u64,
    report: &RollbackReport,
    post: u64,
    unfroze: bool,
) -> (r: String)
    ensures
        r@ == rolled_back_text(name@, to, *report, post, unfroze),
{
    let mut s = cat4(
        name,
        ": rolled back to #",
        dec_u64(to).as_str(),
        " (previous state kept as snapshot #",
    );
    s.append(dec_u64(report.safety_snapshot).as_str());
    s.append("; new snapshot #");
    s.append(dec_u64(post).as_str());
    s.append(")");
    if report.moved_nested.len() > 0 {
        s.append(
            cat2("\n  kept build directories: ", join(&report.moved_nested, ", ").as_str()).as_str(),
        );
    }
    if unfroze {
        s.append("\n  project unfrozen");
    }
    if let Some(l) = &report.leftover {
        s.append(cat3("\n  leftover ", l.as_str(), " (run `bpm doctor --fix`)").as_str());
    }
    assert(s@ =~= rolled_back_text(name@, to, *report, post, unfroze));
    s
}

/// A rollback is activity that nobody takes for a change of the user: the project is active, the
/// counters start over at those of the new live subvolume, and what was gone back to is looked at
/// and what the guard compares with, where it could be counted. A freeze is not ended by it.
pub proof fn law_rollbacks_start_over(
    st: ProjectState,
    post: SnapshotMeta,
    live: SubvolInfo,
    now: Timestamp,
)
    ensures
        ({
            let r = rolled_back(st, post, live, now);
            &&& r.stage == Stage::Active
            &&& r.stage_since == if st.stage == Stage::Active {
                st.stage_since
            } else {
                Some(now)
            }
            &&& r.last_change_at == Some(now)
            &&& r.seen_ctransid == live.ctransid && r.tool_ctransid == live.ctransid
            &&& r.snap_ctransid == post.source_ctransid
            &&& r.last_snapshot_at == Some(post.created)
            &&& r.guard_seen >= post.id && r.guard_seen >= st.guard_seen
            &&& post.stats is Some && post.stats->0.complete ==> r.ref_stats is Some
                && r.ref_stats->0.files == post.stats->0.files && r.ref_stats->0.bytes
                == post.stats->0.bytes
            &&& r.frozen == st.frozen && r.missing_since == st.missing_since
            &&& r.collapse_incomplete_ctransid is None
        }),
{
}

/// How many files the last good state had is said by the snapshot that the freeze names, where it
/// was counted, and else by the mark of the guard.
pub proof fn law_the_freeze_names_the_good_state(st: ProjectState, s: Seq<SnapshotMeta>, i: int)
    requires
        0 <= i < s.len(),
        forall|j: int| 0 <= j < s.len() && j != i ==> (#[trigger] s[j]).id != s[i].id,
    ensures
        st.frozen is Some && st.frozen->0.ref_snap == Some(s[i].id) && s[i].stats is Some
            && s[i].stats->0.complete ==> good_files(st, s) == s[i].stats->0.files,
        st.frozen is None && st.ref_stats is Some ==> good_files(st, s) == st.ref_stats->0.files,
        st.frozen is None && st.ref_stats is None ==> good_files(st, s) == 0,
{
    lemma_files_of(s, i);
}

proof fn lemma_files_of(s: Seq<SnapshotMeta>, i: int)
    requires
        0 <= i < s.len(),
        forall|j: int| 0 <= j < s.len() && j != i ==> (#[trigger] s[j]).id != s[i].id,
    ensures
        s[i].stats is Some && s[i].stats->0.complete ==> files_of(s, s[i].id) == Some(
            s[i].stats->0.files,
        ),
    decreases s.len(),
{
    if i > 0 {
        assert(s[0].id != s[i].id);
        let t = s.skip(1);
        assert(t[i - 1] == s[i]);
        assert forall|j: int| 0 <= j < t.len() && j != i - 1 implies (#[trigger] t[j]).id
            != s[i].id by {
            assert(t[j] == s[j + 1]);
        }
        lemma_files_of(t, i - 1);
    }
}

/// A restore is activity: the project is active and changed now. What it brought is in the snapshot
/// after it, so that this alone is no change of the user.
pub proof fn law_restores_are_activity(
    st: ProjectState,
    post: SnapshotMeta,
    now: Timestamp,
    live: SubvolInfo,
)
    ensures
        ({
            let f = restored_state(st, post, now);
            &&& f.stage is Active && f.last_change_at == Some(now)
            &&& st.stage !is Active ==> f.stage_since == Some(now)
            &&& st.stage is Active ==> f.stage_since == st.stage_since
            &&& f.last_snapshot_at == Some(post.created)
            &&& f.frozen == st.frozen && f.ref_stats == st.ref_stats
            &&& live.ctransid <= post.source_ctransid ==> !(live.ctransid > f.snap_ctransid)
        }),
{
}

/// A rollback is refused just where it leads to the newest snapshot and nothing changed since that
/// was taken.
pub proof fn law_rollbacks_change_something(
    live: SubvolInfo,
    snaps: Seq<SnapshotMeta>,
    meta: SnapshotMeta,
    n: int,
)
    requires
        newest_index(snaps) == Some(n),
    ensures
        is_there_already(live, snaps, meta) <==> snaps[n].id == meta.id && live.ctransid
            == meta.source_ctransid && live.generation <= meta.snapshot_otransid,
        !is_there_already(live, Seq::empty(), meta),
{
}

/// A freeze ends with a rollback only where that was counted completely and brought enough back;
/// the guard then compares with what was brought back.
pub proof fn law_freezes_end_when_enough_is_back(
    st: ProjectState,
    post: SnapshotMeta,
    recovered: bool,
)
    ensures
        ({
            let f = freeze_settled(st, post, recovered);
            let full = post.stats matches Some(c) && c.complete;
            &&& st.frozen is Some ==> (f.frozen is None <==> full && recovered)
            &&& st.frozen is None || !full || !recovered ==> f == st
            &&& st.frozen is Some && full && recovered ==> f.ref_stats is Some && f.ref_stats->0.files
                == post.stats->0.files && f.ref_stats->0.bytes == post.stats->0.bytes
                && f.ref_stats->0.files_snap == post.id && f.ref_stats->0.bytes_snap == post.id
        }),
{
}

} // verus!
