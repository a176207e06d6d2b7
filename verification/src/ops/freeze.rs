//! `freeze` and `unfreeze`.

use vstd::prelude::*;

use crate::btrfs::SubvolInfo;
use crate::error::BpmError;
use crate::mechanics::observe::{accept_as_reference, mark_evaluated};
#[allow(unused_imports)]
use crate::mechanics::observe::{accepted, larger};
use crate::mechanics::snapshot::SnapOpts;
use crate::policy::change::identical;
#[allow(unused_imports)]
use crate::policy::change::same_content;
#[allow(unused_imports)]
use crate::policy::thin::deletable;
use crate::store::{newest, newest_at, Frozen, ProjectState, SnapshotKind, SnapshotMeta};
#[allow(unused_imports)]
use crate::store::meta::counted;
#[allow(unused_imports)]
use crate::store::{is_newest, newest_index};
use crate::util::text::{cat2, cat4, cat5, dec_u64, join, starts_with};
#[allow(unused_imports)]
use crate::util::text::{dec, joined, starts, texts};
use crate::util::time::{Duration, Timestamp};

verus! {

/// A freeze that begins now, with the newest snapshot as what the project was like.
pub open spec fn freezes_now(f: Frozen, snaps: Seq<SnapshotMeta>, now: Timestamp) -> bool {
    f.since == now && f.trigger_snap is None && f.ref_snap == match newest_index(snaps) {
        Some(i) => Some(snaps[i].id),
        None => None,
    }
}

/// Stops all automatic deletion for a project.
pub fn freeze(
    st: &mut ProjectState,
    name: &str,
    reason: &str,
    snaps: &Vec<SnapshotMeta>,
    now: Timestamp,
) -> (r: Result<(), BpmError>)
    ensures
        match r {
            Ok(_) => old(st).frozen is None && *final(st) == (ProjectState {
                frozen: final(st).frozen,
                ..*old(st)
            }) && final(st).frozen is Some && ({
                let f = final(st).frozen->0;
                f.since == now && texts(f.reasons@) == seq![reason@] && f.trigger_snap is None
                    && f.ref_snap == match newest_index(snaps@) {
                    Some(i) => Some(snaps@[i].id),
                    None => None,
                }
            }),
            Err(e) => old(st).frozen is Some && *final(st) == *old(st) && e is Refused
                && e->Refused_0@ == name@ + " is already frozen"@,
        },
        r is Ok ==> final(st).frozen is Some && freezes_now(final(st).frozen->0, snaps@, now),
{
    if st.frozen.is_some() {
        return Err(BpmError::Refused(cat2(name, " is already frozen")));
    }
    let mut reasons: Vec<String> = Vec::new();
    reasons.push(reason.to_owned());
    assert(texts(reasons@) =~= seq![reason@]);
    let ref_snap = match newest(snaps) {
        Some(m) => Some(m.id),
        None => None,
    };
    st.frozen = Some(Frozen { since: now, reasons, trigger_snap: None, ref_snap });
    Ok(())
}

/// What is printed of a freeze.
pub fn frozen_text(name: &str) -> (r: String)
    ensures
        r@ == name@ + ": frozen; no snapshot older than now will be deleted automatically"@,
{
    cat2(name, ": frozen; no snapshot older than now will be deleted automatically")
}

/// Ends the freeze of a project; why it was frozen.
pub fn thaw(st: &mut ProjectState, name: &str) -> (r: Result<Frozen, BpmError>)
    ensures
        match r {
            Ok(f) => old(st).frozen == Some(f) && *final(st) == (ProjectState {
                frozen: None,
                ..*old(st)
            }),
            Err(e) => old(st).frozen is None && *final(st) == *old(st) && e is Refused
                && e->Refused_0@ == name@ + " is not frozen"@,
        },
{
    match st.frozen.take() {
        Some(f) => Ok(f),
        None => Err(BpmError::Refused(cat2(name, " is not frozen"))),
    }
}

/// What is done so that the current state is in a counted snapshot.
#[derive(Clone, Copy, Debug, PartialEq, Eq, Structural)]
pub enum UnfreezeStep {
    /// The live project is gone, or the newest snapshot holds it and was counted.
    Nothing,
    /// The newest snapshot holds it but was taken without stats.
    Count(usize),
    /// Snapshot the live state.
    Take,
}

/// What an unfreeze begins with.
pub open spec fn unfreeze_begins(live: Option<&SubvolInfo>, snaps: Seq<SnapshotMeta>) -> UnfreezeStep {
    match live {
        None => UnfreezeStep::Nothing,
        Some(l) => match newest_index(snaps) {
            Some(i) => if !same_content(*l, snaps[i]) {
                UnfreezeStep::Take
            } else if snaps[i].stats is None {
                UnfreezeStep::Count(i as usize)
            } else {
                UnfreezeStep::Nothing
            },
            None => UnfreezeStep::Take,
        },
    }
}

/// What is done so that the current state is in a counted snapshot; `live` is the managed
/// subvolume after a flush, where it is in place.
pub fn unfreeze(live: Option<&SubvolInfo>, snaps: &Vec<SnapshotMeta>) -> (r: UnfreezeStep)
    ensures
        r == match live {
            None => UnfreezeStep::Nothing,
            Some(l) => match newest_index(snaps@) {
                Some(i) => if !same_content(*l, snaps@[i]) {
                    UnfreezeStep::Take
                } else if snaps@[i].stats is None {
                    UnfreezeStep::Count(i as usize)
                } else {
                    UnfreezeStep::Nothing
                },
                None => UnfreezeStep::Take,
            },
        },
        r matches UnfreezeStep::Count(i) ==> is_newest(snaps@, i as int),
        r == unfreeze_begins(live, snaps@),
{
    match live {
        None => UnfreezeStep::Nothing,
        Some(l) => match newest_at(snaps) {
            Some(i) => {
                if !identical(l, &snaps[i]) {
                    UnfreezeStep::Take
                } else if snaps[i].stats.is_none() {
                    UnfreezeStep::Count(i)
                } else {
                    UnfreezeStep::Nothing
                }
            },
            None => UnfreezeStep::Take,
        },
    }
}

/// The snapshot that an unfreeze takes.
pub fn unfreeze_snapshot(budget: Duration) -> (r: SnapOpts)
    ensures
        r.kind == SnapshotKind::Auto,
        r.reason@ == "unfreeze: new shrink-guard reference"@,
        r.stats && r.stats_budget == budget && !r.hold && r.pair is None,
{
    let mut o = SnapOpts::new(
        SnapshotKind::Auto,
        "unfreeze: new shrink-guard reference".to_owned(),
    );
    o.stats_budget = budget;
    o
}

/// The current state is the new reference of the guard, where it could be counted; the warning
/// where it could not.
pub fn accept_current(st: &mut ProjectState, snaps: &Vec<SnapshotMeta>, name: &str) -> (r: Option<
    String,
>)
    ensures
        match newest_index(snaps@) {
            Some(i) => if counted(snaps@[i]) {
                r is None && *final(st) == accepted(*old(st), snaps@[i])
            } else {
                r is Some && *final(st) == (ProjectState {
                    guard_seen: larger(old(st).guard_seen, snaps@[i].id),
                    ..*old(st)
                })
            },
            None => r is Some && *final(st) == *old(st),
        },
        r is Some ==> r->0@ == name@
            + ": the current state could not be counted within snapshot.stats_budget; the shrink guard keeps its old reference"@,
{
    match newest(snaps) {
        Some(m) => {
            if m.complete_stats().is_some() {
                accept_as_reference(st, m);
                return None;
            }
            mark_evaluated(st, m);
        },
        None => {},
    }
    Some(
        cat2(
            name,
            ": the current state could not be counted within snapshot.stats_budget; the shrink guard keeps its old reference",
        ),
    )
}

/// A snapshot that the guard holds.
pub open spec fn auto_held(m: SnapshotMeta) -> bool {
    m.hold && starts(m.hold_note@, "auto-held"@)
}

/// The positions of the snapshots that the guard holds, among the first `n`.
pub open spec fn auto_held_at(s: Seq<SnapshotMeta>, n: int) -> Seq<usize>
    decreases n,
{
    if n <= 0 {
        Seq::empty()
    } else if auto_held(s[n - 1]) {
        auto_held_at(s, n - 1).push((n - 1) as usize)
    } else {
        auto_held_at(s, n - 1)
    }
}

/// Releases the snapshots that the guard holds; their positions.
pub fn release_holds(snaps: &mut Vec<SnapshotMeta>) -> (r: Vec<usize>)
    ensures
        r@ == auto_held_at(old(snaps)@, old(snaps)@.len() as int),
        final(snaps)@.len() == old(snaps)@.len(),
        forall|i: int|
            0 <= i < old(snaps)@.len() ==> if auto_held(#[trigger] old(snaps)@[i]) {
                final(snaps)@[i] == (SnapshotMeta {
                    hold: false,
                    hold_note: final(snaps)@[i].hold_note,
                    ..old(snaps)@[i]
                }) && final(snaps)@[i].hold_note@.len() == 0
            } else {
                final(snaps)@[i] == old(snaps)@[i]
            },
{
    let mut out: Vec<usize> = Vec::new();
    let ghost s = snaps@;
    let mut i: usize = 0;
    while i < snaps.len()
        invariant
            i <= snaps@.len(),
            snaps@.len() == s.len(),
            s == old(snaps)@,
            out@ == auto_held_at(s, i as int),
            forall|k: int| i <= k < s.len() ==> snaps@[k] == #[trigger] s[k],
            forall|k: int|
                0 <= k < i ==> if auto_held(#[trigger] s[k]) {
                    snaps@[k] == (SnapshotMeta {
                        hold: false,
                        hold_note: snaps@[k].hold_note,
                        ..s[k]
                    }) && snaps@[k].hold_note@.len() == 0
                } else {
                    snaps@[k] == s[k]
                },
        decreases snaps@.len() - i,
    {
        assert(snaps@[i as int] == s[i as int]);
        if snaps[i].hold && starts_with(snaps[i].hold_note.as_str(), "auto-held") {
            snaps[i].hold = false;
            snaps[i].hold_note = String::new();
            out.push(i);
        }
        i += 1;
    }
    out
}

/// Snapshot ids, each with its sign.
pub open spec fn id_texts(ids: Seq<u64>) -> Seq<Seq<char>> {
    Seq::new(ids.len(), |i: int| "#"@ + dec(ids[i] as nat))
}

/// Snapshot ids, each with its sign.
pub fn show_ids(ids: &Vec<u64>) -> (r: Vec<String>)
    ensures
        texts(r@) == id_texts(ids@),
{
    let mut out: Vec<String> = Vec::new();
    let ghost all = id_texts(ids@);
    let mut i: usize = 0;
    assert(texts(out@) =~= all.take(0));
    while i < ids.len()
        invariant
            i <= ids@.len(),
            all == id_texts(ids@),
            texts(out@) == all.take(i as int),
        decreases ids@.len() - i,
    {
        let ghost before = texts(out@);
        out.push(cat2("#", dec_u64(ids[i]).as_str()));
        assert(texts(out@) =~= before.push(all[i as int]));
        assert(all.take(i + 1) =~= before.push(all[i as int]));
        i += 1;
    }
    assert(all.take(i as int) =~= all);
    out
}

/// What is printed of an unfreeze: why it was frozen, and which holds were released or remain.
pub open spec fn unfrozen_text(
    name: Seq<char>,
    was: Seq<Seq<char>>,
    released: Seq<u64>,
    held: Seq<u64>,
) -> Seq<char> {
    name + ": unfrozen (was: "@ + joined(was, "; "@)
        + "). The current state is the new shrink-guard reference."@ + (if released.len() > 0 {
        "\n  released: "@ + joined(id_texts(released), " "@)
    } else if held.len() > 0 {
        "\n  still held: "@ + joined(id_texts(held), " "@) + " (release with `bpm unhold "@ + name
            + " <id>` or --release-holds)"@
    } else {
        Seq::empty()
    })
}

/// What is printed of an unfreeze.
pub fn unfreeze_message(name: &str, was: &Frozen, released: &Vec<u64>, held: &Vec<u64>) -> (r:
    String)
    ensures
        r@ == unfrozen_text(name@, texts(was.reasons@), released@, held@),
{
    let mut s = cat4(
        name,
        ": unfrozen (was: ",
        join(&was.reasons, "; ").as_str(),
        "). The current state is the new shrink-guard reference.",
    );
    let mut more = String::new();
    if released.len() > 0 {
        more = cat2("\n  released: ", join(&show_ids(released), " ").as_str());
    } else if held.len() > 0 {
        more = cat5(
            "\n  still held: ",
            join(&show_ids(held), " ").as_str(),
            " (release with `bpm unhold ",
            name,
            " <id>` or --release-holds)",
        );
    }
    s.append(more.as_str());
    assert(s@ =~= unfrozen_text(name@, texts(was.reasons@), released@, held@));
    s
}

/// Exactly those holds are released that the guard set, which their notes say: one that a person
/// set stays.
pub proof fn law_only_the_guards_holds_are_released(s: Seq<SnapshotMeta>, n: int, i: int)
    requires
        0 <= i < n <= s.len() <= usize::MAX,
    ensures
        auto_held_at(s, n).contains(i as usize) <==> s[i].hold && s[i].hold_note@.len() >= 9
            && s[i].hold_note@.take(9) == "auto-held"@,
    decreases n,
{
    reveal_strlit("auto-held");
    let rest = auto_held_at(s, n - 1);
    assert(auto_held(s[i]) <==> s[i].hold && s[i].hold_note@.len() >= 9 && s[i].hold_note@.take(9)
        == "auto-held"@) by {
        let note = s[i].hold_note@;
        if starts(note, "auto-held"@) {
            assert(note.take(9) =~= "auto-held"@);
        }
    }
    lemma_auto_held_below(s, n - 1);
    if i < n - 1 {
        law_only_the_guards_holds_are_released(s, n - 1, i);
        if rest.contains(i as usize) {
            let z = rest.index_of(i as usize);
            assert(rest.push((n - 1) as usize)[z] == i as usize);
        }
        if rest.push((n - 1) as usize).contains(i as usize) {
            let z = rest.push((n - 1) as usize).index_of(i as usize);
            assert(rest[z] == i as usize);
        }
    } else {
        assert(rest.push((n - 1) as usize)[rest.len() as int] == i as usize);
        if rest.contains(i as usize) {
            let z = rest.index_of(i as usize);
            assert(rest[z] < n - 1);
        }
    }
}

proof fn lemma_auto_held_below(s: Seq<SnapshotMeta>, n: int)
    requires
        n <= s.len() <= usize::MAX,
    ensures
        forall|k: int| 0 <= k < auto_held_at(s, n).len() ==> #[trigger] auto_held_at(s, n)[k] < n,
    decreases n,
{
    if n > 0 {
        lemma_auto_held_below(s, n - 1);
        let rest = auto_held_at(s, n - 1);
        assert forall|k: int| 0 <= k < auto_held_at(s, n).len() implies #[trigger] auto_held_at(
            s,
            n,
        )[k] < n by {
            if k < rest.len() {
                assert(auto_held_at(s, n)[k] == rest[k]);
            }
        }
    }
}

/// From a freeze on no policy deletes anything that is there when it begins, and the freeze names
/// the newest snapshot as what the project was like.
pub proof fn law_freezes_stop_deletion(
    f: Frozen,
    snaps: Seq<SnapshotMeta>,
    now: Timestamp,
    m: SnapshotMeta,
    later: Timestamp,
    safety_ttl: Duration,
    thin_after_freeze: bool,
)
    requires
        freezes_now(f, snaps, now),
        m.created.ns <= now.ns,
    ensures
        !deletable(m, later, safety_ttl, Some(&f), thin_after_freeze),
        newest_index(snaps) matches Some(n) ==> f.ref_snap == Some(snaps[n].id),
        snaps.len() == 0 ==> f.ref_snap is None,
        f.trigger_snap is None,
{
}

/// An unfreeze begins with a snapshot of the current state, unless the newest one has seen the last
/// change and no write after it; that one is counted where it was not. Where the project is not in
/// its place there is nothing to do.
pub proof fn law_unfreezing_begins_with_the_current_state(
    live: SubvolInfo,
    snaps: Seq<SnapshotMeta>,
    n: int,
)
    requires
        newest_index(snaps) == Some(n),
    ensures
        ({
            let seen = live.ctransid == snaps[n].source_ctransid && live.generation
                <= snaps[n].snapshot_otransid;
            let s = unfreeze_begins(Some(&live), snaps);
            &&& s is Take <==> !seen
            &&& s is Count <==> seen && snaps[n].stats is None
            &&& s matches UnfreezeStep::Count(i) ==> i == n as usize
            &&& s is Nothing <==> seen && snaps[n].stats is Some
        }),
        unfreeze_begins(None, snaps) is Nothing,
        unfreeze_begins(Some(&live), Seq::empty()) is Take,
{
}

} // verus!
