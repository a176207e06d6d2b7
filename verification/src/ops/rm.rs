//! `rm` and `forget`.

use vstd::prelude::*;

use crate::error::BpmError;
use crate::outside;
use crate::store::{Frozen, SnapshotMeta, Stage};
use crate::util::order::name_order;
#[allow(unused_imports)]
use crate::util::order::is_name_order;
use crate::util::text::{cat2, cat3, cat4, dec_u64, join, parse_u64, str_eq, trim_end_matches};
#[allow(unused_imports)]
use crate::util::text::{dec, joined, parsed, strip_all, texts};

verus! {

/// What is to be deleted: for a project that is named, or for the root itself, where every
/// argument is a snapshot.
pub fn selectors(container: bool, project: Option<&str>, snapshots: &Vec<String>) -> (r: Result<
    Vec<String>,
    BpmError,
>)
    ensures
        ({
            let given = texts(snapshots@);
            let wanted = if container && project is Some {
                seq![project->0@] + given
            } else {
                given
            };
            match r {
                Ok(v) => (container || project is Some) && texts(v@) == wanted && wanted.len() > 0,
                Err(e) => e is Usage && if !container && project is None {
                    e->Usage_0@ == "name a project and snapshots"@
                } else {
                    wanted.len() == 0 && e->Usage_0@ == "name the snapshots to delete"@
                },
            }
        }),
{
    if !container && project.is_none() {
        return Err(BpmError::Usage("name a project and snapshots".to_owned()));
    }
    let ghost given = texts(snapshots@);
    let mut v: Vec<String> = Vec::new();
    if container {
        if let Some(p) = project {
            v.push(p.to_owned());
        }
    }
    let ghost head = texts(v@);
    let mut i: usize = 0;
    assert(head + given.take(0) =~= head);
    while i < snapshots.len()
        invariant
            i <= snapshots@.len(),
            given == texts(snapshots@),
            texts(v@) == head + given.take(i as int),
        decreases snapshots@.len() - i,
    {
        let ghost before = texts(v@);
        v.push(snapshots[i].clone());
        assert(texts(v@) =~= before.push(given[i as int]));
        assert(head + given.take(i + 1) =~= before.push(given[i as int]));
        i += 1;
    }
    assert(given.take(i as int) =~= given);
    assert(head =~= if container && project is Some {
        seq![project->0@]
    } else {
        Seq::empty()
    });
    assert(Seq::<Seq<char>>::empty() + given =~= given);
    assert(texts(v@).len() == v@.len());
    if v.len() == 0 {
        return Err(BpmError::Usage("name the snapshots to delete".to_owned()));
    }
    Ok(v)
}

/// What is said of an argument that is no selector.
pub fn bad_selector(s: &str) -> (r: BpmError)
    ensures
        r is Usage && r->Usage_0@ == outside::quoted(s@)
            + " is not a snapshot selector; --container takes only snapshot ids"@,
{
    BpmError::Usage(
        cat2(
            outside::quote(s).as_str(),
            " is not a snapshot selector; --container takes only snapshot ids",
        ),
    )
}

/// A snapshot is kept because its project is frozen.
pub open spec fn kept_by_freeze(frozen: Option<&Frozen>, m: SnapshotMeta, force_held: bool) -> bool {
    frozen is Some && m.created.ns <= frozen->0.since.ns && !force_held
}

/// Why a snapshot of a frozen project is not deleted: it is from before the freeze.
pub fn frozen_gate(frozen: Option<&Frozen>, m: &SnapshotMeta, force_held: bool) -> (r: Option<
    String,
>)
    ensures
        match r {
            Some(t) => frozen is Some && m.created.ns <= frozen->0.since.ns && !force_held && t@
                == "#"@ + dec(m.id as nat)
                + ": project is frozen and this snapshot predates the freeze; pass --force-held to delete it anyway"@,
            None => frozen is None || m.created.ns > frozen->0.since.ns || force_held,
        },
        r is Some == kept_by_freeze(frozen, *m, force_held),
{
    if let Some(f) = frozen {
        if m.created.ns <= f.since.ns && !force_held {
            return Some(
                cat3(
                    "#",
                    dec_u64(m.id).as_str(),
                    ": project is frozen and this snapshot predates the freeze; pass --force-held to delete it anyway",
                ),
            );
        }
    }
    None
}

/// The lines of the snapshots that were deleted.
pub open spec fn deleted_lines(ids: Seq<u64>) -> Seq<Seq<char>> {
    Seq::new(ids.len(), |i: int| "deleted #"@ + dec(ids[i] as nat))
}

/// What is printed of the snapshots that were deleted.
pub fn run(deleted: &Vec<u64>) -> (r: String)
    ensures
        r@ == joined(deleted_lines(deleted@), "\n"@),
{
    let mut lines: Vec<String> = Vec::new();
    let ghost all = deleted_lines(deleted@);
    let mut i: usize = 0;
    assert(texts(lines@) =~= all.take(0));
    while i < deleted.len()
        invariant
            i <= deleted@.len(),
            all == deleted_lines(deleted@),
            texts(lines@) == all.take(i as int),
        decreases deleted@.len() - i,
    {
        let ghost before = texts(lines@);
        lines.push(cat2("deleted #", dec_u64(deleted[i]).as_str()));
        assert(texts(lines@) =~= before.push(all[i as int]));
        assert(all.take(i + 1) =~= before.push(all[i as int]));
        i += 1;
    }
    assert(all.take(i as int) =~= all);
    join(&lines, "\n")
}

/// A file that is written into a unit directory besides snapshots and the lock.
pub open spec fn own_file(name: Seq<char>) -> bool {
    name == "project.toml"@ || name == "state.toml"@ || name == "FROZEN"@ || name == "op.journal"@
}

/// Whether a file is one that is written into a unit directory besides snapshots and the lock.
pub fn is_own_file(name: &str) -> (r: bool)
    ensures
        r == own_file(name@),
{
    str_eq(name, "project.toml") || str_eq(name, "state.toml") || str_eq(name, "FROZEN") || str_eq(
        name,
        "op.journal",
    )
}

/// An entry of a unit directory that belongs there: `partial` says that it is a file being
/// written.
pub open spec fn belongs(name: Seq<char>, partial: bool) -> bool {
    own_file(name) || name == "lock"@ || partial || parsed(
        strip_all(name, ".tmp"@),
        u64::MAX as nat,
    ) is Some
}

/// The entries that do not belong, in the order given.
pub open spec fn strangers(e: Seq<(String, bool)>) -> Seq<Seq<char>>
    decreases e.len(),
{
    if e.len() == 0 {
        Seq::empty()
    } else if belongs(e.last().0@, e.last().1) {
        strangers(e.drop_last())
    } else {
        strangers(e.drop_last()).push(e.last().0@)
    }
}

/// Entries of a unit directory that are neither own files nor snapshot directories, by name.
pub fn unknown_entries(entries: &Vec<(String, bool)>) -> (r: Vec<String>)
    ensures
        exists|o: Seq<usize>|
            is_name_order(strangers(entries@), o) && #[trigger] o.len() == r@.len() && forall|
                k: int,
            |
                0 <= k < r@.len() ==> (#[trigger] r@[k])@ == strangers(entries@)[o[k] as int],
{
    proof {
        reveal_strlit(".tmp");
    }
    let mut found: Vec<String> = Vec::new();
    let mut i: usize = 0;
    assert(entries@.take(0) =~= Seq::<(String, bool)>::empty());
    assert(texts(found@) =~= strangers(entries@.take(0)));
    while i < entries.len()
        invariant
            i <= entries@.len(),
            ".tmp"@.len() > 0,
            texts(found@) == strangers(entries@.take(i as int)),
        decreases entries@.len() - i,
    {
        assert(entries@.take(i + 1).drop_last() =~= entries@.take(i as int));
        let name = entries[i].0.as_str();
        let ours = is_own_file(name) || str_eq(name, "lock") || entries[i].1 || parse_u64(
            trim_end_matches(name, ".tmp").as_str(),
        ).is_some();
        if !ours {
            let ghost before = texts(found@);
            found.push(entries[i].0.clone());
            assert(texts(found@) =~= before.push(name@));
        }
        i += 1;
    }
    assert(entries@.take(i as int) =~= entries@);
    let order = name_order(&found);
    let ghost s = texts(found@);
    let mut out: Vec<String> = Vec::new();
    let mut k: usize = 0;
    while k < order.len()
        invariant
            k <= order@.len(),
            s == texts(found@),
            is_name_order(s, order@),
            out@.len() == k,
            forall|j: int| 0 <= j < k ==> (#[trigger] out@[j])@ == s[order@[j] as int],
        decreases order@.len() - k,
    {
        let at = order[k];
        assert(s[at as int] == found@[at as int]@);
        out.push(found[at].clone());
        k += 1;
    }
    out
}

/// The warning about a project that would be found again.
pub fn forget_warning(path: &str, in_place: bool, stage: Stage) -> (r: Option<String>)
    ensures
        match r {
            Some(m) => in_place && stage != Stage::Archived && m@ == path@
                + " still exists; after `forget` the next tick adopts it again (registering the existing subvolume) unless it is ignored or has managed = false"@,
            None => !(in_place && stage != Stage::Archived),
        },
{
    if in_place && stage != Stage::Archived {
        return Some(
            cat2(
                path,
                " still exists; after `forget` the next tick adopts it again (registering the existing subvolume) unless it is ignored or has managed = false",
            ),
        );
    }
    None
}

/// What is in the way of forgetting a project: entries that do not belong, unfinished snapshots
/// and snapshots without metadata.
pub open spec fn blockers_of(
    unknown: Seq<Seq<char>>,
    unfinished: Seq<Seq<char>>,
    no_meta: Seq<u64>,
) -> Seq<Seq<char>> {
    unknown + Seq::new(
        unfinished.len(),
        |i: int| unfinished[i] + " (in-progress snapshot)"@,
    ) + Seq::new(
        no_meta.len(),
        |i: int| "#"@ + dec(no_meta[i] as nat) + " (snapshot without metadata)"@,
    )
}

/// What is in the way of forgetting a project.
pub fn blockers(unknown: &Vec<String>, unfinished: &Vec<String>, no_meta: &Vec<u64>) -> (r: Vec<
    String,
>)
    ensures
        texts(r@) == blockers_of(texts(unknown@), texts(unfinished@), no_meta@),
{
    let mut out = crate::util::text::copy_list(unknown);
    let ghost u = texts(unknown@);
    let ghost f = texts(unfinished@);
    let ghost a = Seq::new(f.len(), |i: int| f[i] + " (in-progress snapshot)"@);
    let ghost b = Seq::new(
        no_meta@.len(),
        |i: int| "#"@ + dec(no_meta@[i] as nat) + " (snapshot without metadata)"@,
    );
    let mut i: usize = 0;
    assert(u + a.take(0) =~= u);
    while i < unfinished.len()
        invariant
            i <= unfinished@.len(),
            f == texts(unfinished@),
            a == Seq::new(f.len(), |i: int| f[i] + " (in-progress snapshot)"@),
            texts(out@) == u + a.take(i as int),
        decreases unfinished@.len() - i,
    {
        let ghost before = texts(out@);
        out.push(cat2(unfinished[i].as_str(), " (in-progress snapshot)"));
        assert(texts(out@) =~= before.push(a[i as int]));
        assert(u + a.take(i + 1) =~= before.push(a[i as int]));
        i += 1;
    }
    assert(a.take(i as int) =~= a);
    let ghost middle = texts(out@);
    let mut k: usize = 0;
    assert(middle + b.take(0) =~= middle);
    while k < no_meta.len()
        invariant
            k <= no_meta@.len(),
            b == Seq::new(
                no_meta@.len(),
                |i: int| "#"@ + dec(no_meta@[i] as nat) + " (snapshot without metadata)"@,
            ),
            texts(out@) == middle + b.take(k as int),
        decreases no_meta@.len() - k,
    {
        let ghost before = texts(out@);
        out.push(cat3("#", dec_u64(no_meta[k]).as_str(), " (snapshot without metadata)"));
        assert(texts(out@) =~= before.push(b[k as int]));
        assert(middle + b.take(k + 1) =~= before.push(b[k as int]));
        k += 1;
    }
    assert(b.take(k as int) =~= b);
    out
}

/// Why a project is not forgotten: asked before any snapshot is deleted, so that nothing stops
/// halfway.
pub open spec fn forget_fault(
    name: Seq<char>,
    dir: Seq<char>,
    blocked: Seq<Seq<char>>,
    snapshots: nat,
    delete_snapshots: bool,
    yes: bool,
) -> Option<Seq<char>> {
    if blocked.len() > 0 {
        Some(
            dir + " holds more than bpm's own files and snapshots: "@ + joined(blocked, ", "@)
                + "; inspect with `bpm doctor`"@,
        )
    } else if snapshots > 0 && !delete_snapshots {
        Some(
            name + " has "@ + dec(snapshots)
                + " snapshots; pass --delete-snapshots --yes to delete them"@,
        )
    } else if delete_snapshots && !yes {
        Some("deleting all snapshots needs --yes"@)
    } else {
        None
    }
}

/// Whether a project can be forgotten.
pub fn forget(
    name: &str,
    dir: &str,
    blocked: &Vec<String>,
    snapshots: usize,
    delete_snapshots: bool,
    yes: bool,
) -> (r: Result<(), BpmError>)
    ensures
        match r {
            Ok(_) => forget_fault(
                name@,
                dir@,
                texts(blocked@),
                snapshots as nat,
                delete_snapshots,
                yes,
            ) is None,
            Err(e) => e is Refused && forget_fault(
                name@,
                dir@,
                texts(blocked@),
                snapshots as nat,
                delete_snapshots,
                yes,
            ) == Some(e->Refused_0@),
        },
{
    assert(texts(blocked@).len() == blocked@.len());
    if blocked.len() > 0 {
        return Err(
            BpmError::Refused(
                cat4(
                    dir,
                    " holds more than bpm's own files and snapshots: ",
                    join(blocked, ", ").as_str(),
                    "; inspect with `bpm doctor`",
                ),
            ),
        );
    }
    if snapshots > 0 && !delete_snapshots {
        return Err(
            BpmError::Refused(
                cat4(
                    name,
                    " has ",
                    dec_u64(snapshots as u64).as_str(),
                    " snapshots; pass --delete-snapshots --yes to delete them",
                ),
            ),
        );
    }
    if delete_snapshots && !yes {
        return Err(BpmError::Refused("deleting all snapshots needs --yes".to_owned()));
    }
    Ok(())
}

/// Snapshots go with a project only where that was asked for and confirmed.
pub proof fn law_forgetting_needs_consent(
    name: Seq<char>,
    dir: Seq<char>,
    blocked: Seq<Seq<char>>,
    snapshots: nat,
    delete_snapshots: bool,
    yes: bool,
)
    requires
        forget_fault(name, dir, blocked, snapshots, delete_snapshots, yes) is None,
    ensures
        blocked.len() == 0,
        snapshots > 0 ==> delete_snapshots && yes,
{
}

/// Whether a unit is empty of snapshots after all were deleted.
pub fn check_emptied(dir: &str, no_meta: usize, snapshots: usize, unfinished: usize) -> (r: Result<
    (),
    BpmError,
>)
    ensures
        match r {
            Ok(_) => no_meta == 0 && snapshots == 0 && unfinished == 0,
            Err(e) => !(no_meta == 0 && snapshots == 0 && unfinished == 0) && e is Refused
                && e->Refused_0@ == dir@
                + " still contains snapshots or in-progress snapshots; inspect with `bpm doctor`"@,
        },
{
    if no_meta > 0 || snapshots > 0 || unfinished > 0 {
        return Err(
            BpmError::Refused(
                cat2(
                    dir,
                    " still contains snapshots or in-progress snapshots; inspect with `bpm doctor`",
                ),
            ),
        );
    }
    Ok(())
}

/// What is done with an entry of a unit that is forgotten.
#[derive(Clone, Copy, Debug, PartialEq, Eq, Structural)]
pub enum Removal {
    File,
    /// Only where it is empty: a snapshot subvolume is never entered.
    EmptyDir,
    Leave,
}

/// What is done with an entry of a unit that is forgotten.
pub fn removal(name: &str, partial: bool, is_dir: bool) -> (r: Removal)
    ensures
        r == if own_file(name@) || partial {
            Removal::File
        } else if is_dir {
            Removal::EmptyDir
        } else {
            Removal::Leave
        },
{
    if is_own_file(name) || partial {
        Removal::File
    } else if is_dir {
        Removal::EmptyDir
    } else {
        Removal::Leave
    }
}

/// What is said where the directory of a unit could not be removed.
pub fn not_empty(dir: &str, why: &str) -> (r: BpmError)
    ensures
        r is Refused && r->Refused_0@ == dir@ + " is not empty after forget ("@ + why@
            + "); inspect it"@,
{
    BpmError::Refused(cat4(dir, " is not empty after forget (", why, "); inspect it"))
}

/// What is printed of a project that was forgotten.
pub fn forgotten_text(name: &str, snapshots: usize) -> (r: String)
    ensures
        r@ == name@ + ": removed from the store ("@ + dec(snapshots as nat)
            + " snapshots deleted)"@,
{
    cat4(
        name,
        ": removed from the store (",
        dec_u64(snapshots as u64).as_str(),
        " snapshots deleted)",
    )
}

/// Everything is listed that does not belong into a unit directory, as often as it is there, and
/// nothing else: the files that the tool writes, the lock, files being written, and directories
/// whose name is a number but for `.tmp` belong.
pub proof fn law_strangers_are_all_listed(e: Seq<(String, bool)>, x: (String, bool))
    ensures
        strangers(Seq::empty()).len() == 0,
        (x.1 || x.0@ == "project.toml"@ || x.0@ == "state.toml"@ || x.0@ == "FROZEN"@ || x.0@
            == "op.journal"@ || x.0@ == "lock"@ || parsed(strip_all(x.0@, ".tmp"@), u64::MAX as nat)
            is Some) ==> strangers(e.push(x)) == strangers(e),
        !(x.1 || x.0@ == "project.toml"@ || x.0@ == "state.toml"@ || x.0@ == "FROZEN"@ || x.0@
            == "op.journal"@ || x.0@ == "lock"@ || parsed(strip_all(x.0@, ".tmp"@), u64::MAX as nat)
            is Some) ==> strangers(e.push(x)) == strangers(e).push(x.0@),
{
    assert(e.push(x).drop_last() =~= e);
}

/// Anything in the way of forgetting a project shows, each with one line.
pub proof fn law_every_blocker_shows(
    unknown: Seq<Seq<char>>,
    unfinished: Seq<Seq<char>>,
    no_meta: Seq<u64>,
)
    ensures
        blockers_of(unknown, unfinished, no_meta).len() == unknown.len() + unfinished.len()
            + no_meta.len(),
        forall|i: int|
            0 <= i < unknown.len() ==> blockers_of(unknown, unfinished, no_meta).contains(
                #[trigger] unknown[i],
            ),
{
    let b = blockers_of(unknown, unfinished, no_meta);
    assert forall|i: int| 0 <= i < unknown.len() implies b.contains(#[trigger] unknown[i]) by {
        assert(b[i] == unknown[i]);
    }
}

/// A project can be forgotten where nothing is in the way, and its snapshots, where it has any,
/// are to be deleted; deleting them has to be confirmed.
pub proof fn law_what_may_be_forgotten(
    name: Seq<char>,
    dir: Seq<char>,
    blocked: Seq<Seq<char>>,
    snapshots: nat,
    delete_snapshots: bool,
    yes: bool,
)
    ensures
        forget_fault(name, dir, blocked, snapshots, delete_snapshots, yes) is None <==> (
        blocked.len() == 0 && ((snapshots == 0 && !delete_snapshots) || (delete_snapshots && yes))),
{
}

/// A freeze keeps what was there when it began, unless that is forced; it keeps nothing newer, and
/// whatever it keeps it would keep had it begun later.
pub proof fn law_freezes_keep_what_was_there(
    f: Frozen,
    g: Frozen,
    m: SnapshotMeta,
    force_held: bool,
)
    ensures
        m.created.ns <= f.since.ns ==> kept_by_freeze(Some(&f), m, false),
        m.created.ns > f.since.ns ==> !kept_by_freeze(Some(&f), m, force_held),
        f.since.ns <= g.since.ns && kept_by_freeze(Some(&f), m, force_held) ==> kept_by_freeze(
            Some(&g),
            m,
            force_held,
        ),
        !kept_by_freeze(Some(&f), m, true),
        !kept_by_freeze(None, m, force_held),
{
}

} // verus!
