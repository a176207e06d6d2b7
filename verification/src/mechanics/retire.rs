//! Removing a user tree that was replaced (the original directory after adopt or convert, the
//! pre-rollback subvolume, a file replaced by restore, the live project after archive).
//!
//! This is the only place that lets such trees be deleted, and only with a `Proof` that nothing
//! in them is newer than what was kept. Without proof the tree is renamed to a
//! `<name>.bpm-keep-<op>-<ts>` leftover that the doctor reports and never deletes.

use vstd::prelude::*;

use crate::btrfs::SubvolInfo;
#[allow(unused_imports)]
use crate::btrfs::uuid_text;
use crate::outside;
use crate::policy::change::identical;
#[allow(unused_imports)]
use crate::policy::change::same_content;
use crate::project::Leftover;
#[allow(unused_imports)]
use crate::project::{base_of, left_behind, leftover_name, leftover_of};
use crate::store::SnapshotMeta;
use crate::util::paths::path_eq;
#[allow(unused_imports)]
use crate::util::paths::same_path;
use crate::util::text::{
    cat2, cat3, cat4, cat5, dec_u64, join, lines, list_has, replace, starts_with, str_eq, words,
};
#[allow(unused_imports)]
use crate::util::text::{
    dec, joined, law_number_round_trip, lines_of, occurs, parsed, replaced, starts, texts, words_of,
};
use crate::util::time::Timestamp;
#[allow(unused_imports)]
use crate::util::time::in_calendar;
use crate::util::walk::TreeStats;

verus! {

pub const KEEP_MARKER: &'static str = ".bpm-keep-";

/// What the old tree must match to be deleted.
pub enum Expect<'a> {
    /// A directory (or file): nothing in it changed after `not_after`, and, when given, its
    /// counts equal those of the copy that was kept. `exclude` are relative paths skipped by both.
    Tree { stats: Option<TreeStats>, not_after: Timestamp, exclude: Vec<String> },
    /// A file that has just been moved aside. Its ctime cannot be read back after the move (the
    /// rename bumps it), so `pre` are the facts read just before, and the file on disk must
    /// still be the one they describe.
    Replaced { pre: FileFacts, not_after: Timestamp },
    /// A subvolume: identical (by transaction counters) to the snapshot `kept` of it.
    Snapshot { kept: &'a SnapshotMeta },
    /// Content already verified: only check that nothing uses it and nothing unsaved is inside.
    Verified,
}

/// Identity and timestamps of a file.
#[derive(Clone, Copy, Debug, PartialEq, Eq, Structural)]
pub struct FileFacts {
    pub ino: u64,
    pub size: u64,
    pub mtime_ns: i128,
    /// The later of modification and status change.
    pub change_ns: i128,
}

/// Seconds and nanoseconds as nanoseconds.
pub open spec fn nanos(s: i64, n: i64) -> int {
    s * 1_000_000_000 + n
}

impl FileFacts {
    pub fn of(
        ino: u64,
        size: u64,
        mtime: i64,
        mtime_nsec: i64,
        ctime: i64,
        ctime_nsec: i64,
    ) -> (r: FileFacts)
        ensures
            r.ino == ino,
            r.size == size,
            r.mtime_ns == nanos(mtime, mtime_nsec),
            r.change_ns == if nanos(mtime, mtime_nsec) >= nanos(ctime, ctime_nsec) {
                nanos(mtime, mtime_nsec)
            } else {
                nanos(ctime, ctime_nsec)
            },
    {
        let m: i128 = mtime as i128 * 1_000_000_000 + mtime_nsec as i128;
        let c: i128 = ctime as i128 * 1_000_000_000 + ctime_nsec as i128;
        FileFacts {
            ino,
            size,
            mtime_ns: m,
            change_ns: if m >= c {
                m
            } else {
                c
            },
        }
    }
}

/// What was found of a tree that may go. Each field is read when the judgement asks for it.
pub struct TreeFacts {
    /// Where the tree is.
    pub path: String,
    pub stat: Option<Result<PathStat, String>>,
    /// Who uses it, in words, where anyone does.
    pub users: Option<Option<String>>,
    /// What is mounted at it or inside.
    pub mounts: Option<Vec<String>>,
    /// The nested subvolumes, relative to it.
    pub nested: Option<Result<Vec<String>, String>>,
    pub subvolume: Option<bool>,
    /// What btrfs says of it after a flush.
    pub live: Option<Result<SubvolInfo, String>>,
    pub walked: Option<Result<TreeStats, String>>,
}

/// What the file system says of a path.
#[derive(Clone, Copy, Debug, PartialEq, Eq, Structural)]
pub struct PathStat {
    pub is_dir: bool,
    pub facts: FileFacts,
}

impl TreeFacts {
    /// Nothing is known yet.
    pub fn unknown(path: &str) -> (r: TreeFacts)
        ensures
            r.path@ == path@,
            r.stat is None && r.users is None && r.mounts is None && r.nested is None,
            r.subvolume is None && r.live is None && r.walked is None,
    {
        TreeFacts {
            path: path.to_owned(),
            stat: None,
            users: None,
            mounts: None,
            nested: None,
            subvolume: None,
            live: None,
            walked: None,
        }
    }
}

/// A fact that the judgement needs.
#[derive(Clone, Copy, Debug, PartialEq, Eq, Structural)]
pub enum Need {
    Stat,
    Users,
    Mounts,
    Nested,
    Subvolume,
    Live,
    Walk,
}

/// That the tree at a path may be deleted, and how. Only the judgement gives one.
#[derive(Debug)]
pub struct Proof {
    path: String,
    subvolume: bool,
    recursive: bool,
}

impl Proof {
    /// Where the tree is that may be deleted.
    pub closed spec fn at(&self) -> Seq<char> {
        self.path@
    }

    pub closed spec fn of_subvolume(&self) -> bool {
        self.subvolume
    }

    /// Nested subvolumes may go with it.
    pub closed spec fn with_nested(&self) -> bool {
        self.recursive
    }

    /// Where the tree is that may be deleted.
    pub fn path(&self) -> (r: &str)
        ensures
            r@ == self.at(),
    {
        self.path.as_str()
    }
}

/// Why a tree may not be deleted.
pub struct Unproven(pub String);

/// Where the judgement of a tree stands.
pub enum Judgement {
    Need(Need),
    Proven(Proof),
    Refused(Unproven),
}

/// What became of a tree.
#[derive(Clone, Debug, PartialEq, Eq)]
pub enum Outcome {
    Deleted,
    Kept(String),
}

/// Files, directories, symlinks, others and bytes of paths.
pub open spec fn counts_of(s: TreeStats) -> (u64, u64, u64, u64, u64) {
    (s.files, s.dirs, s.symlinks, s.others, s.path_bytes)
}

pub fn counts(s: &TreeStats) -> (r: (u64, u64, u64, u64, u64))
    ensures
        r == counts_of(*s),
{
    (s.files, s.dirs, s.symlinks, s.others, s.path_bytes)
}

/// Counts in messages.
pub open spec fn counts_text(c: (u64, u64, u64, u64, u64)) -> Seq<char> {
    "("@ + dec(c.0 as nat) + ", "@ + dec(c.1 as nat) + ", "@ + dec(c.2 as nat) + ", "@ + dec(
        c.3 as nat,
    ) + ", "@ + dec(c.4 as nat) + ")"@
}

/// Counts in messages.
pub fn show_counts(c: (u64, u64, u64, u64, u64)) -> (r: String)
    ensures
        r@ == counts_text(c),
{
    let mut m = cat5("(", dec_u64(c.0).as_str(), ", ", dec_u64(c.1).as_str(), ", ");
    m.append(dec_u64(c.2).as_str());
    m.append(", ");
    m.append(dec_u64(c.3).as_str());
    m.append(", ");
    m.append(dec_u64(c.4).as_str());
    m.append(")");
    m
}

/// The mount point of a line of a mount table, its blanks written out.
pub open spec fn mount_point(line: Seq<char>) -> Option<Seq<char>> {
    let w = words_of(line);
    if w.len() > 4 {
        Some(replaced(w[4], "\\040"@, " "@))
    } else {
        None
    }
}

/// A mount point at a place or below it.
pub open spec fn mounted_inside(m: Seq<char>, prefix: Seq<char>) -> bool {
    m == prefix || starts(m, prefix + "/"@)
}

/// The mount points at a place or below it, of the first lines of a mount table.
pub open spec fn mounts_of(table: Seq<Seq<char>>, prefix: Seq<char>) -> Seq<Seq<char>>
    decreases table.len(),
{
    if table.len() == 0 {
        Seq::empty()
    } else {
        let rest = mounts_of(table.drop_last(), prefix);
        match mount_point(table.last()) {
            Some(m) => if mounted_inside(m, prefix) {
                rest.push(m)
            } else {
                rest
            },
            None => rest,
        }
    }
}

/// What is mounted at a place or below it, by the text of `/proc/self/mountinfo`.
pub fn mounts_under(mountinfo: &str, prefix: &str) -> (r: Vec<String>)
    ensures
        texts(r@) == mounts_of(lines_of(mountinfo@), prefix@),
{
    proof {
        reveal_strlit("\\040");
    }
    let table = lines(mountinfo);
    let ghost all = lines_of(mountinfo@);
    let below = cat2(prefix, "/");
    let mut out: Vec<String> = Vec::new();
    let mut i: usize = 0;
    assert(texts(out@) =~= mounts_of(all.take(0), prefix@));
    while i < table.len()
        invariant
            i <= table@.len(),
            all == texts(table@),
            below@ == prefix@ + "/"@,
            "\\040"@.len() > 0,
            texts(out@) == mounts_of(all.take(i as int), prefix@),
        decreases table@.len() - i,
    {
        assert(all.take(i + 1).drop_last() =~= all.take(i as int));
        assert(all.take(i + 1).last() == table@[i as int]@);
        let w = words(table[i].as_str());
        assert(texts(w@).len() == w@.len());
        if w.len() > 4 {
            assert(texts(w@)[4] == w@[4]@);
            let m = replace(w[4].as_str(), "\\040", " ");
            if str_eq(m.as_str(), prefix) || starts_with(m.as_str(), below.as_str()) {
                let ghost before = texts(out@);
                let ghost mv = m@;
                out.push(m);
                assert(texts(out@) =~= before.push(mv));
            }
        }
        i += 1;
    }
    assert(all.take(i as int) =~= all);
    out
}

/// One of the paths is `p`.
pub open spec fn listed(p: Seq<char>, allowed: Seq<Seq<char>>) -> bool {
    exists|i: int| 0 <= i < allowed.len() && same_path(#[trigger] allowed[i], p)
}

fn is_listed(p: &str, allowed: &Vec<String>) -> (r: bool)
    ensures
        r == listed(p@, texts(allowed@)),
{
    let mut i: usize = 0;
    while i < allowed.len()
        invariant
            i <= allowed@.len(),
            forall|k: int| 0 <= k < i ==> !same_path(#[trigger] texts(allowed@)[k], p@),
        decreases allowed@.len() - i,
    {
        if path_eq(allowed[i].as_str(), p) {
            assert(same_path(texts(allowed@)[i as int], p@));
            return true;
        }
        i += 1;
    }
    false
}

/// The nested subvolumes that nobody allowed to go.
pub open spec fn not_allowed(nested: Seq<Seq<char>>, allowed: Seq<Seq<char>>) -> Seq<Seq<char>>
    decreases nested.len(),
{
    if nested.len() == 0 {
        Seq::empty()
    } else {
        let rest = not_allowed(nested.drop_last(), allowed);
        if listed(nested.last(), allowed) {
            rest
        } else {
            rest.push(nested.last())
        }
    }
}

fn unexpected(nested: &Vec<String>, allowed: &Vec<String>) -> (r: Vec<String>)
    ensures
        texts(r@) == not_allowed(texts(nested@), texts(allowed@)),
{
    let ghost all = texts(nested@);
    let mut out: Vec<String> = Vec::new();
    let mut i: usize = 0;
    assert(texts(out@) =~= not_allowed(all.take(0), texts(allowed@)));
    while i < nested.len()
        invariant
            i <= nested@.len(),
            all == texts(nested@),
            texts(out@) == not_allowed(all.take(i as int), texts(allowed@)),
        decreases nested@.len() - i,
    {
        assert(all.take(i + 1).drop_last() =~= all.take(i as int));
        assert(all.take(i + 1).last() == nested@[i as int]@);
        if !is_listed(nested[i].as_str(), allowed) {
            let ghost before = texts(out@);
            out.push(nested[i].clone());
            assert(texts(out@) =~= before.push(nested@[i as int]@));
        }
        i += 1;
    }
    assert(all.take(i as int) =~= all);
    out
}

/// An instant that calendars can name and that lies after another.
pub open spec fn after(ns: int, t: Timestamp) -> bool {
    in_calendar(ns) && ns > t.ns
}

fn is_after(ns: i128, t: Timestamp) -> (r: bool)
    ensures
        r == after(ns as int, t),
{
    match Timestamp::from_nanosecond(ns) {
        Some(c) => c.ns > t.ns,
        None => false,
    }
}

/// What a judgement says.
pub enum Said {
    Need(Need),
    /// The tree at a path may go, and how.
    Proven { path: Seq<char>, subvolume: bool, recursive: bool },
    Refused(Seq<char>),
}

/// What a proof says.
pub open spec fn proof_says(p: Proof) -> Said {
    Said::Proven { path: p.at(), subvolume: p.of_subvolume(), recursive: p.with_nested() }
}

/// What a judgement says.
pub open spec fn said(j: Judgement) -> Said {
    match j {
        Judgement::Need(n) => Said::Need(n),
        Judgement::Proven(p) => proof_says(p),
        Judgement::Refused(u) => Said::Refused(u.0@),
    }
}

pub open spec fn shown(t: Timestamp) -> Seq<char> {
    outside::instant_written(t.ns as int)
}

/// What the expectation itself has to say, once the tree is known to be unused and to hold
/// nothing unsaved.
pub open spec fn expectation(f: TreeFacts, st: PathStat, e: Expect, proven: Said) -> Said {
    match e {
        Expect::Verified => proven,
        Expect::Replaced { pre, not_after } => if st.is_dir {
            Said::Refused("is a directory, but a file was moved aside"@)
        } else if after(pre.change_ns as int, not_after) {
            Said::Refused("modified after "@ + shown(not_after))
        } else if st.facts.ino != pre.ino || st.facts.size != pre.size || st.facts.mtime_ns
            != pre.mtime_ns {
            Said::Refused("changed while it was being replaced"@)
        } else {
            proven
        },
        Expect::Snapshot { kept } => match f.live {
            None => Said::Need(Need::Live),
            Some(Err(m)) => Said::Refused(m@),
            Some(Ok(live)) => if live.uuid@ != kept.source_uuid@ {
                Said::Refused(
                    "is subvolume "@ + uuid_text(live.uuid@) + ", not the source of snapshot #"@
                        + dec(kept.id as nat),
                )
            } else if !same_content(live, *kept) {
                Said::Refused("changed after snapshot #"@ + dec(kept.id as nat) + " was taken"@)
            } else {
                proven
            },
        },
        Expect::Tree { stats, not_after, exclude } => if !st.is_dir {
            if after(st.facts.change_ns as int, not_after) {
                Said::Refused("modified after "@ + shown(not_after))
            } else {
                proven
            }
        } else {
            match f.walked {
                None => Said::Need(Need::Walk),
                Some(Err(m)) => Said::Refused(m@),
                Some(Ok(now)) => if now.newest_change is Some && now.newest_change->0.ns
                    > not_after.ns {
                    Said::Refused(
                        "modified after the copy was made ("@ + shown(now.newest_change->0)
                            + " > "@ + shown(not_after) + ")"@,
                    )
                } else if stats is Some && counts_of(now) != counts_of(stats->0) {
                    Said::Refused(
                        "differs from the kept copy: "@ + counts_text(counts_of(now)) + " vs "@
                            + counts_text(counts_of(stats->0))
                            + " (files, dirs, symlinks, others, bytes)"@,
                    )
                } else {
                    proven
                },
            }
        },
    }
}

/// Whether a tree may go: what is known of it is asked in this order, and the first answer
/// against it stands.
pub open spec fn judged(f: TreeFacts, e: Expect, allowed: Seq<Seq<char>>) -> Said {
    match f.stat {
        None => Said::Need(Need::Stat),
        Some(Err(m)) => Said::Refused("stat: "@ + m@),
        Some(Ok(st)) => match f.users {
            None => Said::Need(Need::Users),
            Some(Some(u)) => Said::Refused("in use by "@ + u@),
            Some(None) => match f.mounts {
                None => Said::Need(Need::Mounts),
                Some(m) => if m@.len() > 0 {
                    Said::Refused(m@[0]@ + " is mounted inside"@)
                } else if !st.is_dir {
                    expectation(
                        f,
                        st,
                        e,
                        Said::Proven { path: f.path@, subvolume: false, recursive: false },
                    )
                } else {
                    match f.nested {
                        None => Said::Need(Need::Nested),
                        Some(Err(m)) => Said::Refused(m@),
                        Some(Ok(n)) => if not_allowed(texts(n@), allowed).len() > 0 {
                            Said::Refused(
                                "contains nested subvolumes not saved anywhere: "@ + joined(
                                    not_allowed(texts(n@), allowed),
                                    ", "@,
                                ),
                            )
                        } else {
                            match f.subvolume {
                                None => Said::Need(Need::Subvolume),
                                Some(s) => expectation(
                                    f,
                                    st,
                                    e,
                                    Said::Proven {
                                        path: f.path@,
                                        subvolume: s,
                                        recursive: n@.len() > 0,
                                    },
                                ),
                            }
                        },
                    }
                },
            },
        },
    }
}

fn refuse(m: String) -> (r: Judgement)
    ensures
        said(r) == Said::Refused(m@),
{
    Judgement::Refused(Unproven(m))
}

fn check_expectation(f: &TreeFacts, st: &PathStat, e: &Expect, proof_of: Proof) -> (r: Judgement)
    ensures
        said(r) == expectation(*f, *st, *e, proof_says(proof_of)),
{
    match e {
        Expect::Verified => Judgement::Proven(proof_of),
        Expect::Replaced { pre, not_after } => {
            if st.is_dir {
                return refuse("is a directory, but a file was moved aside".to_owned());
            }
            if is_after(pre.change_ns, *not_after) {
                return refuse(
                    cat2("modified after ", outside::instant_text(*not_after).as_str()),
                );
            }
            if st.facts.ino != pre.ino || st.facts.size != pre.size || st.facts.mtime_ns
                != pre.mtime_ns {
                return refuse("changed while it was being replaced".to_owned());
            }
            Judgement::Proven(proof_of)
        },
        Expect::Snapshot { kept } => match &f.live {
            None => Judgement::Need(Need::Live),
            Some(Err(m)) => refuse(m.clone()),
            Some(Ok(live)) => {
                if !live.uuid.same(&kept.source_uuid) {
                    return refuse(
                        cat4(
                            "is subvolume ",
                            live.uuid.to_string().as_str(),
                            ", not the source of snapshot #",
                            dec_u64(kept.id).as_str(),
                        ),
                    );
                }
                if !identical(live, kept) {
                    return refuse(
                        cat3("changed after snapshot #", dec_u64(kept.id).as_str(), " was taken"),
                    );
                }
                Judgement::Proven(proof_of)
            },
        },
        Expect::Tree { stats, not_after, exclude } => {
            if !st.is_dir {
                if is_after(st.facts.change_ns, *not_after) {
                    return refuse(
                        cat2("modified after ", outside::instant_text(*not_after).as_str()),
                    );
                }
                return Judgement::Proven(proof_of);
            }
            match &f.walked {
                None => Judgement::Need(Need::Walk),
                Some(Err(m)) => refuse(m.clone()),
                Some(Ok(now)) => {
                    if let Some(c) = now.newest_change {
                        if c.ns > not_after.ns {
                            return refuse(
                                cat5(
                                    "modified after the copy was made (",
                                    outside::instant_text(c).as_str(),
                                    " > ",
                                    outside::instant_text(*not_after).as_str(),
                                    ")",
                                ),
                            );
                        }
                    }
                    if let Some(s) = stats {
                        let a = counts(now);
                        let b = counts(s);
                        if a.0 != b.0 || a.1 != b.1 || a.2 != b.2 || a.3 != b.3 || a.4 != b.4 {
                            return refuse(
                                cat5(
                                    "differs from the kept copy: ",
                                    show_counts(a).as_str(),
                                    " vs ",
                                    show_counts(b).as_str(),
                                    " (files, dirs, symlinks, others, bytes)",
                                ),
                            );
                        }
                    }
                    Judgement::Proven(proof_of)
                },
            }
        },
    }
}

/// Checks what is known of a tree against `expect`, or says what else has to be known.
/// `allowed_nested` are relative paths of nested subvolumes that may be deleted with it (build
/// directories the user chose to drop).
pub fn prove(f: &TreeFacts, expect: &Expect, allowed_nested: &Vec<String>) -> (r: Judgement)
    ensures
        said(r) == judged(*f, *expect, texts(allowed_nested@)),
{
    let st = match &f.stat {
        None => {
            return Judgement::Need(Need::Stat);
        },
        Some(Err(m)) => {
            return refuse(cat2("stat: ", m.as_str()));
        },
        Some(Ok(st)) => st,
    };
    match &f.users {
        None => {
            return Judgement::Need(Need::Users);
        },
        Some(Some(u)) => {
            return refuse(cat2("in use by ", u.as_str()));
        },
        Some(None) => {},
    }
    match &f.mounts {
        None => {
            return Judgement::Need(Need::Mounts);
        },
        Some(m) => {
            if m.len() > 0 {
                return refuse(cat2(m[0].as_str(), " is mounted inside"));
            }
        },
    }
    if !st.is_dir {
        return check_expectation(
            f,
            st,
            expect,
            Proof { path: f.path.clone(), subvolume: false, recursive: false },
        );
    }
    let recursive = match &f.nested {
        None => {
            return Judgement::Need(Need::Nested);
        },
        Some(Err(m)) => {
            return refuse(m.clone());
        },
        Some(Ok(n)) => {
            let bad = unexpected(n, allowed_nested);
            assert(texts(bad@).len() == bad@.len());
            if bad.len() > 0 {
                return refuse(
                    cat2(
                        "contains nested subvolumes not saved anywhere: ",
                        join(&bad, ", ").as_str(),
                    ),
                );
            }
            n.len() > 0
        },
    };
    match f.subvolume {
        None => Judgement::Need(Need::Subvolume),
        Some(s) => check_expectation(
            f,
            st,
            expect,
            Proof { path: f.path.clone(), subvolume: s, recursive },
        ),
    }
}

/// A tree may be deleted only where the facts are of that tree, nobody uses it, nothing is mounted in it, every nested
/// subvolume may go with it, and its content is what was kept: unchanged since the snapshot, or
/// since the copy was made and with the same counts, or still the file that was moved aside.
pub proof fn law_deletion_needs_proof(f: TreeFacts, e: Expect, allowed: Seq<Seq<char>>)
    requires
        judged(f, e, allowed) is Proven,
    ensures
        judged(f, e, allowed)->path == f.path@,
        f.stat is Some && f.stat->0 is Ok,
        f.users == Some(None::<String>),
        f.mounts is Some && f.mounts->0@.len() == 0,
        (f.stat->0->Ok_0).is_dir ==> f.nested is Some && f.nested->0 is Ok && not_allowed(
            texts((f.nested->0->Ok_0)@),
            allowed,
        ).len() == 0,
        e matches Expect::Snapshot { kept } ==> f.live is Some && f.live->0 is Ok && (
        f.live->0->Ok_0).uuid@ == kept.source_uuid@ && same_content(f.live->0->Ok_0, *kept),
        e matches Expect::Replaced { pre, not_after } ==> !(f.stat->0->Ok_0).is_dir && !after(
            pre.change_ns as int,
            not_after,
        ) && (f.stat->0->Ok_0).facts.ino == pre.ino && (f.stat->0->Ok_0).facts.size == pre.size && (
        f.stat->0->Ok_0).facts.mtime_ns == pre.mtime_ns,
        e matches Expect::Tree { stats, not_after, exclude } ==> ((f.stat->0->Ok_0).is_dir
            ==> f.walked is Some && f.walked->0 is Ok && ((f.walked->0->Ok_0).newest_change is Some
            ==> (f.walked->0->Ok_0).newest_change->0.ns <= not_after.ns) && (stats is Some
            ==> counts_of(f.walked->0->Ok_0) == counts_of(stats->0))),
{
}

/// How a proven tree is deleted.
#[derive(Clone, Copy, Debug, PartialEq, Eq, Structural)]
pub enum Deletion {
    Subvolume { recursive: bool },
    /// A plain directory; nested subvolumes go first where there are any.
    Directory { nested_first: bool },
    File,
}

/// How a proven tree is deleted, and where it is. The proof is used up.
pub fn delete(p: Proof, is_dir: bool) -> (r: (String, Deletion))
    ensures
        r.0@ == p.at(),
        r.1 == if p.of_subvolume() {
            Deletion::Subvolume { recursive: p.with_nested() }
        } else if is_dir {
            Deletion::Directory { nested_first: p.with_nested() }
        } else {
            Deletion::File
        },
{
    let how = if p.subvolume {
        Deletion::Subvolume { recursive: p.recursive }
    } else if is_dir {
        Deletion::Directory { nested_first: p.recursive }
    } else {
        Deletion::File
    };
    (p.path, how)
}

/// The names under which something is kept, in the order in which they are tried.
pub open spec fn keep_candidate(
    base: Seq<char>,
    op: Seq<char>,
    stamp: Seq<char>,
    n: nat,
) -> Seq<char> {
    let first = base + KEEP_MARKER@ + op + "-"@ + stamp;
    if n == 0 {
        first
    } else {
        first + "-"@ + dec(n)
    }
}

/// What a name is the name of, without the endings of things left behind.
pub open spec fn is_base(name: Seq<char>, base: Seq<char>) -> bool {
    if left_behind(name) {
        exists|l: Leftover| leftover_of(name, l) && base == #[trigger] base_of(l)
    } else {
        base == name
    }
}

/// `r` is the first name for something kept that is not taken.
pub open spec fn kept_as(
    base: Seq<char>,
    op: Seq<char>,
    stamp: Seq<char>,
    taken: Seq<Seq<char>>,
    r: Seq<char>,
) -> bool {
    exists|n: nat|
        r == #[trigger] keep_candidate(base, op, stamp, n) && !taken.contains(r) && forall|k: nat|
            k < n ==> taken.contains(#[trigger] keep_candidate(base, op, stamp, k))
}

proof fn lemma_candidates_differ(
    base: Seq<char>,
    op: Seq<char>,
    stamp: Seq<char>,
    a: nat,
    b: nat,
)
    requires
        keep_candidate(base, op, stamp, a) == keep_candidate(base, op, stamp, b),
    ensures
        a == b,
{
    reveal_strlit("-");
    let first = base + KEEP_MARKER@ + op + "-"@ + stamp;
    let x = keep_candidate(base, op, stamp, a);
    let y = keep_candidate(base, op, stamp, b);
    if a > 0 && b > 0 {
        let n = first.len() + 1;
        assert(x.skip(n as int) =~= dec(a));
        assert(y.skip(n as int) =~= dec(b));
        let max = a + b;
        law_number_round_trip(a, max);
        law_number_round_trip(b, max);
    }
}

/// Not all of the first names can be taken.
proof fn lemma_some_candidate_is_free(
    base: Seq<char>,
    op: Seq<char>,
    stamp: Seq<char>,
    taken: Seq<Seq<char>>,
)
    ensures
        exists|n: nat| n <= taken.len() && !taken.contains(keep_candidate(base, op, stamp, n)),
{
    if forall|n: nat| n <= taken.len() ==> taken.contains(keep_candidate(base, op, stamp, n)) {
        let tried = Seq::new(
            (taken.len() + 1) as nat,
            |i: int| keep_candidate(base, op, stamp, i as nat),
        );
        assert(tried.no_duplicates()) by {
            assert forall|i: int, j: int| 0 <= i < tried.len() && 0 <= j < tried.len() && i != j
                implies tried[i] != tried[j] by {
                if tried[i] == tried[j] {
                    lemma_candidates_differ(base, op, stamp, i as nat, j as nat);
                }
            }
        }
        tried.unique_seq_to_set();
        taken.lemma_cardinality_of_set();
        assert(tried.to_set().subset_of(taken.to_set())) by {
            assert forall|x: Seq<char>| tried.to_set().contains(x) implies taken.to_set().contains(
                x,
            ) by {
                let i = tried.index_of(x);
                assert(tried[i] == x);
                assert(taken.contains(keep_candidate(base, op, stamp, i as nat)));
            }
        }
        vstd::set_lib::lemma_len_subset(tried.to_set(), taken.to_set());
        assert(false);
    }
}

/// `r` is the name under which something named `name` is kept at the instant `now`.
pub open spec fn is_keep_name(
    name: Seq<char>,
    op: Seq<char>,
    now: Timestamp,
    taken: Seq<Seq<char>>,
    r: Seq<char>,
) -> bool {
    exists|base: Seq<char>|
        is_base(name, base) && #[trigger] kept_as(
            base,
            op,
            outside::instant_formatted(now.ns as int, "%Y%m%dT%H%M%S"@),
            taken,
            r,
        )
}

/// `<base>.bpm-keep-<op>-<timestamp>` for something named `name`, where `base` drops the endings
/// of things left behind; with a number where that name is taken.
pub fn keep_name(name: &str, op: &str, now: Timestamp, taken: &Vec<String>) -> (r: String)
    requires
        taken@.len() < u64::MAX,
    ensures
        is_keep_name(name@, op@, now, texts(taken@), r@),
{
    let base = match Leftover::parse(name) {
        Some(l) => {
            let b = l.base().to_owned();
            assert(leftover_of(name@, l) && b@ == base_of(l));
            b
        },
        None => name.to_owned(),
    };
    assert(is_base(name@, base@));
    let stamp = outside::strftime(now, "%Y%m%dT%H%M%S");
    let first = cat5(base.as_str(), KEEP_MARKER, op, "-", stamp.as_str());
    let mut candidate = first.clone();
    let mut n: u64 = 0;
    proof {
        lemma_some_candidate_is_free(base@, op@, stamp@, texts(taken@));
    }
    let ghost free = choose|n: nat|
        n <= texts(taken@).len() && !texts(taken@).contains(
            keep_candidate(base@, op@, stamp@, n),
        );
    while list_has(taken, candidate.as_str())
        invariant
            candidate@ == keep_candidate(base@, op@, stamp@, n as nat),
            first@ == keep_candidate(base@, op@, stamp@, 0),
            forall|k: nat|
                k < n ==> texts(taken@).contains(
                    #[trigger] keep_candidate(base@, op@, stamp@, k),
                ),
            n <= free <= texts(taken@).len() < u64::MAX,
            !texts(taken@).contains(keep_candidate(base@, op@, stamp@, free)),
        decreases free - n,
    {
        n += 1;
        candidate = cat3(first.as_str(), "-", dec_u64(n).as_str());
    }
    assert(kept_as(base@, op@, stamp@, texts(taken@), candidate@));
    candidate
}

/// What is reported of a tree that is kept.
pub open spec fn kept_text(op: Seq<char>, keep: Seq<char>, why: Seq<char>) -> Seq<char> {
    op + ": kept "@ + keep + " instead of deleting it: "@ + why
        + ". It may hold changes that exist nowhere else; compare and merge by hand, then delete it"@
}

/// What is reported of a tree that is kept.
pub fn kept_message(op: &str, keep: &str, why: &Unproven) -> (r: String)
    ensures
        r@ == kept_text(op@, keep@, why.0@),
{
    let mut m = cat5(op, ": kept ", keep, " instead of deleting it: ", why.0.as_str());
    m.append(
        ". It may hold changes that exist nowhere else; compare and merge by hand, then delete it",
    );
    m
}

/// What becomes of a tree once the judgement on it is complete.
pub enum Retirement {
    Delete(Proof),
    /// Rename it to this name and report why.
    Keep { name: String, why: Unproven },
    Ask(Need),
}

/// Deletes a tree if it matches what is expected, otherwise keeps it under a leftover name.
pub fn retire(
    f: &TreeFacts,
    expect: &Expect,
    allowed_nested: &Vec<String>,
    name: &str,
    op: &str,
    now: Timestamp,
    taken: &Vec<String>,
) -> (r: Retirement)
    requires
        taken@.len() < u64::MAX,
    ensures
        match r {
            Retirement::Ask(n) => judged(*f, *expect, texts(allowed_nested@)) == Said::Need(n),
            Retirement::Delete(p) => judged(*f, *expect, texts(allowed_nested@)) == proof_says(p),
            Retirement::Keep { name: k, why } => judged(*f, *expect, texts(allowed_nested@))
                == Said::Refused(why.0@) && is_keep_name(name@, op@, now, texts(taken@), k@),
        },
{
    match prove(f, expect, allowed_nested) {
        Judgement::Need(n) => Retirement::Ask(n),
        Judgement::Proven(p) => Retirement::Delete(p),
        Judgement::Refused(why) => {
            let k = keep_name(name, op, now, taken);
            Retirement::Keep { name: k, why }
        },
    }
}

/// What is asked of the content of a tree before it goes.
pub open spec fn content_kept(f: TreeFacts, st: PathStat, e: Expect) -> bool {
    match e {
        Expect::Verified => true,
        Expect::Replaced { pre, not_after } => {
            &&& !st.is_dir
            &&& !in_calendar(pre.change_ns as int) || pre.change_ns <= not_after.ns
            &&& st.facts.ino == pre.ino
            &&& st.facts.size == pre.size
            &&& st.facts.mtime_ns == pre.mtime_ns
        },
        Expect::Snapshot { kept } => f.live matches Some(Ok(live)) && live.uuid@
            == kept.source_uuid@ && live.ctransid == kept.source_ctransid && live.generation
            <= kept.snapshot_otransid,
        Expect::Tree { stats, not_after, exclude } => if st.is_dir {
            f.walked matches Some(Ok(now)) && (now.newest_change matches Some(t) ==> t.ns
                <= not_after.ns) && (stats matches Some(s) ==> now.files == s.files && now.dirs
                == s.dirs && now.symlinks == s.symlinks && now.others == s.others && now.path_bytes
                == s.path_bytes)
        } else {
            !in_calendar(st.facts.change_ns as int) || st.facts.change_ns <= not_after.ns
        },
    }
}

/// A tree may be deleted just where nobody uses it, nothing is mounted inside, every nested
/// subvolume may go with it, and its content was kept. Nested subvolumes go with it where it has
/// any, and it goes as a subvolume where it is one.
pub proof fn law_what_is_proven_may_go(f: TreeFacts, e: Expect, allowed: Seq<Seq<char>>)
    requires
        f.stat is Some && f.stat->0 is Ok,
        f.users is Some && f.mounts is Some && f.subvolume is Some,
        f.nested is Some && f.nested->0 is Ok,
    ensures
        ({
            let st = f.stat->0->Ok_0;
            let nested = texts(f.nested->0->Ok_0@);
            &&& judged(f, e, allowed) is Proven <==> {
                &&& f.users->0 is None && f.mounts->0@.len() == 0
                &&& st.is_dir ==> forall|i: int|
                    0 <= i < nested.len() ==> exists|j: int|
                        0 <= j < allowed.len() && same_path(
                            #[trigger] allowed[j],
                            #[trigger] nested[i],
                        )
                &&& content_kept(f, st, e)
            }
            &&& judged(f, e, allowed) is Proven ==> judged(f, e, allowed)
                == (Said::Proven {
                path: f.path@,
                subvolume: st.is_dir && f.subvolume->0,
                recursive: st.is_dir && nested.len() > 0,
            })
        }),
{
    let nested = texts(f.nested->0->Ok_0@);
    lemma_all_allowed(nested, allowed);
    if not_allowed(nested, allowed).len() == 0 {
        assert forall|i: int| 0 <= i < nested.len() implies exists|j: int|
            0 <= j < allowed.len() && same_path(#[trigger] allowed[j], #[trigger] nested[i]) by {
            assert(listed(nested[i], allowed));
        }
    }
    if forall|i: int|
        0 <= i < nested.len() ==> exists|j: int|
            0 <= j < allowed.len() && same_path(#[trigger] allowed[j], #[trigger] nested[i]) {
        assert forall|i: int| 0 <= i < nested.len() implies #[trigger] listed(nested[i], allowed) by {
            let j = choose|j: int|
                0 <= j < allowed.len() && same_path(#[trigger] allowed[j], nested[i]);
            assert(same_path(allowed[j], nested[i]));
        }
    }
}

proof fn lemma_all_allowed(nested: Seq<Seq<char>>, allowed: Seq<Seq<char>>)
    ensures
        not_allowed(nested, allowed).len() == 0 <==> forall|i: int|
            0 <= i < nested.len() ==> #[trigger] listed(nested[i], allowed),
    decreases nested.len(),
{
    if nested.len() > 0 {
        let t = nested.drop_last();
        lemma_all_allowed(t, allowed);
        assert(forall|i: int| 0 <= i < t.len() ==> t[i] == nested[i]);
        if not_allowed(t, allowed).len() == 0 && listed(nested.last(), allowed) {
            assert forall|i: int| 0 <= i < nested.len() implies #[trigger] listed(
                nested[i],
                allowed,
            ) by {
                if i < t.len() {
                    assert(listed(t[i], allowed));
                }
            }
        }
        if forall|i: int| 0 <= i < nested.len() ==> #[trigger] listed(nested[i], allowed) {
            assert(listed(nested[nested.len() - 1], allowed));
            assert forall|i: int| 0 <= i < t.len() implies #[trigger] listed(t[i], allowed) by {
                assert(listed(nested[i], allowed));
            }
        }
    }
}

/// Of a mount table those lines count whose fifth word is the place itself or leads below it; a
/// place whose name only begins alike is another one.
pub proof fn law_mounts_are_found_by_place(
    table: Seq<Seq<char>>,
    line: Seq<char>,
    prefix: Seq<char>,
    m: Seq<char>,
)
    requires
        words_of(line).len() > 4,
        m == replaced(words_of(line)[4], "\\040"@, " "@),
    ensures
        mounts_of(Seq::empty(), prefix).len() == 0,
        m == prefix || (m.len() > prefix.len() && m.take(prefix.len() as int) == prefix
            && m[prefix.len() as int] == '/') ==> mounts_of(table.push(line), prefix) == mounts_of(
            table,
            prefix,
        ).push(m),
        m != prefix && !(m.len() > prefix.len() && m.take(prefix.len() as int) == prefix
            && m[prefix.len() as int] == '/') ==> mounts_of(table.push(line), prefix) == mounts_of(
            table,
            prefix,
        ),
{
    reveal_strlit("/");
    assert(table.push(line).drop_last() =~= table);
    let p = prefix + "/"@;
    if m.len() > prefix.len() && m.take(prefix.len() as int) == prefix && m[prefix.len() as int]
        == '/' {
        assert(m.take(p.len() as int) =~= p);
    }
    if starts(m, p) {
        assert(m.take(prefix.len() as int) =~= m.take(p.len() as int).take(prefix.len() as int));
        assert(p.take(prefix.len() as int) =~= prefix);
        assert(m.take(p.len() as int)[prefix.len() as int] == '/');
    }
}

/// What is kept gets a name that nothing has, and that is known as one of something left behind.
pub proof fn law_kept_things_are_known_as_left_behind(
    name: Seq<char>,
    op: Seq<char>,
    now: Timestamp,
    taken: Seq<Seq<char>>,
    r: Seq<char>,
)
    requires
        is_keep_name(name, op, now, taken, r),
    ensures
        !taken.contains(r),
        leftover_name(r),
{
    let stamp = outside::instant_formatted(now.ns as int, "%Y%m%dT%H%M%S"@);
    let base = choose|base: Seq<char>|
        is_base(name, base) && #[trigger] kept_as(base, op, stamp, taken, r);
    let n = choose|n: nat|
        r == #[trigger] keep_candidate(base, op, stamp, n) && !taken.contains(r) && forall|k: nat|
            k < n ==> taken.contains(#[trigger] keep_candidate(base, op, stamp, k));
    let b = base.len() as int;
    assert(r.subrange(b, b + ".bpm-keep-"@.len()) =~= ".bpm-keep-"@);
    assert(occurs(r, ".bpm-keep-"@, b));
}

} // verus!
