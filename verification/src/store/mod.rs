//! The snapshot store.

use vstd::prelude::*;

use crate::util::paths::path_join;
#[allow(unused_imports)]
use crate::util::paths::{
    absolute, joined_path, law_paths_are_joined_step_by_step, lemma_spelled,
};
#[allow(unused_imports)]
use crate::util::relpath::{are_steps, real_step, steps};
use crate::util::text::{dec_u64, join, str_eq};
#[allow(unused_imports)]
use crate::util::text::{dec, is_digit, joined, lemma_dec_digits, texts};

pub mod journal;
pub mod lock;
pub mod meta;
pub mod scan;
pub mod snapid;

pub use meta::{
    ArchiveRecord, ErrorRecord, Frozen, KindClass, Origin, ProjectRecord, ProjectState,
    RecompressRecord, RefStats, SnapshotKind, SnapshotMeta, Stage, StoreInfo,
};

verus! {

/// The name of the unit that holds the snapshots of the root itself.
pub const CONTAINER: &'static str = "@container";

/// The store of one root.
pub struct Store {
    pub root: String,
    pub dir: String,
    pub dry_run: bool,
}

/// The place of one project in a store.
pub struct Unit {
    pub name: String,
    pub dir: String,
    pub dry_run: bool,
}

/// Where a store keeps what belongs to the project with a name; to the root where the name says
/// so.
pub open spec fn unit_place(store: Seq<char>, name: Seq<char>) -> Seq<char> {
    if name == CONTAINER@ {
        joined_path(store, "container"@)
    } else {
        joined_path(joined_path(store, "projects"@), name)
    }
}

impl Store {
    pub fn new(root: &str, store_dir: &str, dry_run: bool) -> (r: Store)
        ensures
            r.root@ == root@,
            r.dir@ == joined_path(root@, store_dir@),
            r.dry_run == dry_run,
    {
        Store { root: root.to_owned(), dir: path_join(root, store_dir), dry_run }
    }

    pub fn info_path(&self) -> (r: String)
        ensures
            r@ == joined_path(self.dir@, "store.toml"@),
    {
        path_join(self.dir.as_str(), "store.toml")
    }

    pub fn projects_dir(&self) -> (r: String)
        ensures
            r@ == joined_path(self.dir@, "projects"@),
    {
        path_join(self.dir.as_str(), "projects")
    }

    /// The place of the project with a name; that of the root where the name says so.
    pub fn unit(&self, name: &str) -> (r: Unit)
        ensures
            r.name@ == name@,
            r.dir@ == unit_place(self.dir@, name@),
            r.dry_run == self.dry_run,
    {
        if str_eq(name, CONTAINER) {
            return self.container();
        }
        Unit {
            name: name.to_owned(),
            dir: path_join(self.projects_dir().as_str(), name),
            dry_run: self.dry_run,
        }
    }

    pub fn container(&self) -> (r: Unit)
        ensures
            r.name@ == CONTAINER@,
            r.dir@ == joined_path(self.dir@, "container"@),
            r.dry_run == self.dry_run,
    {
        Unit {
            name: CONTAINER.to_owned(),
            dir: path_join(self.dir.as_str(), "container"),
            dry_run: self.dry_run,
        }
    }

    pub fn tmp_dir(&self) -> (r: String)
        ensures
            r@ == joined_path(self.dir@, "tmp"@),
    {
        path_join(self.dir.as_str(), "tmp")
    }

    pub fn lock_path(&self) -> (r: String)
        ensures
            r@ == joined_path(self.dir@, "lock"@),
    {
        path_join(self.dir.as_str(), "lock")
    }
}

impl Unit {
    pub fn record_path(&self) -> (r: String)
        ensures
            r@ == joined_path(self.dir@, "project.toml"@),
    {
        path_join(self.dir.as_str(), "project.toml")
    }

    pub fn state_path(&self) -> (r: String)
        ensures
            r@ == joined_path(self.dir@, "state.toml"@),
    {
        path_join(self.dir.as_str(), "state.toml")
    }

    pub fn frozen_marker(&self) -> (r: String)
        ensures
            r@ == joined_path(self.dir@, "FROZEN"@),
    {
        path_join(self.dir.as_str(), "FROZEN")
    }

    pub fn snapshot_dir(&self, id: u64) -> (r: String)
        ensures
            r@ == joined_path(self.dir@, dec(id as nat)),
    {
        path_join(self.dir.as_str(), dec_u64(id).as_str())
    }

    pub fn snapshot_path(&self, id: u64) -> (r: String)
        ensures
            r@ == snapshot_place(self.dir@, id),
    {
        path_join(self.snapshot_dir(id).as_str(), "snapshot")
    }

    pub fn meta_path(&self, id: u64) -> (r: String)
        ensures
            r@ == joined_path(joined_path(self.dir@, dec(id as nat)), "meta.toml"@),
    {
        path_join(self.snapshot_dir(id).as_str(), "meta.toml")
    }

    pub fn is_container(&self) -> (r: bool)
        ensures
            r == (self.name@ == CONTAINER@),
    {
        str_eq(self.name.as_str(), CONTAINER)
    }

    pub fn lock_path(&self) -> (r: String)
        ensures
            r@ == joined_path(self.dir@, "lock"@),
    {
        path_join(self.dir.as_str(), "lock")
    }

    /// The same place again.
    pub fn copy(&self) -> (r: Unit)
        ensures
            r == *self,
    {
        Unit { name: self.name.clone(), dir: self.dir.clone(), dry_run: self.dry_run }
    }
}

/// Where a snapshot is.
pub open spec fn snapshot_place(dir: Seq<char>, id: u64) -> Seq<char> {
    joined_path(joined_path(dir, dec(id as nat)), "snapshot"@)
}

/// What the marker of a frozen project says: its reasons, one a line.
pub fn marker_text(f: &Frozen) -> (r: String)
    ensures
        r@ == joined(texts(f.reasons@), "\n"@),
{
    join(&f.reasons, "\n")
}

/// Snapshot `a` is at least as new as `b`: by creation transaction, then by id.
pub open spec fn as_new(a: SnapshotMeta, b: SnapshotMeta) -> bool {
    b.snapshot_otransid < a.snapshot_otransid || (b.snapshot_otransid == a.snapshot_otransid && b.id
        <= a.id)
}

/// Whether position `i` holds the newest snapshot, the last one where several are equally new.
pub open spec fn is_newest(s: Seq<SnapshotMeta>, i: int) -> bool {
    &&& 0 <= i < s.len()
    &&& forall|j: int| 0 <= j < s.len() ==> as_new(s[i], #[trigger] s[j])
    &&& forall|j: int| i < j < s.len() ==> !as_new(#[trigger] s[j], s[i])
}

/// The position of the newest snapshot.
pub open spec fn newest_index(s: Seq<SnapshotMeta>) -> Option<int> {
    if s.len() == 0 {
        None
    } else {
        Some(choose|i: int| is_newest(s, i))
    }
}

/// There is at most one newest snapshot.
pub proof fn lemma_newest_unique(s: Seq<SnapshotMeta>, i: int, j: int)
    requires
        is_newest(s, i),
        is_newest(s, j),
    ensures
        i == j,
{
    assert(as_new(s[i], s[j]));
    assert(as_new(s[j], s[i]));
}

/// A list that is not empty has a newest snapshot.
pub proof fn lemma_newest(s: Seq<SnapshotMeta>)
    requires
        s.len() > 0,
    ensures
        newest_index(s) is Some,
        is_newest(s, newest_index(s)->0),
    decreases s.len(),
{
    let t = s.drop_last();
    if t.len() == 0 {
        assert(is_newest(s, 0));
    } else {
        lemma_newest(t);
        let b = newest_index(t)->0;
        assert(forall|j: int| 0 <= j < t.len() ==> t[j] == s[j]);
        if as_new(s.last(), s[b]) {
            assert(is_newest(s, s.len() - 1)) by {
                assert forall|j: int| 0 <= j < s.len() implies as_new(s.last(), #[trigger] s[j]) by {
                    if j < t.len() {
                        assert(as_new(t[b], t[j]));
                    }
                }
            }
        } else {
            assert(is_newest(s, b));
        }
    }
}

/// The position of the newest snapshot.
pub fn newest_at(snaps: &Vec<SnapshotMeta>) -> (r: Option<usize>)
    ensures
        match r {
            Some(i) => is_newest(snaps@, i as int) && newest_index(snaps@) == Some(i as int),
            None => snaps@.len() == 0,
        },
{
    if snaps.len() == 0 {
        return None;
    }
    let mut best: usize = 0;
    let mut i: usize = 1;
    while i < snaps.len()
        invariant
            best < i <= snaps@.len(),
            forall|j: int| 0 <= j < i ==> as_new(snaps@[best as int], #[trigger] snaps@[j]),
            forall|j: int| best < j < i ==> !as_new(#[trigger] snaps@[j], snaps@[best as int]),
        decreases snaps@.len() - i,
    {
        let a = &snaps[best];
        let b = &snaps[i];
        if a.snapshot_otransid < b.snapshot_otransid || (a.snapshot_otransid == b.snapshot_otransid
            && a.id <= b.id) {
            best = i;
        }
        i += 1;
    }
    proof {
        let s = snaps@;
        assert(is_newest(s, best as int));
        lemma_newest_unique(s, best as int, choose|i: int| is_newest(s, i));
    }
    Some(best)
}

/// The newest snapshot.
pub fn newest(snaps: &Vec<SnapshotMeta>) -> (r: Option<&SnapshotMeta>)
    ensures
        match r {
            Some(m) => newest_index(snaps@) is Some && *m == snaps@[newest_index(snaps@)->0]
                && is_newest(snaps@, newest_index(snaps@)->0),
            None => snaps@.len() == 0,
        },
{
    match newest_at(snaps) {
        Some(i) => Some(&snaps[i]),
        None => None,
    }
}

/// The newest snapshot is the one that the file system made last: no other one has a later
/// creation transaction, or the same one and a greater id. Where one snapshot is ahead of every
/// other in this way, it is the newest.
pub proof fn law_the_newest_was_made_last(s: Seq<SnapshotMeta>, n: int)
    requires
        0 <= n < s.len(),
    ensures
        newest_index(s) is Some,
        newest_index(s) == Some(n) ==> forall|j: int|
            0 <= j < s.len() ==> (#[trigger] s[j]).snapshot_otransid < s[n].snapshot_otransid || (
            s[j].snapshot_otransid == s[n].snapshot_otransid && s[j].id <= s[n].id),
        (forall|j: int|
            0 <= j < s.len() && j != n ==> (#[trigger] s[j]).snapshot_otransid
                < s[n].snapshot_otransid || (s[j].snapshot_otransid == s[n].snapshot_otransid
                && s[j].id < s[n].id)) ==> newest_index(s) == Some(n),
{
    lemma_newest(s);
    if forall|j: int|
        0 <= j < s.len() && j != n ==> (#[trigger] s[j]).snapshot_otransid < s[n].snapshot_otransid
            || (s[j].snapshot_otransid == s[n].snapshot_otransid && s[j].id < s[n].id) {
        assert(is_newest(s, n));
        lemma_newest_unique(s, n, newest_index(s)->0);
    }
}

/// A project is kept below the projects of the store under its own name, the root itself beside
/// them, and a snapshot under its number in the directory of its project.
pub proof fn law_everything_has_its_place(store: Seq<char>, name: Seq<char>, id: u64)
    requires
        name.len() > 0 && name != "."@ && !name.contains('/'),
    ensures
        name != CONTAINER@ ==> steps(unit_place(store, name)) == steps(store) + seq![
            "projects"@,
            name,
        ],
        steps(unit_place(store, CONTAINER@)) == steps(store) + seq!["container"@],
        steps(snapshot_place(store, id)) == steps(store) + seq![dec(id as nat), "snapshot"@],
{
    reveal_strlit("projects");
    reveal_strlit("container");
    reveal_strlit("snapshot");
    reveal_strlit(".");
    assert("."@.len() == 1 && "projects"@.len() == 8 && "container"@.len() == 9 && "snapshot"@.len()
        == 8);
    let p = joined_path(store, "projects"@);
    lemma_one_step("projects"@);
    lemma_one_step("container"@);
    lemma_one_step("snapshot"@);
    lemma_one_step(name);
    law_paths_are_joined_step_by_step(store, "projects"@);
    law_paths_are_joined_step_by_step(store, "container"@);
    law_paths_are_joined_step_by_step(p, name);
    assert(steps(store) + seq!["projects"@] + seq![name] =~= steps(store) + seq![
        "projects"@,
        name,
    ]);
    let d = dec(id as nat);
    lemma_dec_digits(id as nat);
    if d.contains('/') {
        let i = choose|i: int| 0 <= i < d.len() && d[i] == '/';
        assert(is_digit(d[i]));
    }
    assert(d != "."@) by {
        assert(is_digit(d[0]));
    }
    lemma_one_step(d);
    law_paths_are_joined_step_by_step(store, d);
    law_paths_are_joined_step_by_step(joined_path(store, d), "snapshot"@);
    assert(steps(store) + seq![d] + seq!["snapshot"@] =~= steps(store) + seq![d, "snapshot"@]);
}

proof fn lemma_one_step(s: Seq<char>)
    requires
        s.len() > 0,
        s != "."@,
        !s.contains('/'),
    ensures
        steps(s) == seq![s],
        !absolute(s),
{
    let v = seq![s];
    assert(are_steps(v)) by {
        assert forall|i: int| 0 <= i < v.len() implies real_step(#[trigger] v[i])
            && !v[i].contains('/') by {}
    }
    lemma_spelled(v);
    assert(joined(v, "/"@) == s);
}

} // verus!
