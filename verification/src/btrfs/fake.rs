//! A model of btrfs subvolumes on an ordinary directory tree, for tests.
//!
//! Subvolumes are known by device and inode of their root directory, so renames keep working.
//! Content changes bump `ctransid` and `generation`; snapshotting bumps only the source
//! `generation`; snapshots inherit `ctransid`. Like the kernel for buffered writes, counters move
//! only when changes are flushed: on `sync`, on `snapshot` (for the source) and on `defragment`.
//!
//! What only the directory tree can tell is handed in: which directory stands at a path, and a
//! fingerprint of what is in it, where nested subvolumes count as empty directories.

use vstd::prelude::*;

use crate::btrfs::{DefragOpts, DuStats, FsUsage, SubvolInfo, Uuid};
#[allow(unused_imports)]
use crate::btrfs::{law_uuid_round_trip, uuid_bytes, uuid_text};
#[allow(unused_imports)]
use crate::outside::quoted;
#[allow(unused_imports)]
use crate::policy::change::same_content;
#[allow(unused_imports)]
use crate::store::SnapshotMeta;
use crate::util::paths::path_name;
#[allow(unused_imports)]
use crate::util::paths::name_of;
use crate::util::text::{cat2, cat3, cat4, cat5, copy_list, dec_u64, str_eq, words};
#[allow(unused_imports)]
use crate::util::text::{dec, is_space, lemma_pieces_run, pieces, texts, words_of};
use crate::util::time::Timestamp;

verus! {

/// Device and inode of the directory that is the root of a subvolume.
pub type Key = (u64, u64);

/// A directory as it stands.
#[derive(Clone, Copy, Debug)]
pub struct DirFacts {
    pub key: Key,
    /// Stands for everything in it.
    pub fingerprint: u64,
}

/// One subvolume of the model.
pub struct FakeSubvol {
    pub id: u64,
    pub name: String,
    pub uuid: Uuid,
    pub parent_uuid: Option<Uuid>,
    pub received_uuid: Option<Uuid>,
    pub generation: u64,
    pub ctransid: u64,
    pub otransid: u64,
    pub ro: bool,
    pub fingerprint: u64,
    pub ctime: Timestamp,
    pub otime: Timestamp,
    pub path: String,
}

/// A file system with its subvolumes.
pub struct FakeBtrfs {
    pub transid: u64,
    pub next_id: u64,
    pub subvols: Vec<(Key, FakeSubvol)>,
    pub ops: Vec<String>,
    pub usage: FsUsage,
}

/// What a snapshot has from its source.
#[derive(Clone, Copy, Debug)]
pub struct Lineage {
    pub uuid: Uuid,
    pub ctransid: u64,
    pub ctime: Timestamp,
}

/// One subvolume, as contracts speak of it.
pub struct Subvol {
    pub id: u64,
    pub name: Seq<char>,
    pub uuid: Uuid,
    pub parent_uuid: Option<Uuid>,
    pub received_uuid: Option<Uuid>,
    pub generation: u64,
    pub ctransid: u64,
    pub otransid: u64,
    pub ro: bool,
    pub fingerprint: u64,
    pub ctime: Timestamp,
    pub otime: Timestamp,
    pub path: Seq<char>,
}

/// A file system, as contracts speak of it: its counters, its subvolumes and what was done.
#[verifier::ext_equal]
pub struct Model {
    pub transid: u64,
    pub next_id: u64,
    pub subvols: Map<Key, Subvol>,
    pub ops: Seq<Seq<char>>,
    pub usage: FsUsage,
}

impl View for FakeSubvol {
    type V = Subvol;

    open spec fn view(&self) -> Subvol {
        Subvol {
            id: self.id,
            name: self.name@,
            uuid: self.uuid,
            parent_uuid: self.parent_uuid,
            received_uuid: self.received_uuid,
            generation: self.generation,
            ctransid: self.ctransid,
            otransid: self.otransid,
            ro: self.ro,
            fingerprint: self.fingerprint,
            ctime: self.ctime,
            otime: self.otime,
            path: self.path@,
        }
    }
}

pub open spec fn keys_distinct(v: Seq<(Key, FakeSubvol)>) -> bool {
    forall|i: int, j: int| 0 <= i < j < v.len() ==> (#[trigger] v[i]).0 != (#[trigger] v[j]).0
}

pub open spec fn has_key(v: Seq<(Key, FakeSubvol)>, k: Key) -> bool {
    exists|i: int| 0 <= i < v.len() && (#[trigger] v[i]).0 == k
}

pub open spec fn key_at(v: Seq<(Key, FakeSubvol)>, k: Key) -> int {
    choose|i: int| 0 <= i < v.len() && (#[trigger] v[i]).0 == k
}

/// The subvolume at each key.
pub open spec fn by_key(v: Seq<(Key, FakeSubvol)>) -> Map<Key, Subvol> {
    Map::new(|k: Key| has_key(v, k), |k: Key| v[key_at(v, k)].1@)
}

impl View for FakeBtrfs {
    type V = Model;

    open spec fn view(&self) -> Model {
        Model {
            transid: self.transid,
            next_id: self.next_id,
            subvols: by_key(self.subvols@),
            ops: texts(self.ops@),
            usage: self.usage,
        }
    }
}

/// No counter is ahead of the transaction counter.
pub open spec fn in_order(m: Model) -> bool {
    forall|k: Key| #[trigger]
        m.subvols.contains_key(k) ==> m.subvols[k].ctransid <= m.subvols[k].generation <= m.transid
            && m.subvols[k].otransid <= m.transid
}

impl FakeBtrfs {
    /// Every key stands for one subvolume, and no counter is ahead of the transaction counter.
    pub open spec fn wf(&self) -> bool {
        keys_distinct(self.subvols@) && in_order(self@)
    }
}

proof fn lemma_key(v: Seq<(Key, FakeSubvol)>, i: int)
    requires
        keys_distinct(v),
        0 <= i < v.len(),
    ensures
        by_key(v).contains_key(v[i].0),
        key_at(v, v[i].0) == i,
        by_key(v)[v[i].0] == v[i].1@,
{
    let k = v[i].0;
    let p = key_at(v, k);
    assert(0 <= p < v.len() && v[p].0 == k);
    if p < i {
        assert(v[p].0 != v[i].0);
    } else if i < p {
        assert(v[i].0 != v[p].0);
    }
}

/// A fresh entry at the end adds its key.
proof fn lemma_push(v: Seq<(Key, FakeSubvol)>, w: Seq<(Key, FakeSubvol)>, k: Key, sv: FakeSubvol)
    requires
        keys_distinct(v),
        !has_key(v, k),
        w == v.push((k, sv)),
    ensures
        keys_distinct(w),
        by_key(w) == by_key(v).insert(k, sv@),
{
    assert forall|i: int, j: int| 0 <= i < j < w.len() implies (#[trigger] w[i]).0 != (
    #[trigger] w[j]).0 by {
        assert(w[i] == v[i]);
        if j < v.len() {
            assert(w[j] == v[j]);
        }
    }
    assert forall|x: Key| has_key(w, x) <==> (has_key(v, x) || x == k) by {
        if has_key(v, x) {
            assert(w[key_at(v, x)].0 == x);
        }
        if has_key(w, x) && key_at(w, x) < v.len() {
            assert(v[key_at(w, x)].0 == x);
        }
        assert(w[v.len() as int].0 == k);
    }
    assert(by_key(w) =~= by_key(v).insert(k, sv@)) by {
        lemma_key(w, v.len() as int);
        assert forall|x: Key| has_key(v, x) implies by_key(w)[x] == by_key(v)[x] by {
            let i = key_at(v, x);
            assert(w[i] == v[i]);
            lemma_key(v, i);
            lemma_key(w, i);
        }
    }
}

/// A replaced entry is what its key stands for; nothing else changes.
proof fn lemma_set(v: Seq<(Key, FakeSubvol)>, w: Seq<(Key, FakeSubvol)>, i: int, sv: FakeSubvol)
    requires
        keys_distinct(v),
        0 <= i < v.len(),
        w == v.update(i, (v[i].0, sv)),
    ensures
        keys_distinct(w),
        by_key(w) == by_key(v).insert(v[i].0, sv@),
{
    assert forall|j: int| 0 <= j < w.len() implies (#[trigger] w[j]).0 == v[j].0 by {}
    assert forall|x: int, y: int| 0 <= x < y < w.len() implies (#[trigger] w[x]).0 != (
    #[trigger] w[y]).0 by {
        assert(v[x].0 != v[y].0);
    }
    assert forall|x: Key| has_key(w, x) <==> has_key(v, x) by {
        if has_key(v, x) {
            assert(w[key_at(v, x)].0 == x);
        }
        if has_key(w, x) {
            assert(v[key_at(w, x)].0 == x);
        }
    }
    assert(by_key(w) =~= by_key(v).insert(v[i].0, sv@)) by {
        lemma_key(w, i);
        lemma_key(v, i);
        assert forall|x: Key| has_key(v, x) && x != v[i].0 implies by_key(w)[x]
            == by_key(v)[x] by {
            let j = key_at(v, x);
            lemma_key(v, j);
            lemma_key(w, j);
        }
    }
}

/// An entry that is taken out takes its key along.
proof fn lemma_take_out(v: Seq<(Key, FakeSubvol)>, w: Seq<(Key, FakeSubvol)>, p: int)
    requires
        keys_distinct(v),
        0 <= p < v.len(),
        w == v.remove(p),
    ensures
        keys_distinct(w),
        by_key(w) == by_key(v).remove(v[p].0),
{
    let k = v[p].0;
    assert forall|x: int, y: int| 0 <= x < y < w.len() implies (#[trigger] w[x]).0 != (
    #[trigger] w[y]).0 by {
        let i = if x < p {
            x
        } else {
            x + 1
        };
        let j = if y < p {
            y
        } else {
            y + 1
        };
        assert(w[x] == v[i] && w[y] == v[j]);
    }
    assert forall|n: Key| has_key(w, n) <==> (has_key(v, n) && n != k) by {
        if has_key(w, n) {
            let x = key_at(w, n);
            let y = if x < p {
                x
            } else {
                x + 1
            };
            assert(v[y].0 == n);
            assert(v[y].0 != v[p].0);
        }
        if has_key(v, n) && n != k {
            let y = key_at(v, n);
            assert(w[if y < p {
                y
            } else {
                y - 1
            }].0 == n);
        }
    }
    assert forall|n: Key| has_key(w, n) implies by_key(w)[n] == by_key(v)[n] by {
        let x = key_at(w, n);
        let y = if x < p {
            x
        } else {
            x + 1
        };
        lemma_key(w, x);
        lemma_key(v, y);
        assert(v[y].0 == n);
    }
    assert(by_key(w) =~= by_key(v).remove(k));
}

/// The name that a subvolume has from its path.
pub open spec fn name_at(path: Seq<char>) -> Seq<char> {
    match name_of(path) {
        Some(n) => n,
        None => Seq::empty(),
    }
}

/// A new subvolume: it inherits the change counter of the one it was snapshotted from.
pub open spec fn newborn(
    t: u64,
    id: u64,
    path: Seq<char>,
    fp: u64,
    parent: Option<Lineage>,
    received: Option<Uuid>,
    ro: bool,
    now: Timestamp,
    uuid: Uuid,
) -> Subvol {
    Subvol {
        id,
        name: name_at(path),
        uuid,
        parent_uuid: match parent {
            Some(p) => Some(p.uuid),
            None => None,
        },
        received_uuid: received,
        generation: t,
        ctransid: match parent {
            Some(p) => p.ctransid,
            None => t,
        },
        otransid: t,
        ro,
        fingerprint: fp,
        ctime: match parent {
            Some(p) => p.ctime,
            None => now,
        },
        otime: now,
        path,
    }
}

/// A directory becomes a subvolume, in a transaction of its own.
pub open spec fn added(
    m: Model,
    d: DirFacts,
    path: Seq<char>,
    parent: Option<Lineage>,
    received: Option<Uuid>,
    ro: bool,
    now: Timestamp,
    uuid: Uuid,
) -> Model {
    let t = (m.transid + 1) as u64;
    let id = (m.next_id + 1) as u64;
    Model {
        transid: t,
        next_id: id,
        subvols: m.subvols.insert(
            d.key,
            newborn(t, id, path, d.fingerprint, parent, received, ro, now, uuid),
        ),
        ..m
    }
}

/// What a flush of the subvolume at `k` does when its content is now `fp`.
pub open spec fn flushed(m: Model, k: Key, fp: u64, now: Timestamp) -> Model {
    let sv = m.subvols[k];
    if sv.ro || sv.fingerprint == fp {
        m
    } else {
        let t = (m.transid + 1) as u64;
        Model {
            transid: t,
            subvols: m.subvols.insert(
                k,
                Subvol { fingerprint: fp, generation: t, ctransid: t, ctime: now, ..sv },
            ),
            ..m
        }
    }
}

/// Something is done, and noted.
pub open spec fn noted(m: Model, op: Seq<char>) -> Model {
    Model { ops: m.ops.push(op), ..m }
}

/// What a snapshot has from the subvolume it is taken of.
pub open spec fn lineage(sv: Subvol) -> Lineage {
    Lineage { uuid: sv.uuid, ctransid: sv.ctransid, ctime: sv.ctime }
}

/// What a snapshot does: the source is flushed, its copy becomes a subvolume, and the source's
/// generation becomes the transaction in which that happened.
pub open spec fn snapshotted(
    m: Model,
    source: DirFacts,
    target: DirFacts,
    dst: Seq<char>,
    ro: bool,
    now: Timestamp,
    uuid: Uuid,
) -> Model {
    let f = flushed(m, source.key, source.fingerprint, now);
    let n = added(f, target, dst, Some(lineage(f.subvols[source.key])), None, ro, now, uuid);
    Model {
        subvols: n.subvols.insert(
            source.key,
            Subvol { generation: n.transid, ..f.subvols[source.key] },
        ),
        ..n
    }
}

/// What rewriting the content of a subvolume does, after a flush.
pub open spec fn rewritten(m: Model, d: DirFacts, now: Timestamp) -> Model {
    let f = flushed(m, d.key, d.fingerprint, now);
    let t = (f.transid + 1) as u64;
    Model {
        transid: t,
        subvols: f.subvols.insert(d.key, Subvol { ctransid: t, generation: t, ..f.subvols[d.key] }),
        ..f
    }
}

/// Whether one of the directories is the root of a subvolume.
pub open spec fn any_known(m: Model, keys: Seq<Key>) -> bool {
    exists|i: int| 0 <= i < keys.len() && m.subvols.contains_key(#[trigger] keys[i])
}

/// The position of the first of the directories that is the root of a subvolume.
pub open spec fn first_known(m: Model, around: Seq<DirFacts>) -> Option<int>
    decreases around.len(),
{
    if around.len() == 0 {
        None
    } else if m.subvols.contains_key(around[0].key) {
        Some(0)
    } else {
        match first_known(m, around.skip(1)) {
            Some(i) => Some(i + 1),
            None => None,
        }
    }
}

/// What a flush of everything does, one directory after the other: a subvolume is known by where
/// it is now, and flushed.
pub open spec fn all_flushed(m: Model, found: Seq<(String, DirFacts)>, now: Timestamp) -> Model
    decreases found.len(),
{
    if found.len() == 0 {
        m
    } else {
        let a = all_flushed(m, found.drop_last(), now);
        let (path, d) = found.last();
        if a.subvols.contains_key(d.key) {
            flushed(
                Model {
                    subvols: a.subvols.insert(d.key, Subvol { path: path@, ..a.subvols[d.key] }),
                    ..a
                },
                d.key,
                d.fingerprint,
                now,
            )
        } else {
            a
        }
    }
}

/// The sum of sizes.
pub open spec fn total(sizes: Seq<u64>) -> nat
    decreases sizes.len(),
{
    if sizes.len() == 0 {
        0
    } else {
        total(sizes.drop_last()) + sizes.last() as nat
    }
}

/// A longer list of sizes has at least the sum of its beginning.
proof fn lemma_total_prefix(sizes: Seq<u64>, i: int)
    requires
        0 <= i <= sizes.len(),
    ensures
        total(sizes.take(i)) <= total(sizes),
    decreases sizes.len() - i,
{
    if i < sizes.len() {
        lemma_total_prefix(sizes, i + 1);
        assert(sizes.take(i + 1).drop_last() =~= sizes.take(i));
    } else {
        assert(sizes.take(i) =~= sizes);
    }
}

/// A complaint about a path.
pub open spec fn about(head: Seq<char>, path: Seq<char>, tail: Seq<char>) -> Seq<char> {
    head + path + tail
}

/// How a defragmentation is noted.
pub open spec fn defrag_op(path: Seq<char>, compress: Seq<char>, level: Option<u8>) -> Seq<char> {
    "defrag -c"@ + compress + " "@ + (match level {
        Some(l) => "Some("@ + dec(l as nat) + ")"@,
        None => "None"@,
    }) + " "@ + path
}

impl FakeBtrfs {
    /// A file system without subvolumes.
    pub fn new() -> (r: FakeBtrfs)
        ensures
            r.wf(),
            r@ == (Model {
                transid: 100,
                next_id: 256,
                subvols: Map::empty(),
                ops: Seq::empty(),
                usage: FsUsage { total: 429_496_729_600, free: 107_374_182_400 },
            }),
    {
        let r = FakeBtrfs {
            transid: 100,
            next_id: 256,
            subvols: Vec::new(),
            ops: Vec::new(),
            usage: FsUsage { total: 429_496_729_600, free: 107_374_182_400 },
        };
        assert(r@.subvols =~= Map::<Key, Subvol>::empty());
        assert(r@.ops =~= Seq::<Seq<char>>::empty());
        r
    }

    pub fn set_free(&mut self, free: u64)
        ensures
            old(self).wf() ==> final(self).wf(),
            final(self)@ == (Model {
                usage: FsUsage { total: old(self)@.usage.total, free },
                ..old(self)@
            }),
    {
        self.usage.free = free;
    }

    /// Size and free space.
    pub fn statfs(&self) -> (r: FsUsage)
        ensures
            r == self@.usage,
    {
        self.usage
    }

    /// What was done, in order.
    pub fn ops(&self) -> (r: Vec<String>)
        ensures
            texts(r@) == self@.ops,
    {
        copy_list(&self.ops)
    }

    pub fn clear_ops(&mut self)
        ensures
            old(self).wf() ==> final(self).wf(),
            final(self)@ == (Model { ops: Seq::empty(), ..old(self)@ }),
    {
        self.ops = Vec::new();
        assert(self@.ops =~= Seq::<Seq<char>>::empty());
    }

    fn note(&mut self, op: String)
        requires
            old(self).wf(),
        ensures
            final(self).wf(),
            final(self)@ == noted(old(self)@, op@),
    {
        let ghost a = self@;
        let ghost text = op@;
        self.ops.push(op);
        assert(self@.ops =~= a.ops.push(text));
    }

    fn find(&self, k: Key) -> (r: Option<usize>)
        ensures
            match r {
                Some(i) => i < self.subvols@.len() && self.subvols@[i as int].0 == k,
                None => !self@.subvols.contains_key(k),
            },
    {
        let mut i: usize = 0;
        while i < self.subvols.len()
            invariant
                i <= self.subvols@.len(),
                forall|j: int| 0 <= j < i ==> (#[trigger] self.subvols@[j]).0 != k,
            decreases self.subvols@.len() - i,
        {
            let h = self.subvols[i].0;
            if h.0 == k.0 && h.1 == k.1 {
                return Some(i);
            }
            i += 1;
        }
        None
    }

    /// Whether a directory is the root of a subvolume.
    pub fn is_subvolume(&self, dir: Option<Key>) -> (r: bool)
        ensures
            r == (dir is Some && self@.subvols.contains_key(dir->0)),
    {
        match dir {
            Some(k) => match self.find(k) {
                Some(i) => {
                    assert(self.subvols@[i as int].0 == k);
                    true
                },
                None => false,
            },
            None => false,
        }
    }

    /// Makes a directory a subvolume.
    fn register(
        &mut self,
        d: DirFacts,
        path: &str,
        parent: Option<Lineage>,
        received: Option<Uuid>,
        ro: bool,
        now: Timestamp,
        uuid: Uuid,
    )
        requires
            old(self).wf(),
            old(self).transid < u64::MAX,
            old(self).next_id < u64::MAX,
            parent is Some ==> parent->0.ctransid <= old(self).transid,
        ensures
            final(self).wf(),
            final(self)@ == added(old(self)@, d, path@, parent, received, ro, now, uuid),
    {
        let ghost a = *self;
        self.transid += 1;
        self.next_id += 1;
        let name = match path_name(path) {
            Some(n) => n,
            None => String::new(),
        };
        assert(name@ =~= name_at(path@));
        let t: u64 = self.transid;
        let (parent_uuid, ctransid, ctime): (Option<Uuid>, u64, Timestamp) = match parent {
            Some(p) => (Some(p.uuid), p.ctransid, p.ctime),
            None => (None, t, now),
        };
        let sv = FakeSubvol {
            id: self.next_id,
            name,
            uuid,
            parent_uuid,
            received_uuid: received,
            generation: t,
            ctransid,
            otransid: t,
            ro,
            fingerprint: d.fingerprint,
            ctime,
            otime: now,
            path: path.to_owned(),
        };
        let ghost made = sv;
        match self.find(d.key) {
            Some(i) => {
                self.subvols[i].1 = sv;
                proof {
                    assert(self.subvols@ =~= a.subvols@.update(i as int, (d.key, made)));
                    lemma_set(a.subvols@, self.subvols@, i as int, made);
                }
            },
            None => {
                self.subvols.push((d.key, sv));
                proof {
                    lemma_push(a.subvols@, self.subvols@, d.key, made);
                }
            },
        }
    }

    /// Treats an existing directory as a subvolume.
    pub fn register_existing(
        &mut self,
        path: &str,
        dir: Option<DirFacts>,
        now: Timestamp,
        uuid: Uuid,
    ) -> (r: Result<(), String>)
        requires
            old(self).wf(),
            old(self).transid < u64::MAX,
            old(self).next_id < u64::MAX,
        ensures
            final(self).wf(),
            match dir {
                Some(d) => r is Ok && final(self)@ == added(
                    old(self)@,
                    d,
                    path@,
                    None,
                    None,
                    false,
                    now,
                    uuid,
                ),
                None => final(self)@ == old(self)@ && r is Err && r->Err_0@ == about(
                    "fake: "@,
                    path@,
                    " is not a directory"@,
                ),
            },
    {
        match dir {
            Some(d) => {
                self.register(d, path, None, None, false, now, uuid);
                Ok(())
            },
            None => Err(cat3("fake: ", path, " is not a directory")),
        }
    }

    /// Makes a new subvolume in the directory that was made for it; there is none where something
    /// stood at the path already.
    pub fn create_subvolume(
        &mut self,
        path: &str,
        made: Option<DirFacts>,
        now: Timestamp,
        uuid: Uuid,
    ) -> (r: Result<(), String>)
        requires
            old(self).wf(),
            old(self).transid < u64::MAX,
            old(self).next_id < u64::MAX,
        ensures
            final(self).wf(),
            match made {
                Some(d) => r is Ok && final(self)@ == added(
                    noted(old(self)@, "create "@ + path@),
                    d,
                    path@,
                    None,
                    None,
                    false,
                    now,
                    uuid,
                ),
                None => final(self)@ == old(self)@ && r is Err && r->Err_0@ == about(
                    "fake: create "@,
                    path@,
                    ": File exists"@,
                ),
            },
    {
        match made {
            Some(d) => {
                self.note(cat2("create ", path));
                self.register(d, path, None, None, false, now, uuid);
                Ok(())
            },
            None => Err(cat3("fake: create ", path, ": File exists")),
        }
    }

    /// Flushes the subvolume at `k`, whose content is now `fp`.
    fn observe(&mut self, k: Key, fp: u64, now: Timestamp)
        requires
            old(self).wf(),
            old(self)@.subvols.contains_key(k),
            old(self).transid < u64::MAX,
        ensures
            final(self).wf(),
            final(self)@ == flushed(old(self)@, k, fp, now),
            final(self).subvols@.len() == old(self).subvols@.len(),
            final(self).transid <= old(self).transid + 1,
    {
        let ghost a = *self;
        if let Some(i) = self.find(k) {
            proof {
                lemma_key(a.subvols@, i as int);
            }
            if self.subvols[i].1.ro || self.subvols[i].1.fingerprint == fp {
                return ;
            }
            self.transid += 1;
            let t: u64 = self.transid;
            self.subvols[i].1.fingerprint = fp;
            self.subvols[i].1.generation = t;
            self.subvols[i].1.ctransid = t;
            self.subvols[i].1.ctime = now;
            proof {
                let sv = FakeSubvol {
                    fingerprint: fp,
                    generation: t,
                    ctransid: t,
                    ctime: now,
                    ..a.subvols@[i as int].1
                };
                assert(self.subvols@ =~= a.subvols@.update(i as int, (k, sv)));
                lemma_set(a.subvols@, self.subvols@, i as int, sv);
            }
        }
    }

    /// Takes a snapshot of the subvolume that stands at `src`. The copy was made in a directory of
    /// its own; there is none where something stood at `dst` already.
    pub fn snapshot(
        &mut self,
        src: &str,
        source: Option<DirFacts>,
        dst: &str,
        target: Option<DirFacts>,
        readonly: bool,
        now: Timestamp,
        uuid: Uuid,
    ) -> (r: Result<(), String>)
        requires
            old(self).wf(),
            old(self).transid < u64::MAX - 1,
            old(self).next_id < u64::MAX,
            source is Some && target is Some ==> source->0.key != target->0.key,
        ensures
            final(self).wf(),
            if source is None || !old(self)@.subvols.contains_key(source->0.key) {
                final(self)@ == old(self)@ && r is Err && r->Err_0@ == about(
                    "fake: snapshot source "@,
                    src@,
                    " is not a subvolume"@,
                )
            } else if target is None {
                final(self)@ == old(self)@ && r is Err && r->Err_0@ == about(
                    "fake: snapshot target "@,
                    dst@,
                    " exists"@,
                )
            } else {
                r is Ok && final(self)@ == noted(
                    snapshotted(old(self)@, source->0, target->0, dst@, readonly, now, uuid),
                    (if readonly {
                        "snapshot -r "@
                    } else {
                        "snapshot "@
                    }) + src@ + " "@ + dst@,
                )
            },
    {
        let from = match source {
            Some(d) => if self.is_subvolume(Some(d.key)) {
                d
            } else {
                return Err(cat3("fake: snapshot source ", src, " is not a subvolume"));
            },
            None => {
                return Err(cat3("fake: snapshot source ", src, " is not a subvolume"));
            },
        };
        let to = match target {
            Some(d) => d,
            None => {
                return Err(cat3("fake: snapshot target ", dst, " exists"));
            },
        };
        self.observe(from.key, from.fingerprint, now);
        let ghost f = *self;
        if let Some(i) = self.find(from.key) {
            proof {
                lemma_key(f.subvols@, i as int);
            }
            let sv = &self.subvols[i].1;
            let parent = Lineage { uuid: sv.uuid, ctransid: sv.ctransid, ctime: sv.ctime };
            assert(f@.subvols.contains_key(from.key));
            self.register(to, dst, Some(parent), None, readonly, now, uuid);
        }
        let ghost n = *self;
        assert(n@.subvols.contains_key(from.key));
        if let Some(i) = self.find(from.key) {
            proof {
                lemma_key(n.subvols@, i as int);
            }
            self.subvols[i].1.generation = self.transid;
            proof {
                let up = FakeSubvol { generation: n.transid, ..n.subvols@[i as int].1 };
                assert(self.subvols@ =~= n.subvols@.update(i as int, (from.key, up)));
                lemma_set(n.subvols@, self.subvols@, i as int, up);
            }
        }
        let head = if readonly {
            "snapshot -r "
        } else {
            "snapshot "
        };
        self.note(cat4(head, src, " ", dst));
        Ok(())
    }

    /// Deletes the subvolume at a path, with the ones in the directories below it where
    /// `recursive` holds.
    pub fn delete_subvolume(
        &mut self,
        path: &str,
        dir: Option<Key>,
        below: &Vec<Key>,
        recursive: bool,
    ) -> (r: Result<(), String>)
        requires
            old(self).wf(),
        ensures
            final(self).wf(),
            if dir is None {
                final(self)@ == old(self)@ && r is Err && r->Err_0@ == about(
                    "fake: delete "@,
                    path@,
                    ": not found"@,
                )
            } else if !old(self)@.subvols.contains_key(dir->0) {
                final(self)@ == old(self)@ && r is Err && r->Err_0@ == about(
                    "fake: delete "@,
                    path@,
                    ": not a subvolume"@,
                )
            } else if any_known(old(self)@, below@) && !recursive {
                final(self)@ == old(self)@ && r is Err && r->Err_0@ == about(
                    "fake: delete "@,
                    path@,
                    ": Directory not empty (nested subvolumes)"@,
                )
            } else {
                r is Ok && final(self)@ == noted(
                    deleted(old(self)@, dir->0, below@),
                    (if recursive {
                        "delete -R "@
                    } else {
                        "delete "@
                    }) + path@,
                )
            },
    {
        let k = match dir {
            Some(k) => k,
            None => {
                return Err(cat3("fake: delete ", path, ": not found"));
            },
        };
        if !self.is_subvolume(Some(k)) {
            return Err(cat3("fake: delete ", path, ": not a subvolume"));
        }
        if !recursive && self.knows_any(below) {
            return Err(cat3("fake: delete ", path, ": Directory not empty (nested subvolumes)"));
        }
        let ghost a = self@;
        self.forget(k);
        let mut i: usize = 0;
        assert(self@ =~= deleted(a, k, below@.take(0)));
        while i < below.len()
            invariant
                self.wf(),
                i <= below@.len(),
                self@ == deleted(a, k, below@.take(i as int)),
            decreases below@.len() - i,
        {
            self.forget(below[i]);
            proof {
                let p = below@.take(i as int);
                assert forall|x: Key| below@.take(i + 1).contains(x) <==> (p.contains(x) || x
                    == below@[i as int]) by {
                    let q = below@.take(i + 1);
                    if p.contains(x) {
                        let j = choose|j: int| 0 <= j < p.len() && p[j] == x;
                        assert(q[j] == x);
                    }
                    assert(q[i as int] == below@[i as int]);
                    if q.contains(x) {
                        let j = choose|j: int| 0 <= j < q.len() && q[j] == x;
                        if j < i {
                            assert(p[j] == x);
                        }
                    }
                }
                assert(self@ =~= deleted(a, k, below@.take(i + 1)));
            }
            i += 1;
        }
        assert(below@.take(i as int) =~= below@);
        let head = if recursive {
            "delete -R "
        } else {
            "delete "
        };
        self.note(cat2(head, path));
        Ok(())
    }

    fn knows_any(&self, keys: &Vec<Key>) -> (r: bool)
        ensures
            r == any_known(self@, keys@),
    {
        let mut i: usize = 0;
        while i < keys.len()
            invariant
                i <= keys@.len(),
                forall|j: int|
                    0 <= j < i ==> !self@.subvols.contains_key(#[trigger] keys@[j]),
            decreases keys@.len() - i,
        {
            if self.is_subvolume(Some(keys[i])) {
                assert(self@.subvols.contains_key(keys@[i as int]));
                return true;
            }
            i += 1;
        }
        false
    }

    fn forget(&mut self, k: Key)
        requires
            old(self).wf(),
        ensures
            final(self).wf(),
            final(self)@ == (Model { subvols: old(self)@.subvols.remove(k), ..old(self)@ }),
    {
        let ghost a = *self;
        match self.find(k) {
            None => {
                assert(a@.subvols =~= a@.subvols.remove(k));
            },
            Some(p) => {
                self.subvols.remove(p);
                proof {
                    lemma_key(a.subvols@, p as int);
                    assert(self.subvols@ =~= a.subvols@.remove(p as int));
                    lemma_take_out(a.subvols@, self.subvols@, p as int);
                }
            },
        }
    }

    /// Makes the subvolume at a path read-only, or writable again.
    pub fn set_readonly(&mut self, path: &str, dir: Option<Key>, ro: bool) -> (r: Result<
        (),
        String,
    >)
        requires
            old(self).wf(),
        ensures
            final(self).wf(),
            if dir is None {
                final(self)@ == old(self)@ && r is Err && r->Err_0@ == "fake: set ro: not found"@
            } else if !old(self)@.subvols.contains_key(dir->0) {
                final(self)@ == old(self)@ && r is Err && r->Err_0@
                    == "fake: set ro: not a subvolume"@
            } else {
                r is Ok && final(self)@ == noted(
                    Model {
                        subvols: old(self)@.subvols.insert(
                            dir->0,
                            Subvol { ro, ..old(self)@.subvols[dir->0] },
                        ),
                        ..old(self)@
                    },
                    (if ro {
                        "ro=true "@
                    } else {
                        "ro=false "@
                    }) + path@,
                )
            },
    {
        let k = match dir {
            Some(k) => k,
            None => {
                return Err("fake: set ro: not found".to_owned());
            },
        };
        let ghost a = *self;
        match self.find(k) {
            None => Err("fake: set ro: not a subvolume".to_owned()),
            Some(i) => {
                proof {
                    lemma_key(a.subvols@, i as int);
                }
                self.subvols[i].1.ro = ro;
                proof {
                    let sv = FakeSubvol { ro, ..a.subvols@[i as int].1 };
                    assert(self.subvols@ =~= a.subvols@.update(i as int, (k, sv)));
                    lemma_set(a.subvols@, self.subvols@, i as int, sv);
                }
                let head = if ro {
                    "ro=true "
                } else {
                    "ro=false "
                };
                self.note(cat2(head, path));
                Ok(())
            },
        }
    }

    /// The nearest subvolume around a path, among the directories that it lies in from the inside
    /// out.
    fn root_of(&self, path: &str, around: &Vec<DirFacts>) -> (r: Result<usize, String>)
        ensures
            match r {
                Ok(i) => i < around@.len() && first_known(self@, around@) == Some(i as int)
                    && self@.subvols.contains_key(around@[i as int].key),
                Err(m) => first_known(self@, around@) is None && m@ == about(
                    "fake: "@,
                    path@,
                    " is not inside a subvolume"@,
                ),
            },
    {
        let mut i: usize = 0;
        assert(around@.skip(0) =~= around@);
        while i < around.len()
            invariant
                i <= around@.len(),
                first_known(self@, around@) == (match first_known(self@, around@.skip(i as int)) {
                    Some(j) => Some(i + j),
                    None => None,
                }),
            decreases around@.len() - i,
        {
            assert(around@.skip(i as int)[0] == around@[i as int]);
            if self.is_subvolume(Some(around[i].key)) {
                return Ok(i);
            }
            assert(around@.skip(i as int).skip(1) =~= around@.skip(i + 1));
            i += 1;
        }
        Err(cat3("fake: ", path, " is not inside a subvolume"))
    }

    /// What is reported of the subvolume that a path lies in.
    pub fn subvol_info(&self, path: &str, around: &Vec<DirFacts>) -> (r: Result<SubvolInfo, String>)
        requires
            self.wf(),
        ensures
            match (r, first_known(self@, around@)) {
                (Ok(i), Some(p)) => reports(i, self@.subvols[around@[p].key]),
                (Err(m), None) => m@ == about("fake: "@, path@, " is not inside a subvolume"@),
                _ => false,
            },
    {
        match self.root_of(path, around) {
            Ok(i) => match self.find(around[i].key) {
                Some(p) => {
                    proof {
                        lemma_key(self.subvols@, p as int);
                    }
                    Ok(info_of(&self.subvols[p].1))
                },
                None => Err(cat3("fake: ", path, " is not inside a subvolume")),
            },
            Err(m) => Err(m),
        }
    }

    /// Rewrites the content of the subvolume that a path lies in.
    pub fn defragment(
        &mut self,
        path: &str,
        around: &Vec<DirFacts>,
        opts: &DefragOpts,
        now: Timestamp,
    ) -> (r: Result<(), String>)
        requires
            old(self).wf(),
            old(self).transid < u64::MAX - 1,
        ensures
            final(self).wf(),
            match first_known(old(self)@, around@) {
                Some(i) => r is Ok && final(self)@ == noted(
                    rewritten(old(self)@, around@[i], now),
                    defrag_op(path@, opts.compress@, opts.level),
                ),
                None => final(self)@ == old(self)@ && r is Err && r->Err_0@ == about(
                    "fake: "@,
                    path@,
                    " is not inside a subvolume"@,
                ),
            },
    {
        let d = match self.root_of(path, around) {
            Ok(i) => around[i],
            Err(m) => {
                return Err(m);
            },
        };
        self.observe(d.key, d.fingerprint, now);
        let ghost f = *self;
        assert(f@.subvols.contains_key(d.key));
        if let Some(i) = self.find(d.key) {
            proof {
                lemma_key(f.subvols@, i as int);
            }
            self.transid += 1;
            let t: u64 = self.transid;
            self.subvols[i].1.ctransid = t;
            self.subvols[i].1.generation = t;
            proof {
                let sv = FakeSubvol { ctransid: t, generation: t, ..f.subvols@[i as int].1 };
                assert(self.subvols@ =~= f.subvols@.update(i as int, (d.key, sv)));
                lemma_set(f.subvols@, self.subvols@, i as int, sv);
            }
        }
        let level = match opts.level {
            Some(l) => cat3("Some(", dec_u64(l as u64).as_str(), ")"),
            None => "None".to_owned(),
        };
        let head = cat3("defrag -c", opts.compress.as_str(), " ");
        self.note(cat4(head.as_str(), level.as_str(), " ", path));
        Ok(())
    }

    /// Flushes every subvolume among the directories found, in order. What is below a read-only
    /// subvolume is not among them.
    pub fn sync(&mut self, found: &Vec<(String, DirFacts)>, now: Timestamp)
        requires
            old(self).wf(),
            old(self).transid + found@.len() <= u64::MAX,
        ensures
            final(self).wf(),
            final(self)@ == all_flushed(old(self)@, found@, now),
    {
        let ghost a = *self;
        let mut n: usize = 0;
        assert(found@.take(0) =~= Seq::<(String, DirFacts)>::empty());
        while n < found.len()
            invariant
                self.wf(),
                n <= found@.len(),
                self@ == all_flushed(a@, found@.take(n as int), now),
                self.transid <= a.transid + n,
                a.transid + found@.len() <= u64::MAX,
            decreases found@.len() - n,
        {
            let ghost before = *self;
            let d = found[n].1;
            assert(found@.take(n + 1).drop_last() =~= found@.take(n as int));
            if let Some(i) = self.find(d.key) {
                proof {
                    lemma_key(before.subvols@, i as int);
                }
                self.subvols[i].1.path = found[n].0.clone();
                proof {
                    let sv = FakeSubvol {
                        path: self.subvols@[i as int].1.path,
                        ..before.subvols@[i as int].1
                    };
                    assert(self.subvols@ =~= before.subvols@.update(i as int, (d.key, sv)));
                    lemma_set(before.subvols@, self.subvols@, i as int, sv);
                    assert(self@.subvols.contains_key(d.key));
                }
                self.observe(d.key, d.fingerprint, now);
            }
            n += 1;
        }
        assert(found@.take(n as int) =~= found@);
    }

    /// How much space files of the given sizes take; all of it counts as shared.
    pub fn du(&self, sizes: &Vec<u64>) -> (r: DuStats)
        requires
            total(sizes@) <= u64::MAX,
        ensures
            r.total == total(sizes@),
            r.exclusive == 0,
            r.set_shared == r.total,
    {
        let mut sum: u64 = 0;
        let mut i: usize = 0;
        while i < sizes.len()
            invariant
                i <= sizes@.len(),
                sum == total(sizes@.take(i as int)),
                total(sizes@) <= u64::MAX,
            decreases sizes@.len() - i,
        {
            proof {
                lemma_total_prefix(sizes@, i + 1);
                assert(sizes@.take(i + 1).drop_last() =~= sizes@.take(i as int));
            }
            sum += sizes[i];
            i += 1;
        }
        assert(sizes@.take(i as int) =~= sizes@);
        DuStats { total: sum, exclusive: 0, set_shared: sum }
    }

    /// The path of the subvolume with an identity, where it is still at the path that it was last
    /// known by. `at` tells for each subvolume which directory stands at its path.
    pub fn find_by_uuid(&self, uuid: &Uuid, at: &Vec<Option<Key>>) -> (r: Option<String>)
        requires
            at@.len() == self.subvols@.len(),
        ensures
            match r {
                Some(p) => exists|i: int| #[trigger]
                    is_found(self.subvols@, at@, uuid@, i) && self.subvols@[i].1.path@ == p@,
                None => forall|i: int| !#[trigger] is_found(self.subvols@, at@, uuid@, i),
            },
    {
        let mut i: usize = 0;
        while i < self.subvols.len()
            invariant
                i <= self.subvols@.len(),
                at@.len() == self.subvols@.len(),
                forall|j: int| 0 <= j < i ==> !#[trigger] is_found(self.subvols@, at@, uuid@, j),
            decreases self.subvols@.len() - i,
        {
            if let Some(k) = at[i] {
                let h = self.subvols[i].0;
                if h.0 == k.0 && h.1 == k.1 && self.subvols[i].1.uuid.same(uuid) {
                    assert(is_found(self.subvols@, at@, uuid@, i as int));
                    return Some(self.subvols[i].1.path.clone());
                }
            }
            i += 1;
        }
        None
    }

    /// Makes what was read from a stream a read-only subvolume.
    pub fn receive(&mut self, path: &str, dir: DirFacts, sent: Uuid, now: Timestamp, uuid: Uuid)
        requires
            old(self).wf(),
            old(self).transid < u64::MAX,
            old(self).next_id < u64::MAX,
        ensures
            final(self).wf(),
            final(self)@ == noted(
                added(old(self)@, dir, path@, None, Some(sent), true, now, uuid),
                "receive "@ + path@,
            ),
    {
        self.register(dir, path, None, Some(sent), true, now, uuid);
        self.note(cat2("receive ", path));
    }
}

/// What deleting a subvolume and those below it leaves.
pub open spec fn deleted(m: Model, k: Key, below: Seq<Key>) -> Model {
    Model {
        subvols: Map::new(
            |x: Key| m.subvols.contains_key(x) && x != k && !below.contains(x),
            |x: Key| m.subvols[x],
        ),
        ..m
    }
}

/// The `i`th subvolume has the identity, and stands where it was last known to stand.
pub open spec fn is_found(
    v: Seq<(Key, FakeSubvol)>,
    at: Seq<Option<Key>>,
    uuid: Seq<u8>,
    i: int,
) -> bool {
    0 <= i < v.len() && v[i].1.uuid@ == uuid && at[i] == Some(v[i].0)
}

/// What is reported of a subvolume.
pub open spec fn reports(i: SubvolInfo, sv: Subvol) -> bool {
    &&& i.id == sv.id
    &&& i.name@ == sv.name
    &&& i.parent_id == 5
    &&& i.generation == sv.generation
    &&& i.flags == (if sv.ro {
        1u64
    } else {
        0u64
    })
    &&& i.uuid == sv.uuid
    &&& i.parent_uuid == sv.parent_uuid
    &&& i.received_uuid == sv.received_uuid
    &&& i.ctransid == sv.ctransid
    &&& i.otransid == sv.otransid
    &&& i.ctime == Some(sv.ctime)
    &&& i.otime == Some(sv.otime)
}

fn info_of(sv: &FakeSubvol) -> (r: SubvolInfo)
    ensures
        reports(r, sv@),
{
    SubvolInfo {
        id: sv.id,
        name: sv.name.clone(),
        parent_id: 5,
        generation: sv.generation,
        flags: if sv.ro {
            1
        } else {
            0
        },
        uuid: sv.uuid,
        parent_uuid: sv.parent_uuid,
        received_uuid: sv.received_uuid,
        ctransid: sv.ctransid,
        otransid: sv.otransid,
        ctime: Some(sv.ctime),
        otime: Some(sv.otime),
    }
}

/// The line that a stream begins with: it names the snapshot and its identity.
pub open spec fn header_text(name: Seq<char>, uuid: Seq<u8>) -> Seq<char> {
    "FAKEBTRFS "@ + name + " "@ + uuid_text(uuid) + "\n"@
}

/// The line that a stream of a snapshot begins with.
pub fn stream_header(name: &str, uuid: &Uuid) -> (r: String)
    ensures
        r@ == header_text(name@, uuid@),
{
    cat5("FAKEBTRFS ", name, " ", uuid.to_string().as_str(), "\n")
}

/// What the first line of a stream says, or what is wrong with it.
pub open spec fn header_read(line: Seq<char>) -> Result<(Seq<char>, Seq<u8>), Seq<char>> {
    let w = words_of(line);
    if w.len() == 0 || w[0] != "FAKEBTRFS"@ {
        Err("fake receive: bad stream"@)
    } else if w.len() == 1 {
        Err("name"@)
    } else if w.len() == 2 {
        Err("uuid"@)
    } else {
        match uuid_bytes(w[2]) {
            Some(u) => Ok((w[1], u)),
            None => Err("invalid uuid "@ + quoted(w[2])),
        }
    }
}

/// Reads the first line of a stream: the name of the snapshot and its identity.
pub fn read_header(line: &str) -> (r: Result<(String, Uuid), String>)
    ensures
        match r {
            Ok(p) => header_read(line@) == Ok::<(Seq<char>, Seq<u8>), Seq<char>>((p.0@, p.1@)),
            Err(m) => header_read(line@) == Err::<(Seq<char>, Seq<u8>), Seq<char>>(m@),
        },
{
    let w = words(line);
    let ghost ws = words_of(line@);
    assert(ws.len() == w@.len());
    assert(forall|i: int| 0 <= i < w@.len() ==> #[trigger] ws[i] == w@[i]@);
    if w.len() == 0 || !str_eq(w[0].as_str(), "FAKEBTRFS") {
        return Err("fake receive: bad stream".to_owned());
    }
    if w.len() == 1 {
        return Err("name".to_owned());
    }
    if w.len() == 2 {
        return Err("uuid".to_owned());
    }
    match Uuid::parse(w[2].as_str()) {
        Ok(u) => Ok((w[1].clone(), u)),
        Err(m) => Err(m),
    }
}

/// No spelling of an identity is broken by white space.
proof fn lemma_uuid_unbroken(b: Seq<u8>)
    requires
        b.len() == 16,
    ensures
        uuid_text(b).len() == 36,
        forall|i: int| 0 <= i < 36 ==> !is_space(#[trigger] uuid_text(b)[i]),
{
    reveal_strlit("-");
    let h = crate::btrfs::hex(b);
    assert forall|i: int| 0 <= i < h.len() implies !is_space(#[trigger] h[i]) by {}
}

/// The header of a stream reads back as the name and the identity of what was sent, where the
/// name is one word.
pub proof fn law_streams_name_their_source(name: Seq<char>, uuid: Seq<u8>)
    requires
        uuid.len() == 16,
        name.len() > 0,
        forall|i: int| 0 <= i < name.len() ==> !is_space(#[trigger] name[i]),
    ensures
        header_read(header_text(name, uuid)) == Ok::<(Seq<char>, Seq<u8>), Seq<char>>((name, uuid)),
{
    let at = |x: char| is_space(x);
    let full = |w: Seq<char>| w.len() > 0;
    let u = uuid_text(uuid);
    lemma_uuid_unbroken(uuid);
    law_uuid_round_trip(uuid);
    reveal_strlit("FAKEBTRFS");
    reveal_strlit("FAKEBTRFS ");
    reveal_strlit(" ");
    reveal_strlit("\n");
    let none = Seq::<char>::empty();
    let tag = "FAKEBTRFS"@;
    let s1 = tag.push(' ');
    let s2 = s1 + name;
    let s3 = s2.push(' ');
    let s4 = s3 + u;
    let s5 = s4.push('\n');
    assert(header_text(name, uuid) =~= s5);
    lemma_pieces_run(none, tag, at);
    assert(none + tag =~= tag);
    assert(none + name =~= name);
    assert(none + u =~= u);
    assert(pieces(tag, at) =~= seq![tag]);
    assert(s1.drop_last() =~= tag);
    assert(pieces(s1, at) =~= seq![tag, none]);
    lemma_pieces_run(s1, name, at);
    assert(pieces(s2, at) =~= seq![tag, name]);
    assert(s3.drop_last() =~= s2);
    assert(pieces(s3, at) =~= seq![tag, name, none]);
    lemma_pieces_run(s3, u, at);
    assert(pieces(s4, at) =~= seq![tag, name, u]);
    assert(s5.drop_last() =~= s4);
    let p = pieces(s5, at);
    assert(p =~= seq![tag, name, u, none]);
    reveal(Seq::filter);
    let e = Seq::<Seq<char>>::empty();
    let p1 = e.push(tag);
    let p2 = p1.push(name);
    let p3 = p2.push(u);
    assert(p =~= p3.push(none));
    e.lemma_filter_push(tag, full);
    p1.lemma_filter_push(name, full);
    p2.lemma_filter_push(u, full);
    p3.lemma_filter_push(none, full);
    assert(p.filter(full) =~= seq![tag, name, u]);
    assert(words_of(header_text(name, uuid)) == p.filter(full));
}

/// A snapshot's record, as far as change detection reads it, is taken from the counters that
/// the snapshot was born with.
pub open spec fn records(m: SnapshotMeta, snap: Subvol) -> bool {
    m.source_ctransid == snap.ctransid && m.snapshot_otransid == snap.otransid
}

/// Writes in one subvolume, such as a nested build directory, do not count as changes of another.
pub proof fn law_nested_writes_do_not_count(
    fs: Model,
    nested: Key,
    k: Key,
    fp: u64,
    now: Timestamp,
    m: SnapshotMeta,
    before: SubvolInfo,
    after: SubvolInfo,
)
    requires
        k != nested,
        reports(before, fs.subvols[k]),
        reports(after, flushed(fs, nested, fp, now).subvols[k]),
    ensures
        flushed(fs, nested, fp, now).subvols.contains_key(k) == fs.subvols.contains_key(k),
        flushed(fs, nested, fp, now).subvols[k] == fs.subvols[k],
        same_content(after, m) == same_content(before, m),
{
}

/// Right after a snapshot the live subvolume counts as identical to it; flushing unchanged
/// content keeps it so; flushing changed content ends it. A change is found exactly.
pub proof fn law_changes_are_found_exactly(
    fs: Model,
    source: DirFacts,
    target: DirFacts,
    dst: Seq<char>,
    ro: bool,
    now: Timestamp,
    uuid: Uuid,
    fp: u64,
    m: SnapshotMeta,
    before: SubvolInfo,
    after: SubvolInfo,
)
    requires
        in_order(fs),
        fs.transid < u64::MAX - 2,
        fs.subvols.contains_key(source.key),
        !fs.subvols[source.key].ro,
        source.key != target.key,
        ({
            let s = snapshotted(fs, source, target, dst, ro, now, uuid);
            &&& records(m, s.subvols[target.key])
            &&& reports(before, s.subvols[source.key])
            &&& reports(after, flushed(s, source.key, fp, now).subvols[source.key])
        }),
    ensures
        same_content(before, m),
        same_content(after, m) <==> fp == source.fingerprint,
{
}

/// A snapshot inherits the change counter, does not move that of its flushed source, and the
/// source's generation becomes the transaction in which the snapshot was made.
pub proof fn law_counters_follow_kernel_rules(
    fs: Model,
    source: DirFacts,
    target: DirFacts,
    dst: Seq<char>,
    ro: bool,
    now: Timestamp,
    uuid: Uuid,
)
    requires
        fs.subvols.contains_key(source.key),
        source.key != target.key,
    ensures
        ({
            let f = flushed(fs, source.key, source.fingerprint, now);
            let s = snapshotted(fs, source, target, dst, ro, now, uuid);
            &&& s.subvols[target.key].ctransid == f.subvols[source.key].ctransid
            &&& s.subvols[source.key].ctransid == f.subvols[source.key].ctransid
            &&& s.subvols[source.key].generation == s.subvols[target.key].otransid
            &&& s.subvols[target.key].parent_uuid == Some(fs.subvols[source.key].uuid)
            &&& s.subvols[target.key].ro == ro
        }),
{
}

/// A new subvolume is the only thing that changes; it is born in a transaction of its own, under
/// an id of its own.
pub proof fn law_new_subvolumes_leave_others_alone(
    m: Model,
    d: DirFacts,
    path: Seq<char>,
    parent: Option<Lineage>,
    received: Option<Uuid>,
    ro: bool,
    now: Timestamp,
    uuid: Uuid,
    k: Key,
)
    requires
        m.transid < u64::MAX,
        m.next_id < u64::MAX,
    ensures
        ({
            let a = added(m, d, path, parent, received, ro, now, uuid);
            let s = a.subvols[d.key];
            &&& a.transid == m.transid + 1 && a.next_id == m.next_id + 1
            &&& a.subvols.contains_key(d.key)
            &&& s.id == m.next_id + 1 && s.otransid == m.transid + 1 && s.generation == m.transid + 1
            &&& s.uuid == uuid && s.ro == ro && s.path == path && s.fingerprint == d.fingerprint
            &&& parent is None ==> s.ctransid == m.transid + 1 && s.parent_uuid is None
            &&& parent matches Some(p) ==> s.ctransid == p.ctransid && s.parent_uuid == Some(p.uuid)
            &&& k != d.key ==> (a.subvols.contains_key(k) <==> m.subvols.contains_key(k))
                && a.subvols[k] == m.subvols[k]
            &&& a.ops == m.ops && a.usage == m.usage
        }),
{
}

/// What is rewritten counts as changed from then on, and nothing else does.
pub proof fn law_rewriting_counts_as_a_change(m: Model, d: DirFacts, now: Timestamp, k: Key)
    requires
        m.transid < u64::MAX - 1,
        m.subvols.contains_key(d.key),
        in_order(m),
    ensures
        ({
            let r = rewritten(m, d, now);
            &&& r.subvols[d.key].ctransid > m.subvols[d.key].ctransid
            &&& r.subvols[d.key].ctransid == r.transid && r.subvols[d.key].generation == r.transid
            &&& r.subvols[d.key].uuid == m.subvols[d.key].uuid
            &&& r.subvols[d.key].otransid == m.subvols[d.key].otransid
            &&& k != d.key ==> (r.subvols.contains_key(k) <==> m.subvols.contains_key(k))
                && r.subvols[k] == m.subvols[k]
        }),
{
    assert(m.subvols[d.key].ctransid <= m.transid);
}

/// A deletion takes the subvolume and those below it, and leaves every other one as it was.
pub proof fn law_deletion_takes_only_what_is_below(m: Model, k: Key, below: Seq<Key>, x: Key)
    ensures
        deleted(m, k, below).subvols.contains_key(x) <==> m.subvols.contains_key(x) && x != k
            && !below.contains(x),
        deleted(m, k, below).subvols.contains_key(x) ==> deleted(m, k, below).subvols[x]
            == m.subvols[x],
        deleted(m, k, below).transid == m.transid,
{
}

/// The subvolume that a path lies in is the nearest around it.
pub proof fn law_paths_lie_in_the_nearest_subvolume(m: Model, around: Seq<DirFacts>)
    ensures
        first_known(m, around) matches Some(i) ==> 0 <= i < around.len() && m.subvols.contains_key(
            around[i].key,
        ) && forall|j: int|
            0 <= j < i ==> !m.subvols.contains_key((#[trigger] around[j]).key),
        first_known(m, around) is None ==> forall|j: int|
            0 <= j < around.len() ==> !m.subvols.contains_key((#[trigger] around[j]).key),
    decreases around.len(),
{
    if around.len() > 0 && !m.subvols.contains_key(around[0].key) {
        let t = around.skip(1);
        law_paths_lie_in_the_nearest_subvolume(m, t);
        assert(forall|j: int| 0 < j < around.len() ==> t[j - 1] == around[j]);
        match first_known(m, t) {
            Some(i) => {
                assert forall|j: int| 0 <= j < i + 1 implies !m.subvols.contains_key(
                    (#[trigger] around[j]).key,
                ) by {
                    if j > 0 {
                        assert(t[j - 1] == around[j]);
                    }
                }
            },
            None => {
                assert forall|j: int| 0 <= j < around.len() implies !m.subvols.contains_key(
                    (#[trigger] around[j]).key,
                ) by {
                    if j > 0 {
                        assert(t[j - 1] == around[j]);
                    }
                }
            },
        }
    }
}

/// The sizes of files add up.
pub proof fn law_sizes_add_up(a: Seq<u64>, b: Seq<u64>)
    ensures
        total(a + b) == total(a) + total(b),
        total(Seq::empty()) == 0,
        a.len() == 1 ==> total(a) == a[0],
    decreases b.len(),
{
    reveal_with_fuel(total, 2);
    if b.len() > 0 {
        law_sizes_add_up(a, b.drop_last());
        assert((a + b).drop_last() =~= a + b.drop_last());
    } else {
        assert(a + b =~= a);
    }
    if a.len() == 1 {
        assert(a.drop_last() =~= Seq::<u64>::empty());
    }
}

} // verus!
