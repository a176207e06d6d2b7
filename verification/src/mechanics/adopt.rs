//! Adopt: convert a plain top-level directory into a subvolume (or register an existing one).

use vstd::prelude::*;

use crate::btrfs::Uuid;
#[allow(unused_imports)]
use crate::btrfs::uuid_text;
use crate::config::effective::EffectiveConfig;
use crate::error::BpmError;
use crate::hooks::HookCtx;
use crate::mechanics::banlist::BanAction;
use crate::mechanics::retire::{counts, show_counts};
#[allow(unused_imports)]
use crate::mechanics::retire::{counts_of, counts_text};
use crate::mechanics::snapshot::SnapOpts;
use crate::outside;
use crate::project::is_leftover_name;
#[allow(unused_imports)]
use crate::project::leftover_name;
use crate::store::{ProjectRecord, SnapshotKind, SnapshotMeta, Stage, Unit};
#[allow(unused_imports)]
use crate::store::meta::stage_name;
#[allow(unused_imports)]
use crate::store::snapshot_place;
use crate::util::order::stable_order;
#[allow(unused_imports)]
use crate::util::order::is_stable_order;
use crate::util::paths::path_starts_with;
#[allow(unused_imports)]
use crate::util::paths::below;
use crate::util::relpath::RelPath;
#[allow(unused_imports)]
use crate::util::relpath::rel_texts;
use crate::util::text::{
    cat2, cat3, cat4, cat5, chars_of, contains, copy_list, join, list_has, split_char, str_eq,
};
#[allow(unused_imports)]
use crate::util::text::{has_text, joined, lemma_split_break, occurs, split_on, texts};
use crate::util::time::{Duration, Timestamp};
use crate::util::walk::{EntryInfo, EntryKind, TreeStats};

verus! {

pub struct AdoptOpts {
    pub keep_build: Option<bool>,
    pub force: bool,
    pub verify_paths: bool,
    /// Refuse when any process has a file open or its working directory inside (automatic
    /// adoption).
    pub require_unused: bool,
}

pub struct AdoptReport {
    pub name: String,
    pub path: String,
    pub converted: bool,
    pub files: u64,
    pub bytes: u64,
    pub nested: Vec<String>,
    pub snapshot: u64,
    pub stage: String,
    /// The original directory, kept because it changed while it was being adopted.
    pub leftover: Option<String>,
}

/// The space that the metadata of a copy may take.
pub const MIN_FREE: u64 = 2_147_483_648;

/// What happens to a store unit that has the name of a new project.
pub enum ClearName {
    /// There is none.
    Free,
    /// The project is managed already.
    Managed(BpmError),
    /// It belongs to an earlier project and moves to this name.
    Move(String),
}

/// Where the store unit of an earlier project goes.
pub open spec fn aside_name(name: Seq<char>, uuid: Seq<u8>) -> Seq<char> {
    name + "@"@ + uuid_text(uuid).take(8)
}

/// Whether an orphaned store unit has to move out of the way of a new project with the same name.
pub fn clear_name(record: Option<&ProjectRecord>, name: &str, live: Option<Uuid>) -> (r: ClearName)
    ensures
        match r {
            ClearName::Free => record is None,
            ClearName::Managed(e) => record is Some && live is Some && live->0@
                == record->0.uuid@ && e is Refused && e->Refused_0@ == name@
                + " is already managed"@,
            ClearName::Move(n) => record is Some && !(live is Some && live->0@ == record->0.uuid@)
                && n@ == aside_name(name@, record->0.uuid@),
        },
{
    match record {
        None => ClearName::Free,
        Some(rec) => {
            let managed = match live {
                Some(u) => u.same(&rec.uuid),
                None => false,
            };
            if managed {
                return ClearName::Managed(BpmError::Refused(cat2(name, " is already managed")));
            }
            ClearName::Move(cat3(name, "@", rec.uuid.short().as_str()))
        },
    }
}

/// Why a store unit cannot move aside.
pub fn move_blocked(unit_dir: &str, target_dir: &str) -> (r: String)
    ensures
        r@ == "cannot move old store entry "@ + unit_dir@ + " aside: "@ + target_dir@ + " exists"@,
{
    cat5("cannot move old store entry ", unit_dir, " aside: ", target_dir, " exists")
}

/// What is reported of a store unit that moves aside.
pub fn move_message(name: &str, record: &ProjectRecord, new_name: &str) -> (r: String)
    ensures
        r@ == "store entry for a previous "@ + name@ + " (uuid "@ + uuid_text(record.uuid@)
            + ") moved to "@ + new_name@,
{
    let mut m = cat5(
        "store entry for a previous ",
        name,
        " (uuid ",
        record.uuid.to_string().as_str(),
        ") moved to ",
    );
    m.append(new_name);
    m
}

/// Who uses a directory, in words.
pub struct Users {
    /// All of them, where there are any.
    pub all: Option<String>,
    /// Those with their working directory inside, where there are any.
    pub cwd: Option<String>,
}

/// What is known of a directory that is to be adopted. Each field is read when asked for.
pub struct AdoptFacts {
    pub store_exists: bool,
    pub store_dir: String,
    pub root: String,
    pub path: String,
    /// A directory, and no symbolic link.
    pub is_dir: Option<bool>,
    pub is_mount_point: Option<bool>,
    /// The subvolume that it is, where it is one.
    pub live: Option<Option<Uuid>>,
    pub managed: Option<bool>,
    /// The first thing in the way that an interrupted adoption left behind.
    pub leftover: Option<Option<String>>,
    pub nested: Option<Vec<String>>,
    /// Free bytes, and the same as people read them.
    pub free: Option<(u64, String)>,
    /// Who writes there, in words.
    pub writers: Option<Option<String>>,
    pub users: Option<Users>,
}

/// A fact that the decision needs.
#[derive(Clone, Copy, Debug, PartialEq, Eq, Structural)]
pub enum AdoptNeed {
    Directory,
    MountPoint,
    Subvolume,
    Managed,
    Leftover,
    Nested,
    Free,
    Writers,
    Users,
}

/// Whether an adoption can begin.
pub enum Preflight {
    Need(AdoptNeed),
    Fail(String),
    Refuse(BpmError),
    /// It can, with a warning where processes will keep the old directory.
    Ready { is_subvolume: bool, warning: Option<String> },
}

/// What a preflight says.
pub enum AdoptSaid {
    Need(AdoptNeed),
    Fail(Seq<char>),
    Refuse(Seq<char>),
    Ready { is_subvolume: bool, warning: Option<Seq<char>> },
}

pub open spec fn text_opt(o: Option<String>) -> Option<Seq<char>> {
    match o {
        Some(s) => Some(s@),
        None => None,
    }
}

pub open spec fn adopt_said(p: Preflight) -> AdoptSaid {
    match p {
        Preflight::Need(n) => AdoptSaid::Need(n),
        Preflight::Fail(m) => AdoptSaid::Fail(m@),
        Preflight::Refuse(e) => AdoptSaid::Refuse(
            match e {
                BpmError::Refused(m) => m@,
                _ => Seq::empty(),
            },
        ),
        Preflight::Ready { is_subvolume, warning } => AdoptSaid::Ready {
            is_subvolume,
            warning: text_opt(warning),
        },
    }
}

/// A name that a project can have.
pub open spec fn valid_name(name: Seq<char>) -> bool {
    !(name.len() > 0 && name[0] == '.') && !has_text(name, "/"@) && !leftover_name(name)
}

/// Whether a project can have this name.
pub fn is_valid_name(name: &str) -> (r: bool)
    ensures
        r == valid_name(name@),
{
    let v = chars_of(name);
    !(v.len() > 0 && v[0] == '.') && !contains(name, "/") && !is_leftover_name(name)
}

/// Whether a plain directory can be copied now.
pub open spec fn plain_preflight(f: AdoptFacts, o: AdoptOpts, name: Seq<char>) -> AdoptSaid {
    match f.leftover {
        None => AdoptSaid::Need(AdoptNeed::Leftover),
        Some(Some(l)) => AdoptSaid::Refuse(
            "leftover "@ + l@ + " exists; run `bpm doctor --fix`"@,
        ),
        Some(None) => match f.nested {
            None => AdoptSaid::Need(AdoptNeed::Nested),
            Some(n) => if n@.len() > 0 {
                AdoptSaid::Refuse(
                    name + " contains nested subvolumes ("@ + joined(texts(n@), ", "@)
                        + "); copying would flatten them"@,
                )
            } else {
                match f.free {
                    None => AdoptSaid::Need(AdoptNeed::Free),
                    Some(free) => if free.0 < MIN_FREE {
                        AdoptSaid::Refuse(
                            "only "@ + free.1@ + " free; adopt needs at least 2G for metadata"@,
                        )
                    } else {
                        match f.writers {
                            None => AdoptSaid::Need(AdoptNeed::Writers),
                            Some(w) => if w is Some && !o.force {
                                AdoptSaid::Refuse(
                                    "files open for writing under "@ + f.path@ + ": "@ + w->0@
                                        + " (retry when idle, or --force)"@,
                                )
                            } else {
                                match f.users {
                                    None => AdoptSaid::Need(AdoptNeed::Users),
                                    Some(u) => if o.require_unused && u.all is Some {
                                        AdoptSaid::Refuse(
                                            f.path@ + " is in use: "@ + u.all->0@
                                                + "; will retry on a later tick"@,
                                        )
                                    } else {
                                        AdoptSaid::Ready {
                                            is_subvolume: false,
                                            warning: match u.cwd {
                                                Some(c) => Some(
                                                    "processes with a working directory inside "@
                                                        + name
                                                        + " will keep the old directory until they `cd` again: "@
                                                        + c@,
                                                ),
                                                None => None,
                                            },
                                        }
                                    },
                                }
                            },
                        }
                    },
                }
            },
        },
    }
}

/// Whether a directory can be adopted: what is known of it is asked in this order, and the first
/// answer against it stands.
pub open spec fn adopt_judged(
    f: AdoptFacts,
    o: AdoptOpts,
    name: Seq<char>,
    ignore: Seq<Seq<char>>,
) -> AdoptSaid {
    if !f.store_exists {
        AdoptSaid::Fail("store "@ + f.store_dir@ + " does not exist; run `bpm setup` first"@)
    } else if !valid_name(name) {
        AdoptSaid::Refuse(outside::quoted(name) + " is not a valid project name"@)
    } else if ignore.contains(name) {
        AdoptSaid::Refuse(name + " is in the ignore list of "@ + f.root@)
    } else {
        match f.is_dir {
            None => AdoptSaid::Need(AdoptNeed::Directory),
            Some(d) => if !d {
                AdoptSaid::Refuse(f.path@ + " is not a directory"@)
            } else {
                match f.is_mount_point {
                    None => AdoptSaid::Need(AdoptNeed::MountPoint),
                    Some(m) => if m {
                        AdoptSaid::Refuse(f.path@ + " is a mount point"@)
                    } else {
                        match f.live {
                            None => AdoptSaid::Need(AdoptNeed::Subvolume),
                            Some(live) => match f.managed {
                                None => AdoptSaid::Need(AdoptNeed::Managed),
                                Some(g) => if !g {
                                    AdoptSaid::Refuse(name + " has managed = false"@)
                                } else if live is Some {
                                    AdoptSaid::Ready { is_subvolume: true, warning: None }
                                } else {
                                    plain_preflight(f, o, name)
                                },
                            },
                        }
                    },
                }
            },
        }
    }
}

fn refuse(m: String) -> (r: Preflight)
    ensures
        adopt_said(r) == AdoptSaid::Refuse(m@),
{
    Preflight::Refuse(BpmError::Refused(m))
}

fn check_plain(f: &AdoptFacts, o: &AdoptOpts, name: &str) -> (r: Preflight)
    ensures
        adopt_said(r) == plain_preflight(*f, *o, name@),
{
    match &f.leftover {
        None => {
            return Preflight::Need(AdoptNeed::Leftover);
        },
        Some(Some(l)) => {
            return refuse(cat3("leftover ", l.as_str(), " exists; run `bpm doctor --fix`"));
        },
        Some(None) => {},
    }
    match &f.nested {
        None => {
            return Preflight::Need(AdoptNeed::Nested);
        },
        Some(n) => {
            if n.len() > 0 {
                return refuse(
                    cat4(
                        name,
                        " contains nested subvolumes (",
                        join(n, ", ").as_str(),
                        "); copying would flatten them",
                    ),
                );
            }
        },
    }
    match &f.free {
        None => {
            return Preflight::Need(AdoptNeed::Free);
        },
        Some(free) => {
            if free.0 < MIN_FREE {
                return refuse(
                    cat3(
                        "only ",
                        free.1.as_str(),
                        " free; adopt needs at least 2G for metadata",
                    ),
                );
            }
        },
    }
    match &f.writers {
        None => {
            return Preflight::Need(AdoptNeed::Writers);
        },
        Some(Some(w)) => {
            if !o.force {
                return refuse(
                    cat5(
                        "files open for writing under ",
                        f.path.as_str(),
                        ": ",
                        w.as_str(),
                        " (retry when idle, or --force)",
                    ),
                );
            }
        },
        Some(None) => {},
    }
    match &f.users {
        None => Preflight::Need(AdoptNeed::Users),
        Some(u) => {
            if let Some(all) = &u.all {
                if o.require_unused {
                    return refuse(
                        cat4(
                            f.path.as_str(),
                            " is in use: ",
                            all.as_str(),
                            "; will retry on a later tick",
                        ),
                    );
                }
            }
            let warning = match &u.cwd {
                Some(c) => Some(
                    cat4(
                        "processes with a working directory inside ",
                        name,
                        " will keep the old directory until they `cd` again: ",
                        c.as_str(),
                    ),
                ),
                None => None,
            };
            Preflight::Ready { is_subvolume: false, warning }
        },
    }
}

/// Whether a directory can be adopted, or what else has to be known.
pub fn preflight(f: &AdoptFacts, o: &AdoptOpts, name: &str, ignore: &Vec<String>) -> (r: Preflight)
    ensures
        adopt_said(r) == adopt_judged(*f, *o, name@, texts(ignore@)),
{
    if !f.store_exists {
        return Preflight::Fail(
            cat3("store ", f.store_dir.as_str(), " does not exist; run `bpm setup` first"),
        );
    }
    if !is_valid_name(name) {
        return refuse(cat2(outside::quote(name).as_str(), " is not a valid project name"));
    }
    if list_has(ignore, name) {
        return refuse(cat3(name, " is in the ignore list of ", f.root.as_str()));
    }
    match f.is_dir {
        None => {
            return Preflight::Need(AdoptNeed::Directory);
        },
        Some(d) => {
            if !d {
                return refuse(cat2(f.path.as_str(), " is not a directory"));
            }
        },
    }
    match f.is_mount_point {
        None => {
            return Preflight::Need(AdoptNeed::MountPoint);
        },
        Some(m) => {
            if m {
                return refuse(cat2(f.path.as_str(), " is a mount point"));
            }
        },
    }
    match &f.live {
        None => Preflight::Need(AdoptNeed::Subvolume),
        Some(live) => match f.managed {
            None => Preflight::Need(AdoptNeed::Managed),
            Some(g) => {
                if !g {
                    refuse(cat2(name, " has managed = false"))
                } else if live.is_some() {
                    Preflight::Ready { is_subvolume: true, warning: None }
                } else {
                    check_plain(f, o, name)
                }
            },
        },
    }
}

/// A path of a single step.
pub open spec fn single_step(p: Seq<char>) -> bool {
    !p.contains('/')
}

/// A name below the project that is copied: all but real directories that become nested
/// subvolumes. A banned name that is a symlink or a file is copied like anything else.
pub open spec fn copied_whole(name: Seq<char>, real_dir: bool, banlist: Seq<Seq<char>>) -> bool {
    !(real_dir && single_step(name) && banlist.contains(name))
}

/// Whether an entry of the project is copied with everything in it.
pub fn copies_entry(name: &str, real_dir: bool, banlist: &Vec<RelPath>) -> (r: bool)
    ensures
        r == copied_whole(name@, real_dir, rel_texts(banlist@)),
{
    if !real_dir {
        return true;
    }
    let mut i: usize = 0;
    while i < banlist.len()
        invariant
            i <= banlist@.len(),
            real_dir,
            forall|k: int|
                0 <= k < i ==> #[trigger] rel_texts(banlist@)[k] != name@ || !single_step(name@),
        decreases banlist@.len() - i,
    {
        if banlist[i].is_top_level() && str_eq(banlist[i].as_str(), name) {
            assert(rel_texts(banlist@)[i as int] == name@);
            return false;
        }
        i += 1;
    }
    true
}

/// How deep a path lies.
pub open spec fn depth(p: Seq<char>) -> nat {
    split_on(p, '/').len()
}

/// The depths of banned paths.
pub open spec fn depths(banlist: Seq<Seq<char>>) -> Seq<u64> {
    Seq::new(banlist.len(), |i: int| depth(banlist[i]) as u64)
}

/// The banned paths from the top down, so that what lies above is there first.
pub fn nested_order(banlist: &Vec<RelPath>) -> (r: Vec<usize>)
    ensures
        is_stable_order(depths(rel_texts(banlist@)), r@),
{
    let mut keys: Vec<u64> = Vec::new();
    let mut i: usize = 0;
    while i < banlist.len()
        invariant
            i <= banlist@.len(),
            keys@.len() == i,
            forall|k: int| 0 <= k < i ==> keys@[k] == depths(rel_texts(banlist@))[k],
        decreases banlist@.len() - i,
    {
        let p = split_char(banlist[i].as_str(), '/');
        assert(texts(p@).len() == p@.len());
        keys.push(p.len() as u64);
        i += 1;
    }
    assert(keys@ =~= depths(rel_texts(banlist@)));
    stable_order(&keys)
}

/// What of an entry is compared.
pub open spec fn entry_facts(e: (String, EntryInfo)) -> (Seq<char>, EntryModel, u64, u32) {
    (e.0@, entry_model(e.1.kind), e.1.size, e.1.mode)
}

/// The kind of an entry, a symbolic link with where it points.
pub enum EntryModel {
    File,
    Dir,
    Symlink(Seq<u8>),
    Other,
}

pub open spec fn entry_model(k: EntryKind) -> EntryModel {
    match k {
        EntryKind::File => EntryModel::File,
        EntryKind::Dir => EntryModel::Dir,
        EntryKind::Symlink(t) => EntryModel::Symlink(t@),
        EntryKind::Other => EntryModel::Other,
    }
}

fn bytes_eq(a: &Vec<u8>, b: &Vec<u8>) -> (r: bool)
    ensures
        r == (a@ == b@),
{
    if a.len() != b.len() {
        return false;
    }
    let mut i: usize = 0;
    while i < a.len()
        invariant
            i <= a@.len(),
            a@.len() == b@.len(),
            forall|k: int| 0 <= k < i ==> a@[k] == b@[k],
        decreases a@.len() - i,
    {
        if a[i] != b[i] {
            return false;
        }
        i += 1;
    }
    assert(a@ =~= b@);
    true
}

/// Whether two entries are of one kind.
pub fn kind_eq(a: &EntryKind, b: &EntryKind) -> (r: bool)
    ensures
        r == (entry_model(*a) == entry_model(*b)),
{
    match (a, b) {
        (EntryKind::File, EntryKind::File) => true,
        (EntryKind::Dir, EntryKind::Dir) => true,
        (EntryKind::Other, EntryKind::Other) => true,
        (EntryKind::Symlink(x), EntryKind::Symlink(y)) => bytes_eq(x, y),
        _ => false,
    }
}

/// A path that is left out of a comparison.
pub open spec fn left_out(p: Seq<char>, exclude: Seq<Seq<char>>) -> bool {
    exists|i: int| 0 <= i < exclude.len() && below(p, #[trigger] exclude[i])
}

fn is_left_out(p: &str, exclude: &Vec<String>) -> (r: bool)
    ensures
        r == left_out(p@, texts(exclude@)),
{
    let mut i: usize = 0;
    while i < exclude.len()
        invariant
            i <= exclude@.len(),
            forall|k: int| 0 <= k < i ==> !below(p@, #[trigger] texts(exclude@)[k]),
        decreases exclude@.len() - i,
    {
        if path_starts_with(p, exclude[i].as_str()) {
            assert(below(p@, texts(exclude@)[i as int]));
            return true;
        }
        i += 1;
    }
    false
}

/// What of a listing is compared: each entry that is not left out, in order.
pub open spec fn compared(
    l: Seq<(String, EntryInfo)>,
    exclude: Seq<Seq<char>>,
) -> Seq<(Seq<char>, EntryModel, u64, u32)>
    decreases l.len(),
{
    if l.len() == 0 {
        Seq::empty()
    } else {
        let rest = compared(l.drop_last(), exclude);
        if left_out(l.last().0@, exclude) {
            rest
        } else {
            rest.push(entry_facts(l.last()))
        }
    }
}

/// The positions of the entries that are compared.
fn kept_positions(l: &Vec<(String, EntryInfo)>, exclude: &Vec<String>) -> (r: Vec<usize>)
    ensures
        r@.len() == compared(l@, texts(exclude@)).len(),
        forall|k: int|
            0 <= k < r@.len() ==> (#[trigger] r@[k]) < l@.len() && entry_facts(l@[r@[k] as int])
                == compared(l@, texts(exclude@))[k],
{
    let mut out: Vec<usize> = Vec::new();
    let mut i: usize = 0;
    assert(l@.take(0) =~= Seq::<(String, EntryInfo)>::empty());
    while i < l.len()
        invariant
            i <= l@.len(),
            out@.len() == compared(l@.take(i as int), texts(exclude@)).len(),
            forall|k: int|
                0 <= k < out@.len() ==> (#[trigger] out@[k]) < l@.len() && entry_facts(
                    l@[out@[k] as int],
                ) == compared(l@.take(i as int), texts(exclude@))[k],
        decreases l@.len() - i,
    {
        assert(l@.take(i + 1).drop_last() =~= l@.take(i as int));
        assert(l@.take(i + 1).last() == l@[i as int]);
        if !is_left_out(l[i].0.as_str(), exclude) {
            out.push(i);
        }
        i += 1;
    }
    assert(l@.take(i as int) =~= l@);
    out
}

/// Whether two listings agree in path, kind, size and mode, apart from what is left out.
pub fn listings_agree(
    a: &Vec<(String, EntryInfo)>,
    b: &Vec<(String, EntryInfo)>,
    exclude: &Vec<String>,
) -> (r: bool)
    ensures
        r == (compared(a@, texts(exclude@)) == compared(b@, texts(exclude@))),
{
    let x = kept_positions(a, exclude);
    let y = kept_positions(b, exclude);
    let ghost ca = compared(a@, texts(exclude@));
    let ghost cb = compared(b@, texts(exclude@));
    if x.len() != y.len() {
        return false;
    }
    let mut i: usize = 0;
    while i < x.len()
        invariant
            i <= x@.len(),
            x@.len() == y@.len() == ca.len() == cb.len(),
            ca == compared(a@, texts(exclude@)),
            cb == compared(b@, texts(exclude@)),
            forall|k: int|
                0 <= k < x@.len() ==> (#[trigger] x@[k]) < a@.len() && entry_facts(a@[x@[k] as int])
                    == ca[k],
            forall|k: int|
                0 <= k < y@.len() ==> (#[trigger] y@[k]) < b@.len() && entry_facts(b@[y@[k] as int])
                    == cb[k],
            forall|k: int| 0 <= k < i ==> ca[k] == cb[k],
        decreases x@.len() - i,
    {
        let e = &a[x[i]];
        let f = &b[y[i]];
        assert(entry_facts(*e) == ca[i as int] && entry_facts(*f) == cb[i as int]);
        if !str_eq(e.0.as_str(), f.0.as_str()) || !kind_eq(&e.1.kind, &f.1.kind) || e.1.size
            != f.1.size || e.1.mode != f.1.mode {
            assert(ca[i as int] != cb[i as int]);
            return false;
        }
        i += 1;
    }
    assert(ca =~= cb);
    true
}

/// Why a copy is not good; nothing where it is. `same_listing` is the comparison of the two
/// listings, where it was asked for.
pub open spec fn copy_fault(
    a: TreeStats,
    b: TreeStats,
    same_listing: Option<bool>,
    started: Timestamp,
    path: Seq<char>,
) -> Option<Seq<char>> {
    if counts_of(a) != counts_of(b) {
        Some(
            "verification failed: source "@ + counts_text(counts_of(a)) + " vs copy "@
                + counts_text(counts_of(b)) + " (files, dirs, symlinks, others, bytes)"@,
        )
    } else if same_listing == Some(false) {
        Some("verification failed: path listing differs between "@ + path + " and its copy"@)
    } else if a.newest_change is Some && a.newest_change->0.ns > started.ns {
        Some(path + " was modified during adoption; retry when idle"@)
    } else {
        None
    }
}

fn modified_since(s: &TreeStats, started: Timestamp) -> (r: bool)
    ensures
        r == (s.newest_change is Some && s.newest_change->0.ns > started.ns),
{
    match s.newest_change {
        Some(c) => c.ns > started.ns,
        None => false,
    }
}

/// Whether the copy `b` of the tree `a` is good.
pub fn verify_copy(
    a: &TreeStats,
    b: &TreeStats,
    same_listing: Option<bool>,
    started: Timestamp,
    path: &str,
) -> (r: Result<(), String>)
    ensures
        match r {
            Ok(_) => copy_fault(*a, *b, same_listing, started, path@) is None,
            Err(m) => copy_fault(*a, *b, same_listing, started, path@) == Some(m@),
        },
{
    let x = counts(a);
    let y = counts(b);
    if x.0 != y.0 || x.1 != y.1 || x.2 != y.2 || x.3 != y.3 || x.4 != y.4 {
        return Err(
            cat5(
                "verification failed: source ",
                show_counts(x).as_str(),
                " vs copy ",
                show_counts(y).as_str(),
                " (files, dirs, symlinks, others, bytes)",
            ),
        );
    }
    if let Some(same) = same_listing {
        if !same {
            return Err(
                cat3(
                    "verification failed: path listing differs between ",
                    path,
                    " and its copy",
                ),
            );
        }
    }
    if modified_since(a, started) {
        return Err(cat2(path, " was modified during adoption; retry when idle"));
    }
    Ok(())
}

/// The warning about hard links that a copy takes apart, where there are any.
pub fn hardlink_warning(name: &str, a: &TreeStats) -> (r: Option<String>)
    ensures
        match r {
            Some(m) => a.bytes != a.path_bytes && m@ == name@
                + ": hardlinks between top-level entries are copied as separate files"@,
            None => a.bytes == a.path_bytes,
        },
{
    if a.bytes != a.path_bytes {
        Some(cat2(name, ": hardlinks between top-level entries are copied as separate files"))
    } else {
        None
    }
}

/// Why the original is not taken from its place after all; nothing where it is. `writers` and
/// `users` are those found last, in words.
pub open spec fn swap_fault(
    path: Seq<char>,
    o: AdoptOpts,
    writers: Option<String>,
    users: Option<String>,
    again: TreeStats,
    started: Timestamp,
) -> Option<Seq<char>> {
    if writers is Some && !o.force {
        Some("files opened for writing under "@ + path + " during adoption: "@ + writers->0@)
    } else if o.require_unused && users is Some {
        Some(path + " came into use during adoption: "@ + users->0@)
    } else if again.newest_change is Some && again.newest_change->0.ns > started.ns {
        Some(path + " was modified during adoption; retry when idle"@)
    } else {
        None
    }
}

/// The last check before the swap: copying build directories can take minutes.
pub fn last_check(
    path: &str,
    o: &AdoptOpts,
    writers: &Option<String>,
    users: &Option<String>,
    again: &TreeStats,
    started: Timestamp,
) -> (r: Result<(), String>)
    ensures
        match r {
            Ok(_) => swap_fault(path@, *o, *writers, *users, *again, started) is None,
            Err(m) => swap_fault(path@, *o, *writers, *users, *again, started) == Some(m@),
        },
{
    if let Some(w) = writers {
        if !o.force {
            return Err(
                cat4("files opened for writing under ", path, " during adoption: ", w.as_str()),
            );
        }
    }
    if let Some(u) = users {
        if o.require_unused {
            return Err(cat3(path, " came into use during adoption: ", u.as_str()));
        }
    }
    if modified_since(again, started) {
        return Err(cat2(path, " was modified during adoption; retry when idle"));
    }
    Ok(())
}

/// The steps of an adoption, and its ends.
#[derive(Clone, Copy, Debug, PartialEq, Eq, Structural)]
pub enum AdoptStep {
    CreateSubvolume,
    /// Owner, mode and extended attributes of the directory itself.
    CopyOwner,
    CopyEntries,
    /// Remove banned directories below the top from the copy.
    DropBanned,
    Verify,
    /// Make the banned directories nested subvolumes.
    MakeNested,
    CopyTimes,
    LastCheck,
    /// Exchange the copy with the original.
    Swap,
    /// Give the original its name for cleanup.
    SetAside,
    Register,
    Enforce,
    Snapshot,
    WriteState,
    /// Delete the original if nothing in it is newer than the copy, otherwise keep it.
    Retire,
    PostHook,
    Done,
    /// Failed with the copy to delete and the journal to close; the original is untouched.
    Abort,
    /// Failed with the journal left for the doctor.
    Fail,
}

/// How far an adoption has come, where all went well so far.
pub open spec fn adopt_rank(s: AdoptStep) -> int {
    match s {
        AdoptStep::CreateSubvolume => 0,
        AdoptStep::CopyOwner => 1,
        AdoptStep::CopyEntries => 2,
        AdoptStep::DropBanned => 3,
        AdoptStep::Verify => 4,
        AdoptStep::MakeNested => 5,
        AdoptStep::CopyTimes => 6,
        AdoptStep::LastCheck => 7,
        AdoptStep::Swap => 8,
        AdoptStep::SetAside => 9,
        AdoptStep::Register => 10,
        AdoptStep::Enforce => 11,
        AdoptStep::Snapshot => 12,
        AdoptStep::WriteState => 13,
        AdoptStep::Retire => 14,
        AdoptStep::PostHook => 15,
        AdoptStep::Done => 16,
        AdoptStep::Abort => -1,
        AdoptStep::Fail => -2,
    }
}

/// The step after one that went well.
pub open spec fn following(s: AdoptStep) -> AdoptStep {
    match s {
        AdoptStep::CreateSubvolume => AdoptStep::CopyOwner,
        AdoptStep::CopyOwner => AdoptStep::CopyEntries,
        AdoptStep::CopyEntries => AdoptStep::DropBanned,
        AdoptStep::DropBanned => AdoptStep::Verify,
        AdoptStep::Verify => AdoptStep::MakeNested,
        AdoptStep::MakeNested => AdoptStep::CopyTimes,
        AdoptStep::CopyTimes => AdoptStep::LastCheck,
        AdoptStep::LastCheck => AdoptStep::Swap,
        AdoptStep::Swap => AdoptStep::SetAside,
        AdoptStep::SetAside => AdoptStep::Register,
        AdoptStep::Register => AdoptStep::Enforce,
        AdoptStep::Enforce => AdoptStep::Snapshot,
        AdoptStep::Snapshot => AdoptStep::WriteState,
        AdoptStep::WriteState => AdoptStep::Retire,
        AdoptStep::Retire => AdoptStep::PostHook,
        AdoptStep::PostHook => AdoptStep::Done,
        end => end,
    }
}

/// The step after one that went well or did not. While the copy is made, a failure throws it
/// away and leaves the original where it is.
pub open spec fn after_adopt(s: AdoptStep, ok: bool) -> AdoptStep {
    if adopt_rank(s) < 0 || s == AdoptStep::Done {
        s
    } else if ok {
        following(s)
    } else if 1 <= adopt_rank(s) <= 7 {
        AdoptStep::Abort
    } else {
        AdoptStep::Fail
    }
}

/// The first step: a subvolume that exists is only registered.
pub fn adopt_first(is_subvolume: bool) -> (r: AdoptStep)
    ensures
        r == if is_subvolume {
            AdoptStep::Register
        } else {
            AdoptStep::CreateSubvolume
        },
{
    if is_subvolume {
        AdoptStep::Register
    } else {
        AdoptStep::CreateSubvolume
    }
}

/// The step after one that went well or did not.
pub fn adopt_next(s: AdoptStep, ok: bool) -> (r: AdoptStep)
    ensures
        r == after_adopt(s, ok),
{
    match s {
        AdoptStep::CreateSubvolume => if ok {
            AdoptStep::CopyOwner
        } else {
            AdoptStep::Fail
        },
        AdoptStep::CopyOwner => if ok {
            AdoptStep::CopyEntries
        } else {
            AdoptStep::Abort
        },
        AdoptStep::CopyEntries => if ok {
            AdoptStep::DropBanned
        } else {
            AdoptStep::Abort
        },
        AdoptStep::DropBanned => if ok {
            AdoptStep::Verify
        } else {
            AdoptStep::Abort
        },
        AdoptStep::Verify => if ok {
            AdoptStep::MakeNested
        } else {
            AdoptStep::Abort
        },
        AdoptStep::MakeNested => if ok {
            AdoptStep::CopyTimes
        } else {
            AdoptStep::Abort
        },
        AdoptStep::CopyTimes => if ok {
            AdoptStep::LastCheck
        } else {
            AdoptStep::Abort
        },
        AdoptStep::LastCheck => if ok {
            AdoptStep::Swap
        } else {
            AdoptStep::Abort
        },
        AdoptStep::Swap if ok => AdoptStep::SetAside,
        AdoptStep::SetAside if ok => AdoptStep::Register,
        AdoptStep::Register if ok => AdoptStep::Enforce,
        AdoptStep::Enforce if ok => AdoptStep::Snapshot,
        AdoptStep::Snapshot if ok => AdoptStep::WriteState,
        AdoptStep::WriteState if ok => AdoptStep::Retire,
        AdoptStep::Retire if ok => AdoptStep::PostHook,
        AdoptStep::PostHook if ok => AdoptStep::Done,
        AdoptStep::Done => AdoptStep::Done,
        AdoptStep::Abort => AdoptStep::Abort,
        _ => AdoptStep::Fail,
    }
}

/// What the journal says before a step; nothing where it does not change.
pub open spec fn journal_mark(s: AdoptStep) -> Option<u32> {
    match s {
        AdoptStep::CreateSubvolume => Some(1),
        AdoptStep::CopyEntries => Some(2),
        AdoptStep::Verify => Some(3),
        AdoptStep::MakeNested => Some(4),
        AdoptStep::Swap => Some(5),
        AdoptStep::Register => Some(6),
        AdoptStep::Retire => Some(7),
        _ => None,
    }
}

/// What the journal says before a step; nothing where it does not change.
pub fn journal_step(s: AdoptStep) -> (r: Option<u32>)
    ensures
        r == journal_mark(s),
{
    match s {
        AdoptStep::CreateSubvolume => Some(1),
        AdoptStep::CopyEntries => Some(2),
        AdoptStep::Verify => Some(3),
        AdoptStep::MakeNested => Some(4),
        AdoptStep::Swap => Some(5),
        AdoptStep::Register => Some(6),
        AdoptStep::Retire => Some(7),
        _ => None,
    }
}

/// Where the adoption of a plain directory ends up when its steps go as `oks` says.
pub open spec fn adopt_run(oks: Seq<bool>) -> AdoptStep
    decreases oks.len(),
{
    if oks.len() == 0 {
        AdoptStep::CreateSubvolume
    } else {
        after_adopt(adopt_run(oks.drop_last()), oks.last())
    }
}

/// The original is taken from its place only after a complete copy was verified and the last
/// check passed, and it is cleaned up only after the new subvolume was registered and
/// snapshotted. Whatever fails before the swap leaves it where it is.
pub proof fn law_original_is_safe(oks: Seq<bool>)
    ensures
        ({
            let s = adopt_run(oks);
            &&& adopt_rank(s) >= 0 ==> adopt_rank(s) <= oks.len() && forall|i: int|
                0 <= i < adopt_rank(s) ==> #[trigger] oks[i]
            &&& (oks.len() > 0 && exists|i: int| 0 <= i < oks.len() && i < 8 && !#[trigger] oks[i])
                ==> s == AdoptStep::Abort || s == AdoptStep::Fail
        }),
    decreases oks.len(),
{
    if oks.len() > 0 {
        let rest = oks.drop_last();
        law_original_is_safe(rest);
        lemma_adopt_rank(rest);
        lemma_adopt_rank(oks);
        let s = adopt_run(oks);
        let b = adopt_run(rest);
        if adopt_rank(s) >= 0 {
            assert forall|i: int| 0 <= i < adopt_rank(s) implies #[trigger] oks[i] by {
                if i < rest.len() {
                    if i < adopt_rank(b) {
                        assert(rest[i]);
                    }
                }
            }
        }
        if exists|i: int| 0 <= i < oks.len() && i < 8 && !#[trigger] oks[i] {
            let i = choose|i: int| 0 <= i < oks.len() && i < 8 && !#[trigger] oks[i];
            if i < rest.len() {
                assert(!rest[i]);
            } else if adopt_rank(b) >= 0 {
                assert(adopt_rank(b) == i);
            }
        }
    }
}

proof fn lemma_adopt_rank(oks: Seq<bool>)
    ensures
        ({
            let s = adopt_run(oks);
            adopt_rank(s) >= 0 ==> adopt_rank(s) == oks.len() || (s == AdoptStep::Done && oks.len()
                >= 16)
        }),
    decreases oks.len(),
{
    if oks.len() > 0 {
        lemma_adopt_rank(oks.drop_last());
    }
}

/// What is added to an error that came up while the copy was made.
pub fn abort_context(name: &str) -> (r: String)
    ensures
        r@ == "adopt "@ + name@ + ": copy into new subvolume failed; original untouched"@,
{
    cat3("adopt ", name, ": copy into new subvolume failed; original untouched")
}

/// Whether the contents of build directories are copied.
pub fn keeps_build(o: &AdoptOpts, eff: &EffectiveConfig) -> (r: bool)
    ensures
        r == match o.keep_build {
            Some(k) => k,
            None => eff.policy.keep_build_on_adopt,
        },
{
    match o.keep_build {
        Some(k) => k,
        None => eff.policy.keep_build_on_adopt,
    }
}

/// How the first snapshot of a project is taken.
pub fn adopt_snapshot(is_subvolume: bool, budget: Duration) -> (r: SnapOpts)
    ensures
        r.kind == SnapshotKind::Adopt,
        r.reason@ == if is_subvolume {
            "registered existing subvolume"@
        } else {
            "adopted"@
        },
        r.stats && r.stats_budget == budget && !r.hold && r.pair is None,
{
    let reason = if is_subvolume {
        "registered existing subvolume"
    } else {
        "adopted"
    };
    let mut o = SnapOpts::new(SnapshotKind::Adopt, reason.to_owned());
    o.stats_budget = budget;
    o
}

/// When a project that was just adopted last changed.
pub open spec fn changed_last(meta: SnapshotMeta, now: Timestamp) -> Timestamp {
    if meta.stats is Some && meta.stats->0.newest_mtime is Some {
        meta.stats->0.newest_mtime->0
    } else {
        now
    }
}

/// When a project that was just adopted last changed: as far as its files say.
pub fn last_change(meta: &SnapshotMeta, now: Timestamp) -> (r: Timestamp)
    ensures
        r == if meta.stats is Some && meta.stats->0.newest_mtime is Some {
            meta.stats->0.newest_mtime->0
        } else {
            now
        },
        r == changed_last(*meta, now),
{
    match &meta.stats {
        Some(s) => match s.newest_mtime {
            Some(t) => t,
            None => now,
        },
        None => now,
    }
}

/// The paths of subvolumes that enforcement made.
pub open spec fn made(actions: Seq<BanAction>) -> Seq<Seq<char>>
    decreases actions.len(),
{
    if actions.len() == 0 {
        Seq::empty()
    } else {
        let rest = made(actions.drop_last());
        match actions.last() {
            BanAction::Created(p) => rest.push(p@),
            BanAction::Recreated(p) => rest.push(p@),
            _ => rest,
        }
    }
}

/// Adds the paths of subvolumes that enforcement made.
pub fn add_made(nested: &mut Vec<String>, actions: &Vec<BanAction>)
    ensures
        texts(final(nested)@) == texts(old(nested)@) + made(actions@),
{
    let ghost start = texts(nested@);
    let mut i: usize = 0;
    assert(actions@.take(0) =~= Seq::<BanAction>::empty());
    assert(start + made(actions@.take(0)) =~= start);
    while i < actions.len()
        invariant
            i <= actions@.len(),
            texts(nested@) == start + made(actions@.take(i as int)),
        decreases actions@.len() - i,
    {
        assert(actions@.take(i + 1).drop_last() =~= actions@.take(i as int));
        let ghost before = texts(nested@);
        match &actions[i] {
            BanAction::Created(p) => {
                nested.push(p.clone());
                assert(texts(nested@) =~= before.push(p@));
                assert(start + made(actions@.take(i + 1)) =~= before.push(p@));
            },
            BanAction::Recreated(p) => {
                nested.push(p.clone());
                assert(texts(nested@) =~= before.push(p@));
                assert(start + made(actions@.take(i + 1)) =~= before.push(p@));
            },
            _ => {},
        }
        i += 1;
    }
    assert(actions@.take(i as int) =~= actions@);
}

/// The report of an adoption that was only pretended.
pub fn pretended(name: &str, path: &str, is_subvolume: bool) -> (r: AdoptReport)
    ensures
        r.name@ == name@,
        r.path@ == path@,
        r.converted == !is_subvolume,
        r.files == 0 && r.bytes == 0 && r.snapshot == 0,
        r.nested@.len() == 0,
        r.stage@ == "active"@,
        r.leftover is None,
{
    AdoptReport {
        name: name.to_owned(),
        path: path.to_owned(),
        converted: !is_subvolume,
        files: 0,
        bytes: 0,
        nested: Vec::new(),
        snapshot: 0,
        stage: "active".to_owned(),
        leftover: None,
    }
}

/// The report of an adoption.
pub fn report(
    name: &str,
    path: &str,
    is_subvolume: bool,
    meta: &SnapshotMeta,
    nested: &Vec<String>,
    stage: Stage,
    leftover: Option<String>,
) -> (r: AdoptReport)
    ensures
        r.name@ == name@,
        r.path@ == path@,
        r.converted == !is_subvolume,
        r.files == if meta.stats is Some {
            meta.stats->0.files
        } else {
            0
        },
        r.bytes == if meta.stats is Some {
            meta.stats->0.bytes
        } else {
            0
        },
        r.nested@ == nested@,
        r.snapshot == meta.id,
        r.stage@ == stage_name(stage),
        r.leftover == leftover,
{
    let (files, bytes) = match &meta.stats {
        Some(s) => (s.files, s.bytes),
        None => (0, 0),
    };
    AdoptReport {
        name: name.to_owned(),
        path: path.to_owned(),
        converted: !is_subvolume,
        files,
        bytes,
        nested: copy_list(nested),
        snapshot: meta.id,
        stage: stage.as_str().to_owned(),
        leftover,
    }
}

/// What the hooks around an adoption are told; after it also which snapshot was taken.
pub fn adopt_hook(
    name: &str,
    path: &str,
    owner: (u32, u32),
    root: &str,
    taken: Option<(&Unit, &SnapshotMeta)>,
) -> (r: HookCtx)
    ensures
        r.project is Some && r.project->0@ == name@,
        r.project_path is Some && r.project_path->0@ == path@,
        r.owner == Some(owner),
        r.root is Some && r.root->0@ == root@,
        match taken {
            None => r.snapshot is None,
            Some(t) => r.snapshot is Some && (r.snapshot->0).0 == t.1.id && (r.snapshot->0).1@
                == snapshot_place(t.0.dir@, t.1.id) && (r.snapshot->0).2 == t.1.kind,
        },
        r.stage is None,
        r.reason@ == "adopt"@,
        r.extra@.len() == 0,
{
    let snapshot = match taken {
        None => None,
        Some((unit, meta)) => Some((meta.id, unit.snapshot_path(meta.id), meta.kind)),
    };
    HookCtx {
        project: Some(name.to_owned()),
        project_path: Some(path.to_owned()),
        owner: Some(owner),
        root: Some(root.to_owned()),
        snapshot,
        stage: None,
        reason: "adopt".to_owned(),
        extra: Vec::new(),
    }
}

/// A project name is one step that is not hidden and not that of something left behind.
pub proof fn law_project_names_are_plain_steps(name: Seq<char>)
    ensures
        name.len() > 0 && name[0] == '.' ==> !valid_name(name),
        name.contains('/') ==> !valid_name(name),
        leftover_name(name) ==> !valid_name(name),
        !name.contains('/') && !leftover_name(name) && (name.len() > 0 ==> name[0] != '.')
            ==> valid_name(name),
{
    reveal_strlit("/");
    if name.contains('/') {
        let i = choose|i: int| 0 <= i < name.len() && name[i] == '/';
        assert(name.subrange(i, i + 1) =~= "/"@);
        assert(occurs(name, "/"@, i));
    }
    if has_text(name, "/"@) {
        let i = choose|i: int| occurs(name, "/"@, i);
        assert(name.subrange(i, i + 1)[0] == '/');
        assert(name[i] == '/');
    }
}

/// What may be adopted: a directory of its own that is neither ignored nor unmanaged. A subvolume
/// is then only registered. A plain directory is copied, so nothing of an earlier adoption may be
/// in the way, it may hold no subvolumes, two gibibytes have to be free, nobody may write to it
/// unless that is forced, and nobody may use it where that is asked for.
pub proof fn law_what_may_be_adopted(
    f: AdoptFacts,
    o: AdoptOpts,
    name: Seq<char>,
    ignore: Seq<Seq<char>>,
)
    ensures
        ({
            let open = f.store_exists && valid_name(name) && !ignore.contains(name) && f.is_dir
                == Some(true) && f.is_mount_point == Some(false) && f.managed == Some(true);
            let r = adopt_judged(f, o, name, ignore);
            &&& (r matches AdoptSaid::Ready { is_subvolume, warning } && is_subvolume) <==> open && (
            f.live matches Some(Some(_)))
            &&& (r matches AdoptSaid::Ready { is_subvolume, warning } && !is_subvolume) <==> {
                &&& open && f.live == Some(None::<Uuid>) && f.leftover == Some(None::<String>)
                &&& f.nested matches Some(n) && n@.len() == 0
                &&& f.free matches Some(b) && b.0 >= 2 * 1024 * 1024 * 1024
                &&& f.writers matches Some(w) && (w is None || o.force)
                &&& f.users matches Some(u) && (u.all is None || !o.require_unused)
            }
        }),
{
}

/// Everything is copied but directories that are banned at the top of the project: a symlink or
/// a file under such a name is, and so is a directory that only holds banned ones.
pub proof fn law_only_banned_directories_are_left_behind(
    name: Seq<char>,
    real_dir: bool,
    banlist: Seq<Seq<char>>,
)
    ensures
        copied_whole(name, false, banlist),
        !banlist.contains(name) ==> copied_whole(name, real_dir, banlist),
        banlist.contains(name) && real_dir && !name.contains('/') ==> !copied_whole(
            name,
            real_dir,
            banlist,
        ),
{
}

/// What lies inside a directory lies deeper than that, so a directory comes before what is in it
/// where paths are taken in the order of their depth.
pub proof fn law_what_lies_inside_lies_deeper(dir: Seq<char>, rest: Seq<char>)
    ensures
        depth(dir + "/"@ + rest) == depth(dir) + depth(rest),
        depth(rest) >= 1,
        depth(dir) < depth(dir + "/"@ + rest),
{
    reveal_strlit("/");
    lemma_split_break(dir, '/', rest);
    assert(dir.push('/') + rest =~= dir + "/"@ + rest);
    lemma_some_piece(rest);
}

proof fn lemma_some_piece(s: Seq<char>)
    ensures
        split_on(s, '/').len() >= 1,
    decreases s.len(),
{
    if s.len() > 0 {
        lemma_some_piece(s.drop_last());
    }
}

/// Two listings of one length agree where each entry has the same path, kind, size and mode as its
/// counterpart; times are not compared, and nothing is left out where nothing is to be.
pub proof fn law_copies_agree_entry_by_entry(
    a: Seq<(String, EntryInfo)>,
    b: Seq<(String, EntryInfo)>,
)
    ensures
        compared(a, Seq::empty()) == compared(b, Seq::empty()) <==> a.len() == b.len() && forall|
            i: int,
        |
            #![trigger a[i]]
            #![trigger b[i]]
            0 <= i < a.len() ==> a[i].0@ == b[i].0@ && entry_model(a[i].1.kind) == entry_model(
                b[i].1.kind,
            ) && a[i].1.size == b[i].1.size && a[i].1.mode == b[i].1.mode,
{
    let none = Seq::<Seq<char>>::empty();
    lemma_compared_all(a);
    lemma_compared_all(b);
    let x = compared(a, none);
    let y = compared(b, none);
    if x == y {
        assert forall|i: int|
            #![trigger a[i]]
            #![trigger b[i]]
            0 <= i < a.len() implies a[i].0@ == b[i].0@ && entry_model(a[i].1.kind) == entry_model(
            b[i].1.kind,
        ) && a[i].1.size == b[i].1.size && a[i].1.mode == b[i].1.mode by {
            assert(x[i] == y[i]);
        }
    }
    if a.len() == b.len() && forall|i: int|
        #![trigger a[i]]
        #![trigger b[i]]
        0 <= i < a.len() ==> a[i].0@ == b[i].0@ && entry_model(a[i].1.kind) == entry_model(
            b[i].1.kind,
        ) && a[i].1.size == b[i].1.size && a[i].1.mode == b[i].1.mode {
        assert forall|i: int| 0 <= i < x.len() implies x[i] == y[i] by {
            assert(a[i].0@ == b[i].0@);
        }
        assert(x =~= y);
    }
}

proof fn lemma_compared_all(l: Seq<(String, EntryInfo)>)
    ensures
        compared(l, Seq::empty()).len() == l.len(),
        forall|i: int|
            0 <= i < l.len() ==> #[trigger] compared(l, Seq::empty())[i] == entry_facts(l[i]),
    decreases l.len(),
{
    if l.len() > 0 {
        lemma_compared_all(l.drop_last());
    }
}

/// An entry at or below something that is left out is not compared, and every other one is.
pub proof fn law_only_what_is_left_out_is_not_compared(
    l: Seq<(String, EntryInfo)>,
    e: (String, EntryInfo),
    exclude: Seq<Seq<char>>,
)
    ensures
        (exists|i: int| 0 <= i < exclude.len() && below(e.0@, #[trigger] exclude[i])) ==> compared(
            l.push(e),
            exclude,
        ) == compared(l, exclude),
        !(exists|i: int| 0 <= i < exclude.len() && below(e.0@, #[trigger] exclude[i])) ==> compared(
            l.push(e),
            exclude,
        ) == compared(l, exclude).push(
            (e.0@, entry_model(e.1.kind), e.1.size, e.1.mode),
        ),
{
    assert(l.push(e).drop_last() =~= l);
}

/// A copy is good where it has as many files, directories, symlinks and other entries and as many
/// bytes as the source, the listings did not differ, and nothing in the source changed since the
/// copying began.
pub proof fn law_good_copies_are_complete(
    a: TreeStats,
    b: TreeStats,
    same_listing: Option<bool>,
    started: Timestamp,
    path: Seq<char>,
)
    ensures
        copy_fault(a, b, same_listing, started, path) is None <==> {
            &&& a.files == b.files && a.dirs == b.dirs && a.symlinks == b.symlinks
            &&& a.others == b.others && a.path_bytes == b.path_bytes
            &&& same_listing matches Some(same) ==> same
            &&& a.newest_change matches Some(t) ==> t.ns <= started.ns
        },
{
}

/// The original leaves its place only where nobody writes to it unless that is forced, nobody
/// uses it where that is asked for, and nothing changed since the copying began.
pub proof fn law_originals_leave_unchanged(
    path: Seq<char>,
    o: AdoptOpts,
    writers: Option<String>,
    users: Option<String>,
    again: TreeStats,
    started: Timestamp,
)
    ensures
        swap_fault(path, o, writers, users, again, started) is None <==> {
            &&& writers is None || o.force
            &&& users is None || !o.require_unused
            &&& again.newest_change matches Some(t) ==> t.ns <= started.ns
        },
{
}

/// How the adoption of a plain directory ends: it is given up with the copy thrown away where
/// anything fails between making the subvolume and the swap, and stops where anything else fails.
/// The swap comes after the copy was verified and the last check, the registration after the swap,
/// and the original goes only after the snapshot and the state were written.
pub proof fn law_adoptions_end_by_their_steps(oks: Seq<bool>)
    requires
        oks.len() == 16,
    ensures
        adopt_run(oks) == AdoptStep::Done <==> forall|i: int| 0 <= i < 16 ==> #[trigger] oks[i],
        adopt_run(oks) == AdoptStep::Abort <==> oks[0] && exists|i: int|
            1 <= i <= 7 && !#[trigger] oks[i],
        adopt_run(oks) == AdoptStep::Fail <==> !oks[0] || ((forall|i: int|
            0 <= i <= 7 ==> #[trigger] oks[i]) && exists|i: int| 8 <= i < 16 && !#[trigger] oks[i]),
        (forall|i: int| 0 <= i < 16 ==> #[trigger] oks[i]) ==> {
            &&& adopt_run(oks.take(4)) == AdoptStep::Verify
            &&& adopt_run(oks.take(7)) == AdoptStep::LastCheck
            &&& adopt_run(oks.take(8)) == AdoptStep::Swap
            &&& adopt_run(oks.take(10)) == AdoptStep::Register
            &&& adopt_run(oks.take(12)) == AdoptStep::Snapshot
            &&& adopt_run(oks.take(13)) == AdoptStep::WriteState
            &&& adopt_run(oks.take(14)) == AdoptStep::Retire
        },
{
    assert(oks.drop_last() =~= oks.take(15));
    assert forall|k: int| 0 < k <= 15 implies #[trigger] oks.take(k).drop_last() == oks.take(k - 1)
        && oks.take(k).last() == oks[k - 1] by {
        assert(oks.take(k).drop_last() =~= oks.take(k - 1));
    }
    assert(oks.take(0).len() == 0);
    let r1 = adopt_run(oks.take(1));
    let r2 = adopt_run(oks.take(2));
    let r3 = adopt_run(oks.take(3));
    let r4 = adopt_run(oks.take(4));
    let r5 = adopt_run(oks.take(5));
    let r6 = adopt_run(oks.take(6));
    let r7 = adopt_run(oks.take(7));
    let r8 = adopt_run(oks.take(8));
    assert(adopt_run(oks.take(0)) == AdoptStep::CreateSubvolume);
    assert(r1 == after_adopt(adopt_run(oks.take(0)), oks[0]));
    assert(r2 == after_adopt(r1, oks[1]));
    assert(r3 == after_adopt(r2, oks[2]));
    assert(r4 == after_adopt(r3, oks[3]));
    assert(r5 == after_adopt(r4, oks[4]));
    assert(r6 == after_adopt(r5, oks[5]));
    assert(r7 == after_adopt(r6, oks[6]));
    assert(r8 == after_adopt(r7, oks[7]));
    assert(r8 == AdoptStep::Swap <==> oks[0] && oks[1] && oks[2] && oks[3] && oks[4] && oks[5]
        && oks[6] && oks[7]);
    assert(r8 == AdoptStep::Fail <==> !oks[0]);
    assert(r8 == AdoptStep::Abort || r8 == AdoptStep::Fail || r8 == AdoptStep::Swap);
    let r9 = adopt_run(oks.take(9));
    let r10 = adopt_run(oks.take(10));
    let r11 = adopt_run(oks.take(11));
    let r12 = adopt_run(oks.take(12));
    let r13 = adopt_run(oks.take(13));
    let r14 = adopt_run(oks.take(14));
    let r15 = adopt_run(oks.take(15));
    assert(r9 == after_adopt(r8, oks[8]));
    assert(r10 == after_adopt(r9, oks[9]));
    assert(r11 == after_adopt(r10, oks[10]));
    assert(r12 == after_adopt(r11, oks[11]));
    assert(r13 == after_adopt(r12, oks[12]));
    assert(r14 == after_adopt(r13, oks[13]));
    assert(r15 == after_adopt(r14, oks[14]));
    assert(adopt_run(oks) == after_adopt(r15, oks[15]));
    assert((forall|i: int| 0 <= i <= 7 ==> #[trigger] oks[i]) <==> oks[0] && oks[1] && oks[2]
        && oks[3] && oks[4] && oks[5] && oks[6] && oks[7]);
    assert((forall|i: int| 8 <= i < 16 ==> #[trigger] oks[i]) <==> oks[8] && oks[9] && oks[10]
        && oks[11] && oks[12] && oks[13] && oks[14] && oks[15]);
}

/// The journal counts up along the steps: it says that the original may have left its place from
/// the swap on, and that it may be gone from its removal on.
pub proof fn law_the_journal_counts_up(s: AdoptStep, t: AdoptStep)
    ensures
        journal_mark(s) is Some && journal_mark(t) is Some && 0 <= adopt_rank(s) < adopt_rank(t)
            ==> journal_mark(s)->0 < journal_mark(t)->0,
        journal_mark(AdoptStep::CreateSubvolume) == Some(1u32),
        journal_mark(AdoptStep::Swap) == Some(5u32),
        journal_mark(AdoptStep::Retire) == Some(7u32),
{
}

/// What enforcement made are the subvolumes that it created or put in the place of a directory.
pub proof fn law_what_was_made_is_listed(actions: Seq<BanAction>, a: BanAction)
    ensures
        a matches BanAction::Created(p) ==> made(actions.push(a)) == made(actions).push(p@),
        a matches BanAction::Recreated(p) ==> made(actions.push(a)) == made(actions).push(p@),
        !(a is Created) && !(a is Recreated) ==> made(actions.push(a)) == made(actions),
        made(Seq::empty()).len() == 0,
{
    assert(actions.push(a).drop_last() =~= actions);
}

/// A project that was just adopted last changed with its newest file, and now where that is not
/// known.
pub proof fn law_adopted_projects_are_as_old_as_their_files(meta: SnapshotMeta, now: Timestamp)
    ensures
        meta.stats is Some && meta.stats->0.newest_mtime is Some ==> changed_last(meta, now)
            == meta.stats->0.newest_mtime->0,
        meta.stats is None || meta.stats->0.newest_mtime is None ==> changed_last(meta, now) == now,
{
}

} // verus!
