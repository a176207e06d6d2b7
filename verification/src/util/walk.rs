//! What a walk through a directory tree finds.

use vstd::prelude::*;

use crate::util::strmap::StrMap;
#[allow(unused_imports)]
use crate::util::time::in_calendar;
use crate::util::time::Timestamp;

verus! {

/// The counts of one walk.
pub struct TreeStats {
    pub files: u64,
    pub dirs: u64,
    pub symlinks: u64,
    pub others: u64,
    /// The bytes of the files, each counted once.
    pub bytes: u64,
    /// The bytes of the files, each counted at every path that leads to it.
    pub path_bytes: u64,
    /// Whether the walk went through the whole tree.
    pub complete: bool,
    /// Whether each sentinel was there.
    pub sentinels: StrMap<bool>,
    pub newest_mtime: Option<Timestamp>,
    pub newest_change: Option<Timestamp>,
    pub walk_ms: u64,
}

impl TreeStats {
    /// The counts of a walk that has not begun.
    pub fn empty() -> (r: TreeStats)
        ensures
            r.files == 0 && r.dirs == 0 && r.symlinks == 0 && r.others == 0,
            r.bytes == 0 && r.path_bytes == 0 && r.walk_ms == 0,
            !r.complete,
            r.sentinels@ == Map::<Seq<char>, bool>::empty(),
            r.newest_mtime is None,
            r.newest_change is None,
    {
        TreeStats {
            files: 0,
            dirs: 0,
            symlinks: 0,
            others: 0,
            bytes: 0,
            path_bytes: 0,
            complete: false,
            sentinels: StrMap::new(),
            newest_mtime: None,
            newest_change: None,
            walk_ms: 0,
        }
    }
}

/// A sum, as far as 64 bits hold it.
pub open spec fn plus(a: u64, b: u64) -> u64 {
    if a + b <= u64::MAX {
        (a + b) as u64
    } else {
        u64::MAX
    }
}

/// The later of an instant that may be missing and one in nanoseconds that calendars may not
/// reach.
pub open spec fn later_of(t: Option<Timestamp>, ns: i128) -> Option<Timestamp> {
    if in_calendar(ns as int) && (t is None || t->0.ns < ns) {
        Some(Timestamp { ns })
    } else {
        t
    }
}

/// The counts after one more entry: `again` says of a file that it was counted at another path,
/// `change_ns` when the entry changed last.
pub open spec fn with_entry(
    s: TreeStats,
    e: EntryInfo,
    again: bool,
    change_ns: i128,
) -> TreeStats {
    TreeStats {
        files: plus(s.files, (e.kind is File) as u64),
        dirs: plus(s.dirs, (e.kind is Dir) as u64),
        symlinks: plus(s.symlinks, (e.kind is Symlink) as u64),
        others: plus(s.others, (e.kind is Other) as u64),
        bytes: if e.kind is File && !again {
            plus(s.bytes, e.size)
        } else {
            s.bytes
        },
        path_bytes: if e.kind is File {
            plus(s.path_bytes, e.size)
        } else {
            s.path_bytes
        },
        newest_mtime: later_of(s.newest_mtime, e.mtime_ns),
        newest_change: later_of(s.newest_change, change_ns),
        ..s
    }
}

fn later(t: Option<Timestamp>, ns: i128) -> (r: Option<Timestamp>)
    ensures
        r == later_of(t, ns),
{
    match Timestamp::from_nanosecond(ns) {
        None => t,
        Some(n) => match t {
            Some(x) => if x.ns < ns {
                Some(n)
            } else {
                t
            },
            None => Some(n),
        },
    }
}

impl TreeStats {
    /// Counts one more entry.
    pub fn count(&mut self, e: &EntryInfo, again: bool, change_ns: i128)
        ensures
            *final(self) == with_entry(*old(self), *e, again, change_ns),
    {
        match e.kind {
            EntryKind::File => {
                self.files = self.files.saturating_add(1);
                self.path_bytes = self.path_bytes.saturating_add(e.size);
                if !again {
                    self.bytes = self.bytes.saturating_add(e.size);
                }
            },
            EntryKind::Dir => {
                self.dirs = self.dirs.saturating_add(1);
            },
            EntryKind::Symlink(_) => {
                self.symlinks = self.symlinks.saturating_add(1);
            },
            EntryKind::Other => {
                self.others = self.others.saturating_add(1);
            },
        }
        self.newest_mtime = later(self.newest_mtime, e.mtime_ns);
        self.newest_change = later(self.newest_change, change_ns);
    }
}

/// The same counts.
pub open spec fn same_stats(a: TreeStats, b: TreeStats) -> bool {
    a == (TreeStats { sentinels: a.sentinels, ..b }) && a.sentinels@ == b.sentinels@
}

/// Counts that may be missing, the same in both.
pub open spec fn same_stats_opt(a: Option<TreeStats>, b: Option<TreeStats>) -> bool {
    match a {
        Some(x) => b is Some && same_stats(x, b->0),
        None => b is None,
    }
}

impl TreeStats {
    /// The same counts again.
    pub fn copy(&self) -> (r: TreeStats)
        ensures
            same_stats(r, *self),
    {
        TreeStats {
            files: self.files,
            dirs: self.dirs,
            symlinks: self.symlinks,
            others: self.others,
            bytes: self.bytes,
            path_bytes: self.path_bytes,
            complete: self.complete,
            sentinels: self.sentinels.copy(),
            newest_mtime: self.newest_mtime,
            newest_change: self.newest_change,
            walk_ms: self.walk_ms,
        }
    }
}

/// Counts that may be missing, again.
pub fn copy_stats(s: &Option<TreeStats>) -> (r: Option<TreeStats>)
    ensures
        same_stats_opt(r, *s),
{
    match s {
        Some(x) => Some(x.copy()),
        None => None,
    }
}

/// What stands at a path.
#[derive(Clone, Debug, PartialEq, Eq)]
pub enum EntryKind {
    File,
    Dir,
    /// A symbolic link and where it points.
    Symlink(Vec<u8>),
    Other,
}

/// One entry of a tree.
#[derive(Clone, Debug)]
pub struct EntryInfo {
    pub kind: EntryKind,
    pub size: u64,
    pub mtime_ns: i128,
    pub mode: u32,
}

/// One more entry counts as what it is and as nothing else. The size of a file counts at every
/// path and otherwise only where it was not counted before, and the newest times are those of the
/// entry where nothing before it was newer.
pub proof fn law_entries_count_as_what_they_are(
    s: TreeStats,
    e: EntryInfo,
    again: bool,
    change_ns: i128,
)
    requires
        s.files < u64::MAX && s.dirs < u64::MAX && s.symlinks < u64::MAX && s.others < u64::MAX,
        s.bytes + e.size <= u64::MAX && s.path_bytes + e.size <= u64::MAX,
    ensures
        ({
            let t = with_entry(s, e, again, change_ns);
            &&& e.kind is File ==> t.files == s.files + 1 && t.dirs == s.dirs && t.symlinks
                == s.symlinks && t.others == s.others
            &&& e.kind is Dir ==> t.dirs == s.dirs + 1 && t.files == s.files && t.symlinks
                == s.symlinks && t.others == s.others
            &&& e.kind is Symlink ==> t.symlinks == s.symlinks + 1 && t.files == s.files && t.dirs
                == s.dirs && t.others == s.others
            &&& e.kind is Other ==> t.others == s.others + 1 && t.files == s.files && t.dirs
                == s.dirs && t.symlinks == s.symlinks
            &&& e.kind is File ==> t.path_bytes == s.path_bytes + e.size
            &&& e.kind is File && !again ==> t.bytes == s.bytes + e.size
            &&& e.kind is File && again ==> t.bytes == s.bytes
            &&& e.kind !is File ==> t.bytes == s.bytes && t.path_bytes == s.path_bytes
            &&& s.newest_mtime matches Some(x) ==> t.newest_mtime matches Some(y) && x.ns <= y.ns
            &&& s.newest_change matches Some(x) ==> t.newest_change matches Some(y) && x.ns <= y.ns
            &&& in_calendar(e.mtime_ns as int) ==> t.newest_mtime is Some && e.mtime_ns
                <= t.newest_mtime->0.ns && (t.newest_mtime->0.ns == e.mtime_ns || t.newest_mtime
                == s.newest_mtime)
            &&& in_calendar(change_ns as int) ==> t.newest_change is Some && change_ns
                <= t.newest_change->0.ns && (t.newest_change->0.ns == change_ns || t.newest_change
                == s.newest_change)
            &&& t.complete == s.complete && t.sentinels == s.sentinels
        }),
{
}

/// Counts that are the same agree in every figure.
pub proof fn law_same_counts_agree_in_every_figure(a: TreeStats, b: TreeStats)
    requires
        same_stats(a, b),
    ensures
        a.files == b.files && a.dirs == b.dirs && a.symlinks == b.symlinks && a.others == b.others,
        a.bytes == b.bytes && a.path_bytes == b.path_bytes,
        a.complete == b.complete && a.walk_ms == b.walk_ms,
        a.newest_mtime == b.newest_mtime && a.newest_change == b.newest_change,
        a.sentinels@ == b.sentinels@,
{
}

} // verus!
