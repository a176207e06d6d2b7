//! What is written down of a store, a project and a snapshot.

use vstd::prelude::*;

use crate::btrfs::Uuid;
use crate::outside;
use crate::util::strmap::StrMap;
use crate::util::text::{cat2, str_eq};
use crate::util::time::Timestamp;
#[allow(unused_imports)]
use crate::util::time::MAX_NS;
use crate::util::walk::TreeStats;

verus! {

pub struct StoreInfo {
    pub format: u32,
    pub root: String,
    pub root_uuid: Uuid,
    pub created: Timestamp,
    pub bpm_version: String,
}

/// The identity of a project.
pub struct ProjectRecord {
    pub format: u32,
    pub name: String,
    pub path: String,
    pub uuid: Uuid,
    pub uuid_history: Vec<Uuid>,
    pub owner_uid: u32,
    pub owner_gid: u32,
    pub adopted: Timestamp,
}

impl ProjectRecord {
    /// The record of a project that was just adopted.
    pub fn new(name: &str, path: &str, uuid: Uuid, uid: u32, gid: u32, adopted: Timestamp) -> (r:
        ProjectRecord)
        ensures
            r.format == 1,
            r.name@ == name@,
            r.path@ == path@,
            r.uuid == uuid,
            r.uuid_history@ == Seq::<Uuid>::empty(),
            r.owner_uid == uid,
            r.owner_gid == gid,
            r.adopted == adopted,
    {
        ProjectRecord {
            format: 1,
            name: name.to_owned(),
            path: path.to_owned(),
            uuid,
            uuid_history: Vec::new(),
            owner_uid: uid,
            owner_gid: gid,
            adopted,
        }
    }

    /// Whether `u` is the current live subvolume or an earlier one.
    pub open spec fn knows(&self, u: Seq<u8>) -> bool {
        u == self.uuid@ || exists|i: int|
            0 <= i < self.uuid_history@.len() && #[trigger] self.uuid_history@[i]@ == u
    }

    /// Snapshots whose parent uuid is the current or any previous live subvolume belong to us.
    pub fn owns(&self, parent: Option<Uuid>) -> (r: bool)
        ensures
            r == match parent {
                Some(p) => self.knows(p@),
                None => false,
            },
    {
        match parent {
            None => false,
            Some(p) => {
                if p.same(&self.uuid) {
                    return true;
                }
                let mut i: usize = 0;
                while i < self.uuid_history.len()
                    invariant
                        i <= self.uuid_history@.len(),
                        parent == Some(p),
                        p@ != self.uuid@,
                        forall|k: int| 0 <= k < i ==> #[trigger] self.uuid_history@[k]@ != p@,
                    decreases self.uuid_history@.len() - i,
                {
                    if self.uuid_history[i].same(&p) {
                        return true;
                    }
                    i += 1;
                }
                false
            },
        }
    }

    /// Makes `uuid` the live subvolume and remembers the one before it.
    pub fn replace_live(&mut self, uuid: Uuid)
        ensures
            final(self).uuid == uuid,
            final(self).uuid_history@ == old(self).uuid_history@.push(old(self).uuid),
            *final(self) == (ProjectRecord {
                uuid,
                uuid_history: final(self).uuid_history,
                ..*old(self)
            }),
    {
        self.uuid_history.push(self.uuid);
        self.uuid = uuid;
    }
}

/// How a project is used.
#[derive(Clone, Copy, Debug, PartialEq, Eq, Structural)]
pub enum Stage {
    Active,
    Dormant,
    Cold,
    Orphaned,
    Archived,
}

/// The name of a stage.
pub open spec fn stage_name(s: Stage) -> Seq<char> {
    match s {
        Stage::Active => "active"@,
        Stage::Dormant => "dormant"@,
        Stage::Cold => "cold"@,
        Stage::Orphaned => "orphaned"@,
        Stage::Archived => "archived"@,
    }
}

impl Stage {
    /// The name of the stage.
    pub fn as_str(self) -> (r: &'static str)
        ensures
            r@ == stage_name(self),
    {
        match self {
            Stage::Active => "active",
            Stage::Dormant => "dormant",
            Stage::Cold => "cold",
            Stage::Orphaned => "orphaned",
            Stage::Archived => "archived",
        }
    }

    /// The stage with the name `s`.
    pub fn parse(s: &str) -> (r: Result<Stage, String>)
        ensures
            match r {
                Ok(k) => stage_name(k) == s@,
                Err(m) => (forall|k: Stage| stage_name(k) != s@) && m@ == "unknown stage "@
                    + outside::quoted(s@),
            },
    {
        if str_eq(s, "active") {
            Ok(Stage::Active)
        } else if str_eq(s, "dormant") {
            Ok(Stage::Dormant)
        } else if str_eq(s, "cold") {
            Ok(Stage::Cold)
        } else if str_eq(s, "orphaned") {
            Ok(Stage::Orphaned)
        } else if str_eq(s, "archived") {
            Ok(Stage::Archived)
        } else {
            Err(cat2("unknown stage ", outside::quote(s).as_str()))
        }
    }
}

/// Why and since when cleanup is stopped for a project.
pub struct Frozen {
    pub since: Timestamp,
    pub reasons: Vec<String>,
    pub trigger_snap: Option<u64>,
    pub ref_snap: Option<u64>,
}

/// The high-water mark that the shrink guard compares with.
#[derive(Clone, Copy, Debug, PartialEq, Eq, Structural)]
pub struct RefStats {
    pub files: u64,
    pub files_snap: u64,
    pub bytes: u64,
    pub bytes_snap: u64,
}

pub struct RecompressRecord {
    pub at: Timestamp,
    pub level: u8,
    pub ctransid: u64,
    pub bytes_before: u64,
    pub bytes_after: u64,
    pub skipped: Option<String>,
}

pub struct ErrorRecord {
    pub at: Timestamp,
    pub message: String,
}

pub struct ArchiveRecord {
    pub file: String,
    pub sha256: String,
    pub at: Timestamp,
    pub snapshot: u64,
}

/// What changes about a project from one run to the next.
pub struct ProjectState {
    pub stage: Stage,
    pub stage_since: Option<Timestamp>,
    pub last_change_at: Option<Timestamp>,
    /// The change counter at the last snapshot.
    pub snap_ctransid: u64,
    /// The change counter after the last change that the tool itself made.
    pub tool_ctransid: u64,
    /// The highest change counter seen so far.
    pub seen_ctransid: u64,
    pub last_snapshot_at: Option<Timestamp>,
    pub last_stats_at: Option<Timestamp>,
    pub ref_stats: Option<RefStats>,
    /// The newest snapshot that the shrink guard has looked at.
    pub guard_seen: u64,
    pub frozen: Option<Frozen>,
    pub recompress: Option<RecompressRecord>,
    /// The change counter at a collapse that could not delete everything.
    pub collapse_incomplete_ctransid: Option<u64>,
    pub missing_since: Option<Timestamp>,
    pub last_tick: Option<Timestamp>,
    pub last_error: Option<ErrorRecord>,
    pub pending_convert: StrMap<Timestamp>,
    /// Banned paths that have existed at some point (they come back after a cleaning build).
    pub banlist_seen: StrMap<()>,
    pub warned: StrMap<Timestamp>,
    pub archives: Vec<ArchiveRecord>,
}

impl ProjectState {
    /// The state of a project of which nothing is known.
    pub fn new() -> (r: ProjectState)
        ensures
            r.stage == Stage::Active,
            r.stage_since is None && r.last_change_at is None && r.last_snapshot_at is None,
            r.last_stats_at is None && r.ref_stats is None && r.frozen is None,
            r.recompress is None && r.collapse_incomplete_ctransid is None,
            r.missing_since is None && r.last_tick is None && r.last_error is None,
            r.snap_ctransid == 0 && r.tool_ctransid == 0 && r.seen_ctransid == 0,
            r.guard_seen == 0,
            r.pending_convert@ == Map::<Seq<char>, Timestamp>::empty(),
            r.banlist_seen@ == Map::<Seq<char>, ()>::empty(),
            r.warned@ == Map::<Seq<char>, Timestamp>::empty(),
            r.archives@ == Seq::<ArchiveRecord>::empty(),
    {
        ProjectState {
            stage: Stage::Active,
            stage_since: None,
            last_change_at: None,
            snap_ctransid: 0,
            tool_ctransid: 0,
            seen_ctransid: 0,
            last_snapshot_at: None,
            last_stats_at: None,
            ref_stats: None,
            guard_seen: 0,
            frozen: None,
            recompress: None,
            collapse_incomplete_ctransid: None,
            missing_since: None,
            last_tick: None,
            last_error: None,
            pending_convert: StrMap::new(),
            banlist_seen: StrMap::new(),
            warned: StrMap::new(),
            archives: Vec::new(),
        }
    }

    /// Moves the project to `stage`; says from where to where, unless it is there already.
    pub fn set_stage(&mut self, stage: Stage, now: Timestamp) -> (r: Option<(Stage, Stage)>)
        ensures
            old(self).stage == stage ==> r is None && *final(self) == *old(self),
            old(self).stage != stage ==> r == Some((old(self).stage, stage)) && *final(self) == (
            ProjectState { stage, stage_since: Some(now), ..*old(self) }),
    {
        if self.stage == stage {
            return None;
        }
        let from = self.stage;
        self.stage = stage;
        self.stage_since = Some(now);
        Some((from, stage))
    }
}

/// Why a snapshot was taken.
#[derive(Clone, Copy, Debug, PartialEq, Eq, Hash, Structural)]
pub enum SnapshotKind {
    Auto,
    Hook,
    Manual,
    Pre,
    Post,
    Collapse,
    Rollback,
    PreRestore,
    Adopt,
    Import,
    Received,
    Recovered,
}

/// What retention may do with a snapshot.
#[derive(Clone, Copy, Debug, PartialEq, Eq, Structural)]
pub enum KindClass {
    /// Thinned by retention windows and removed by collapse.
    Thinnable,
    /// Protected for a while, then treated as thinnable.
    Safety,
    /// Never deleted automatically.
    Keep,
}

/// What retention may do with snapshots of a kind.
pub open spec fn class_of(k: SnapshotKind) -> KindClass {
    match k {
        SnapshotKind::Auto => KindClass::Thinnable,
        SnapshotKind::Hook => KindClass::Thinnable,
        SnapshotKind::Collapse => KindClass::Thinnable,
        SnapshotKind::Adopt => KindClass::Thinnable,
        SnapshotKind::Pre => KindClass::Safety,
        SnapshotKind::Post => KindClass::Safety,
        SnapshotKind::Rollback => KindClass::Safety,
        SnapshotKind::PreRestore => KindClass::Safety,
        SnapshotKind::Manual => KindClass::Keep,
        SnapshotKind::Import => KindClass::Keep,
        SnapshotKind::Received => KindClass::Keep,
        SnapshotKind::Recovered => KindClass::Keep,
    }
}

/// The name of a kind.
pub open spec fn kind_name(k: SnapshotKind) -> Seq<char> {
    match k {
        SnapshotKind::Auto => "auto"@,
        SnapshotKind::Hook => "hook"@,
        SnapshotKind::Manual => "manual"@,
        SnapshotKind::Pre => "pre"@,
        SnapshotKind::Post => "post"@,
        SnapshotKind::Collapse => "collapse"@,
        SnapshotKind::Rollback => "rollback"@,
        SnapshotKind::PreRestore => "pre-restore"@,
        SnapshotKind::Adopt => "adopt"@,
        SnapshotKind::Import => "import"@,
        SnapshotKind::Received => "received"@,
        SnapshotKind::Recovered => "recovered"@,
    }
}

/// No two kinds have the same name.
pub proof fn law_kind_names_distinct(a: SnapshotKind, b: SnapshotKind)
    requires
        kind_name(a) == kind_name(b),
    ensures
        a == b,
{
    reveal_strlit("auto");
    reveal_strlit("hook");
    reveal_strlit("manual");
    reveal_strlit("pre");
    reveal_strlit("post");
    reveal_strlit("collapse");
    reveal_strlit("rollback");
    reveal_strlit("pre-restore");
    reveal_strlit("adopt");
    reveal_strlit("import");
    reveal_strlit("received");
    reveal_strlit("recovered");
    let x = kind_name(a);
    let y = kind_name(b);
    assert(x.len() == y.len());
    assert(x[0] == y[0] && x[1] == y[1] && x[2] == y[2] && x[3] == y[3]);
}

impl SnapshotKind {
    pub fn class(self) -> (r: KindClass)
        ensures
            r == class_of(self),
    {
        match self {
            SnapshotKind::Auto | SnapshotKind::Hook | SnapshotKind::Collapse | SnapshotKind::Adopt =>
                KindClass::Thinnable,
            SnapshotKind::Pre | SnapshotKind::Post | SnapshotKind::Rollback
            | SnapshotKind::PreRestore => KindClass::Safety,
            SnapshotKind::Manual | SnapshotKind::Import | SnapshotKind::Received
            | SnapshotKind::Recovered => KindClass::Keep,
        }
    }

    pub fn as_str(self) -> (r: &'static str)
        ensures
            r@ == kind_name(self),
    {
        match self {
            SnapshotKind::Auto => "auto",
            SnapshotKind::Hook => "hook",
            SnapshotKind::Manual => "manual",
            SnapshotKind::Pre => "pre",
            SnapshotKind::Post => "post",
            SnapshotKind::Collapse => "collapse",
            SnapshotKind::Rollback => "rollback",
            SnapshotKind::PreRestore => "pre-restore",
            SnapshotKind::Adopt => "adopt",
            SnapshotKind::Import => "import",
            SnapshotKind::Received => "received",
            SnapshotKind::Recovered => "recovered",
        }
    }

    /// The kind with the name `s`.
    pub fn parse(s: &str) -> (r: Result<SnapshotKind, String>)
        ensures
            match r {
                Ok(k) => kind_name(k) == s@,
                Err(m) => (forall|k: SnapshotKind| kind_name(k) != s@) && m@
                    == "unknown snapshot kind "@ + outside::quoted(s@),
            },
    {
        let all = [
            SnapshotKind::Auto,
            SnapshotKind::Hook,
            SnapshotKind::Manual,
            SnapshotKind::Pre,
            SnapshotKind::Post,
            SnapshotKind::Collapse,
            SnapshotKind::Rollback,
            SnapshotKind::PreRestore,
            SnapshotKind::Adopt,
            SnapshotKind::Import,
            SnapshotKind::Received,
            SnapshotKind::Recovered,
        ];
        let mut i: usize = 0;
        while i < 12
            invariant
                i <= 12,
                forall|k: int| 0 <= k < i ==> kind_name(#[trigger] all@[k]) != s@,
            decreases 12 - i,
        {
            if str_eq(all[i].as_str(), s) {
                return Ok(all[i]);
            }
            i += 1;
        }
        assert forall|k: SnapshotKind| kind_name(k) != s@ by {
            assert(all@.contains(k)) by {
                match k {
                    SnapshotKind::Auto => assert(all@[0] == k),
                    SnapshotKind::Hook => assert(all@[1] == k),
                    SnapshotKind::Manual => assert(all@[2] == k),
                    SnapshotKind::Pre => assert(all@[3] == k),
                    SnapshotKind::Post => assert(all@[4] == k),
                    SnapshotKind::Collapse => assert(all@[5] == k),
                    SnapshotKind::Rollback => assert(all@[6] == k),
                    SnapshotKind::PreRestore => assert(all@[7] == k),
                    SnapshotKind::Adopt => assert(all@[8] == k),
                    SnapshotKind::Import => assert(all@[9] == k),
                    SnapshotKind::Received => assert(all@[10] == k),
                    SnapshotKind::Recovered => assert(all@[11] == k),
                }
            }
        }
        Err(cat2("unknown snapshot kind ", outside::quote(s).as_str()))
    }
}

/// Who took a snapshot.
pub struct Origin {
    pub bpm: String,
    pub user: String,
    pub argv: String,
}

/// What is written down of a snapshot.
pub struct SnapshotMeta {
    pub format: u32,
    pub id: u64,
    pub project: String,
    pub created: Timestamp,
    pub kind: SnapshotKind,
    pub reason: String,
    pub pair: Option<u64>,
    pub hold: bool,
    pub hold_note: String,
    pub source_uuid: Uuid,
    pub source_ctransid: u64,
    pub snapshot_uuid: Uuid,
    pub snapshot_otransid: u64,
    pub received_uuid: Option<Uuid>,
    pub stats: Option<TreeStats>,
    pub origin: Origin,
}

/// A snapshot that no policy ever deletes.
pub open spec fn never_thinned(m: SnapshotMeta) -> bool {
    m.hold && class_of(m.kind) == KindClass::Keep
}

/// Whether a snapshot has the counts of a complete walk.
pub open spec fn counted(m: SnapshotMeta) -> bool {
    m.stats is Some && m.stats->0.complete
}

impl SnapshotMeta {
    /// The counts, where the walk was complete.
    pub fn complete_stats(&self) -> (r: Option<&TreeStats>)
        ensures
            match r {
                Some(s) => counted(*self) && *s == self.stats->0,
                None => !counted(*self),
            },
    {
        match &self.stats {
            Some(s) => if s.complete {
                Some(s)
            } else {
                None
            },
            None => None,
        }
    }

    /// A plain snapshot with counters that grow with its id.
    pub fn sample(id: u64, project: &str) -> (r: SnapshotMeta)
        requires
            (1_789_000_000 + id * 60) * 1_000_000_000 <= MAX_NS,
        ensures
            r.id == id,
            r.project@ == project@,
            r.created.ns == (1_789_000_000 + id * 60) * 1_000_000_000,
            r.kind == SnapshotKind::Auto,
            !r.hold,
            r.source_ctransid == 100 + id,
            r.snapshot_otransid == 200 + id,
            r.source_uuid@ == Seq::new(16, |i: int| 1u8),
            r.snapshot_uuid@ == Seq::new(16, |i: int| (id % 256) as u8),
            r.format == 1 && r.pair is None && r.received_uuid is None && r.stats is None,
            r.reason@.len() == 0 && r.hold_note@.len() == 0,
            r.origin.bpm@.len() == 0 && r.origin.user@.len() == 0 && r.origin.argv@.len() == 0,
    {
        let low: u8 = (id % 256) as u8;
        let ones = Uuid([1; 16]);
        let lows = Uuid([low; 16]);
        assert(ones@ =~= Seq::new(16, |i: int| 1u8));
        assert(lows@ =~= Seq::new(16, |i: int| (id % 256) as u8));
        SnapshotMeta {
            format: 1,
            id,
            project: project.to_owned(),
            created: Timestamp { ns: (1_789_000_000 + id as i128 * 60) * 1_000_000_000 },
            kind: SnapshotKind::Auto,
            reason: String::new(),
            pair: None,
            hold: false,
            hold_note: String::new(),
            source_uuid: ones,
            source_ctransid: 100 + id,
            snapshot_uuid: lows,
            snapshot_otransid: 200 + id,
            received_uuid: None,
            stats: None,
            origin: Origin { bpm: String::new(), user: String::new(), argv: String::new() },
        }
    }
}

/// What the tool takes by itself may be thinned, what it takes around a risky step outlives only
/// its time to live, and what the user made or brought in stays.
pub proof fn law_only_what_the_tool_took_by_itself_is_thinned(k: SnapshotKind)
    ensures
        class_of(k) is Thinnable <==> k is Auto || k is Hook || k is Collapse || k is Adopt,
        class_of(k) is Safety <==> k is Pre || k is Post || k is Rollback || k is PreRestore,
        class_of(k) is Keep <==> k is Manual || k is Import || k is Received || k is Recovered,
{
}

} // verus!
