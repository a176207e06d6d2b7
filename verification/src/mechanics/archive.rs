//! Manual archive: `btrfs send | zstd` into the archive directory, and the reverse.

use vstd::prelude::*;

use crate::btrfs::{hex_string, SubvolInfo, Uuid};
#[allow(unused_imports)]
use crate::btrfs::{hex, uuid_text};
use crate::error::BpmError;
use crate::mechanics::show_uuid;
#[allow(unused_imports)]
use crate::mechanics::uuid_or_none;
use crate::outside;
use crate::project::ProjectRef;
use crate::store::{Origin, SnapshotKind, SnapshotMeta};
use crate::util::paths::path_join;
#[allow(unused_imports)]
use crate::util::paths::joined_path;
use crate::util::text::{cat2, cat3, cat4, cat5, dec_u64, ends_with, str_eq};
#[allow(unused_imports)]
use crate::util::text::{dec, ends, texts};
use crate::util::time::Timestamp;
use crate::util::walk::{copy_stats, TreeStats};
#[allow(unused_imports)]
use crate::util::walk::same_stats_opt;

verus! {

/// What is written down beside an archive.
pub struct Manifest {
    pub format: u32,
    pub project: String,
    pub project_uuid: Uuid,
    pub uuid_history: Vec<Uuid>,
    pub owner_uid: u32,
    pub owner_gid: u32,
    pub original_path: String,
    pub snapshot_id: u64,
    pub snapshot_uuid: Uuid,
    pub snapshot_otransid: u64,
    pub snapshot_created: Timestamp,
    pub stats: Option<TreeStats>,
    /// Nested subvolumes (build dirs) that existed in the live project; `send` does not carry them.
    pub nested: Vec<String>,
    pub compressed_data: bool,
    pub zstd_level: u8,
    pub bytes: u64,
    pub sha256: String,
    pub created: Timestamp,
    pub bpm_version: String,
    pub btrfs_progs: String,
}

/// Where the manifest of an archive is.
pub fn manifest_path(archive: &str) -> (r: String)
    ensures
        r@ == archive@ + ".manifest.toml"@,
{
    cat2(archive, ".manifest.toml")
}

/// The digest of the content of an archive, in hexadecimal.
pub fn sha256_hex(content: &[u8]) -> (r: String)
    ensures
        r@ == hex(outside::sha256_of(content@)),
{
    let d = outside::sha256(content);
    hex_string(d.as_slice())
}

pub struct ArchiveReport {
    pub file: String,
    pub manifest: String,
    pub bytes: u64,
    pub sha256: String,
}

/// Where the archive of a snapshot goes.
pub open spec fn archive_place(
    dest_root: Seq<char>,
    name: Seq<char>,
    id: u64,
    created: Timestamp,
) -> Seq<char> {
    joined_path(
        joined_path(dest_root, name),
        dec(id as nat) + "-"@ + outside::instant_formatted(created.ns as int, "%Y%m%dT%H%M%SZ"@)
            + ".btrfs.zst"@,
    )
}

/// Where the archive of a snapshot goes.
pub fn archive_file(dest_root: &str, name: &str, meta: &SnapshotMeta) -> (r: String)
    ensures
        r@ == archive_place(dest_root@, name@, meta.id, meta.created),
{
    let file = cat4(
        dec_u64(meta.id).as_str(),
        "-",
        outside::strftime(meta.created, "%Y%m%dT%H%M%SZ").as_str(),
        ".btrfs.zst",
    );
    path_join(path_join(dest_root, name).as_str(), file.as_str())
}

/// Where an archive is as long as it is not complete.
pub fn part_file(file: &str) -> (r: String)
    ensures
        r@ == file@ + ".part"@,
{
    cat2(file, ".part")
}

/// Where the digest of an archive is written down.
pub fn digest_file(file: &str) -> (r: String)
    ensures
        r@ == file@ + ".sha256"@,
{
    cat2(file, ".sha256")
}

/// Whether an archive can be written: none is ever replaced.
pub fn archive_allowed(file: &str, exists_there: bool) -> (r: Result<(), BpmError>)
    ensures
        match r {
            Ok(_) => !exists_there,
            Err(e) => exists_there && e is Refused && e->Refused_0@ == file@ + " already exists"@,
        },
{
    if exists_there {
        return Err(BpmError::Refused(cat2(file, " already exists")));
    }
    Ok(())
}

/// The level at which an archive is compressed: a fast one at most at level 3.
pub open spec fn used_level(level: u8, fast: bool) -> u8 {
    if fast && level > 3 {
        3
    } else {
        level
    }
}

/// The level at which an archive is compressed.
pub fn archive_level(level: u8, fast: bool) -> (r: u8)
    ensures
        r == used_level(level, fast),
{
    if fast && level > 3 {
        3
    } else {
        level
    }
}

/// How `zstd` is called to write an archive.
pub open spec fn zstd_line(level: u8, fast: bool, part: Seq<char>) -> Seq<Seq<char>> {
    let l = used_level(level, fast);
    seq!["-q"@, "-T0"@, "-"@ + dec(l as nat)] + (if l > 19 {
        seq!["--ultra"@]
    } else {
        seq![]
    }) + (if !fast {
        seq!["--long=27"@]
    } else {
        seq![]
    }) + seq!["-o"@, part, "-"@]
}

/// How `zstd` is called to write an archive.
pub fn zstd_args(level: u8, fast: bool, part: &str) -> (r: Vec<String>)
    ensures
        texts(r@) == zstd_line(level, fast, part@),
{
    let l = archive_level(level, fast);
    let mut v: Vec<String> = Vec::new();
    v.push("-q".to_owned());
    v.push("-T0".to_owned());
    v.push(cat2("-", dec_u64(l as u64).as_str()));
    if l > 19 {
        v.push("--ultra".to_owned());
    }
    if !fast {
        v.push("--long=27".to_owned());
    }
    v.push("-o".to_owned());
    v.push(part.to_owned());
    v.push("-".to_owned());
    assert(texts(v@) =~= zstd_line(level, fast, part@));
    v
}

/// The steps of writing an archive, and its ends.
#[derive(Clone, Copy, Debug, PartialEq, Eq, Structural)]
pub enum ArchiveStep {
    /// Send the snapshot into the compressor.
    Send,
    /// Wait for the compressor.
    Compress,
    /// Read the result back.
    Test,
    Digest,
    /// Give the archive its final name.
    Publish,
    WriteManifest,
    WriteDigest,
    Done,
    /// Failed with the incomplete archive to remove.
    RemovePart,
    Fail,
}

pub open spec fn after_archive(s: ArchiveStep, ok: bool) -> ArchiveStep {
    match s {
        ArchiveStep::Send => if ok {
            ArchiveStep::Compress
        } else {
            ArchiveStep::RemovePart
        },
        ArchiveStep::Compress => if ok {
            ArchiveStep::Test
        } else {
            ArchiveStep::RemovePart
        },
        ArchiveStep::Test => if ok {
            ArchiveStep::Digest
        } else {
            ArchiveStep::RemovePart
        },
        ArchiveStep::Digest => if ok {
            ArchiveStep::Publish
        } else {
            ArchiveStep::Fail
        },
        ArchiveStep::Publish => if ok {
            ArchiveStep::WriteManifest
        } else {
            ArchiveStep::Fail
        },
        ArchiveStep::WriteManifest => if ok {
            ArchiveStep::WriteDigest
        } else {
            ArchiveStep::Fail
        },
        ArchiveStep::WriteDigest => if ok {
            ArchiveStep::Done
        } else {
            ArchiveStep::Fail
        },
        end => end,
    }
}

/// The step after one that went well or did not.
pub fn archive(s: ArchiveStep, ok: bool) -> (r: ArchiveStep)
    ensures
        r == after_archive(s, ok),
{
    match s {
        ArchiveStep::Send => if ok {
            ArchiveStep::Compress
        } else {
            ArchiveStep::RemovePart
        },
        ArchiveStep::Compress => if ok {
            ArchiveStep::Test
        } else {
            ArchiveStep::RemovePart
        },
        ArchiveStep::Test => if ok {
            ArchiveStep::Digest
        } else {
            ArchiveStep::RemovePart
        },
        ArchiveStep::Digest if ok => ArchiveStep::Publish,
        ArchiveStep::Publish if ok => ArchiveStep::WriteManifest,
        ArchiveStep::WriteManifest if ok => ArchiveStep::WriteDigest,
        ArchiveStep::WriteDigest if ok => ArchiveStep::Done,
        ArchiveStep::Done => ArchiveStep::Done,
        ArchiveStep::RemovePart => ArchiveStep::RemovePart,
        _ => ArchiveStep::Fail,
    }
}

/// Where writing an archive ends up when its steps go as `oks` says.
pub open spec fn archive_run(oks: Seq<bool>) -> ArchiveStep
    decreases oks.len(),
{
    if oks.len() == 0 {
        ArchiveStep::Send
    } else {
        after_archive(archive_run(oks.drop_last()), oks.last())
    }
}

/// An archive gets its final name only after it was sent, compressed and read back.
pub proof fn law_published_archives_are_tested(oks: Seq<bool>)
    ensures
        archive_run(oks) == ArchiveStep::Compress ==> oks.len() == 1 && oks[0],
        archive_run(oks) == ArchiveStep::Test ==> oks.len() == 2 && oks[0] && oks[1],
        archive_run(oks) == ArchiveStep::Digest ==> oks.len() == 3 && oks[0] && oks[1] && oks[2],
        archive_run(oks) == ArchiveStep::Publish ==> oks.len() == 4 && oks[0] && oks[1] && oks[2],
    decreases oks.len(),
{
    if oks.len() > 0 {
        let rest = oks.drop_last();
        law_published_archives_are_tested(rest);
        lemma_archive_start(rest);
        assert(forall|i: int| 0 <= i < rest.len() ==> rest[i] == oks[i]);
        assert(oks[oks.len() - 1] == oks.last());
    }
}

proof fn lemma_archive_start(oks: Seq<bool>)
    ensures
        archive_run(oks) == ArchiveStep::Send ==> oks.len() == 0,
    decreases oks.len(),
{
    if oks.len() > 0 {
        lemma_archive_start(oks.drop_last());
    }
}

/// What is known of an archive that was just written.
pub struct Written {
    pub nested: Vec<String>,
    pub bytes: u64,
    pub sha256: String,
    pub created: Timestamp,
    pub bpm_version: String,
    pub btrfs_progs: String,
}

fn copy_ids(v: &Vec<Uuid>) -> (r: Vec<Uuid>)
    ensures
        r@ == v@,
{
    let mut out: Vec<Uuid> = Vec::new();
    let mut i: usize = 0;
    while i < v.len()
        invariant
            i <= v@.len(),
            out@ == v@.take(i as int),
        decreases v@.len() - i,
    {
        out.push(v[i]);
        assert(out@ =~= v@.take(i + 1));
        i += 1;
    }
    assert(v@.take(i as int) =~= v@);
    out
}

/// The manifest of an archive.
pub fn manifest(pref: &ProjectRef, meta: &SnapshotMeta, level: u8, fast: bool, w: Written) -> (m:
    Manifest)
    ensures
        m.format == 1,
        m.project == pref.unit.name,
        m.project_uuid == pref.record.uuid,
        m.uuid_history@ == pref.record.uuid_history@,
        m.owner_uid == pref.record.owner_uid,
        m.owner_gid == pref.record.owner_gid,
        m.original_path == pref.record.path,
        m.snapshot_id == meta.id,
        m.snapshot_uuid == meta.snapshot_uuid,
        m.snapshot_otransid == meta.snapshot_otransid,
        m.snapshot_created == meta.created,
        same_stats_opt(m.stats, meta.stats),
        m.nested == w.nested,
        m.compressed_data == fast,
        m.zstd_level == used_level(level, fast),
        m.bytes == w.bytes,
        m.sha256 == w.sha256,
        m.created == w.created,
        m.bpm_version == w.bpm_version,
        m.btrfs_progs == w.btrfs_progs,
{
    Manifest {
        format: 1,
        project: pref.unit.name.clone(),
        project_uuid: pref.record.uuid,
        uuid_history: copy_ids(&pref.record.uuid_history),
        owner_uid: pref.record.owner_uid,
        owner_gid: pref.record.owner_gid,
        original_path: pref.record.path.clone(),
        snapshot_id: meta.id,
        snapshot_uuid: meta.snapshot_uuid,
        snapshot_otransid: meta.snapshot_otransid,
        snapshot_created: meta.created,
        stats: copy_stats(&meta.stats),
        nested: w.nested,
        compressed_data: fast,
        zstd_level: archive_level(level, fast),
        bytes: w.bytes,
        sha256: w.sha256,
        created: w.created,
        bpm_version: w.bpm_version,
        btrfs_progs: w.btrfs_progs,
    }
}

/// The line of a digest file.
pub fn sha_line(sha: &str, file_name: &str) -> (r: String)
    ensures
        r@ == sha@ + "  "@ + file_name@ + "\n"@,
{
    cat4(sha, "  ", file_name, "\n")
}

/// An instant that may be unknown: unknown ones come first.
pub open spec fn time_le(a: Option<i128>, b: Option<i128>) -> bool {
    match (a, b) {
        (None, _) => true,
        (Some(_), None) => false,
        (Some(x), Some(y)) => x <= y,
    }
}

fn is_time_le(a: Option<i128>, b: Option<i128>) -> (r: bool)
    ensures
        r == time_le(a, b),
{
    match (a, b) {
        (None, _) => true,
        (Some(_), None) => false,
        (Some(x), Some(y)) => x <= y,
    }
}

/// A file that is an archive by its name.
pub open spec fn archive_name(p: Seq<char>) -> bool {
    ends(p, ".btrfs.zst"@)
}

/// Position `i` holds the newest archive, the last one where several are equally new.
pub open spec fn is_newest_archive(f: Seq<(String, Option<i128>)>, i: int) -> bool {
    &&& 0 <= i < f.len()
    &&& archive_name(f[i].0@)
    &&& forall|j: int|
        0 <= j < f.len() && archive_name((#[trigger] f[j]).0@) ==> time_le(f[j].1, f[i].1)
    &&& forall|j: int|
        i < j < f.len() && archive_name((#[trigger] f[j]).0@) ==> !time_le(f[i].1, f[j].1)
}

/// The newest of the files in a directory that are archives, each with its modification time.
pub fn newest_archive(files: &Vec<(String, Option<i128>)>, dir: &str) -> (r: Result<
    usize,
    BpmError,
>)
    ensures
        match r {
            Ok(i) => is_newest_archive(files@, i as int),
            Err(e) => (forall|j: int|
                0 <= j < files@.len() ==> !archive_name((#[trigger] files@[j]).0@)) && e is NotFound
                && e->NotFound_0@ == "no archives in "@ + dir@,
        },
{
    let mut best: Option<usize> = None;
    let mut i: usize = 0;
    while i < files.len()
        invariant
            i <= files@.len(),
            match best {
                Some(b) => b < i && archive_name(files@[b as int].0@) && (forall|j: int|
                    0 <= j < i && archive_name((#[trigger] files@[j]).0@) ==> time_le(
                        files@[j].1,
                        files@[b as int].1,
                    )) && (forall|j: int|
                    b < j < i && archive_name((#[trigger] files@[j]).0@) ==> !time_le(
                        files@[b as int].1,
                        files@[j].1,
                    )),
                None => forall|j: int|
                    0 <= j < i ==> !archive_name((#[trigger] files@[j]).0@),
            },
        decreases files@.len() - i,
    {
        if ends_with(files[i].0.as_str(), ".btrfs.zst") {
            let better = match best {
                Some(b) => is_time_le(files[b].1, files[i].1),
                None => true,
            };
            if better {
                best = Some(i);
            }
        }
        i += 1;
    }
    match best {
        Some(b) => Ok(b),
        None => Err(BpmError::NotFound(cat2("no archives in ", dir))),
    }
}

/// Whether the content of an archive is what its manifest says.
pub fn check_digest(archive_path: &str, m: &Manifest, content: &[u8]) -> (r: Result<(), String>)
    ensures
        ({
            let sha = hex(outside::sha256_of(content@));
            match r {
                Ok(_) => sha == m.sha256@,
                Err(e) => sha != m.sha256@ && e@ == "sha256 mismatch for "@ + archive_path@
                    + ": manifest "@ + m.sha256@ + ", file "@ + sha,
            }
        }),
{
    let sha = sha256_hex(content);
    compare_digest(archive_path, m, sha.as_str())
}

/// Whether a digest is the one that a manifest gives.
pub fn compare_digest(archive_path: &str, m: &Manifest, sha: &str) -> (r: Result<(), String>)
    ensures
        match r {
            Ok(_) => sha@ == m.sha256@,
            Err(e) => sha@ != m.sha256@ && e@ == "sha256 mismatch for "@ + archive_path@
                + ": manifest "@ + m.sha256@ + ", file "@ + sha@,
        },
{
    if str_eq(sha, m.sha256.as_str()) {
        Ok(())
    } else {
        let mut e = cat5(
            "sha256 mismatch for ",
            archive_path,
            ": manifest ",
            m.sha256.as_str(),
            ", file ",
        );
        e.append(sha);
        Err(e)
    }
}

/// Whether a received subvolume is the snapshot that was archived.
pub fn check_received(info: &SubvolInfo, m: &Manifest) -> (r: Result<(), String>)
    ensures
        ({
            let same = info.received_uuid is Some && info.received_uuid->0@ == m.snapshot_uuid@;
            match r {
                Ok(_) => same,
                Err(e) => !same && e@ == "received subvolume has received_uuid "@ + uuid_or_none(
                    info.received_uuid,
                ) + ", expected "@ + uuid_text(m.snapshot_uuid@),
            }
        }),
{
    let same = match &info.received_uuid {
        Some(u) => u.same(&m.snapshot_uuid),
        None => false,
    };
    if same {
        Ok(())
    } else {
        Err(
            cat4(
                "received subvolume has received_uuid ",
                show_uuid(&info.received_uuid).as_str(),
                ", expected ",
                m.snapshot_uuid.to_string().as_str(),
            ),
        )
    }
}

/// The record of a snapshot received from an archive: it is held.
pub fn receive(
    name: &str,
    id: u64,
    archive_path: &str,
    m: &Manifest,
    info: &SubvolInfo,
    origin: Origin,
    now: Timestamp,
) -> (r: SnapshotMeta)
    ensures
        r.format == 1,
        r.id == id,
        r.project@ == name@,
        r.created == now,
        r.kind == SnapshotKind::Received,
        r.reason@ == "unarchived from "@ + archive_path@,
        r.pair is None,
        r.hold,
        r.hold_note@ == "received from archive"@,
        r.source_uuid == m.project_uuid,
        r.source_ctransid == info.ctransid,
        r.snapshot_uuid == info.uuid,
        r.snapshot_otransid == info.otransid,
        r.received_uuid == info.received_uuid,
        same_stats_opt(r.stats, m.stats),
        r.origin == origin,
        crate::store::meta::never_thinned(r),
{
    SnapshotMeta {
        format: 1,
        id,
        project: name.to_owned(),
        created: now,
        kind: SnapshotKind::Received,
        reason: cat2("unarchived from ", archive_path),
        pair: None,
        hold: true,
        hold_note: "received from archive".to_owned(),
        source_uuid: m.project_uuid,
        source_ctransid: info.ctransid,
        snapshot_uuid: info.uuid,
        snapshot_otransid: info.otransid,
        received_uuid: info.received_uuid,
        stats: copy_stats(&m.stats),
        origin,
    }
}

/// What is said of a compressor that failed.
pub fn zstd_failed(what: &str, stderr: &[u8]) -> (r: String)
    ensures
        r@ == what@ + " failed: "@ + crate::util::text::trimmed(outside::lossy(stderr@)),
{
    let text = outside::from_utf8_lossy(stderr);
    cat3(what, " failed: ", crate::util::text::trim(text.as_str()).as_str())
}

/// A fast archive is compressed at level 3 or below, any other at the level that was asked for.
pub proof fn law_fast_archives_are_compressed_lightly(level: u8, fast: bool)
    ensures
        !fast || level <= 3 ==> used_level(level, fast) == level,
        fast && level > 3 ==> used_level(level, fast) == 3,
        forall|part: Seq<char>|
            (#[trigger] zstd_line(level, fast, part)).len() == 6 + (if !fast && level > 19 {
                1int
            } else {
                0
            }) + (if fast {
                0int
            } else {
                1
            }),
        forall|part: Seq<char>|
            (#[trigger] zstd_line(level, fast, part))[2] == "-"@ + dec(
                used_level(level, fast) as nat,
            ) && zstd_line(level, fast, part).subrange(
                zstd_line(level, fast, part).len() - 3,
                zstd_line(level, fast, part).len() as int,
            ) == seq!["-o"@, part, "-"@],
{
    assert forall|part: Seq<char>|
        (#[trigger] zstd_line(level, fast, part)).subrange(
            zstd_line(level, fast, part).len() - 3,
            zstd_line(level, fast, part).len() as int,
        ) == seq!["-o"@, part, "-"@] by {
        let z = zstd_line(level, fast, part);
        assert(z.subrange(z.len() - 3, z.len() as int) =~= seq!["-o"@, part, "-"@]);
    }
}

/// How writing an archive ends: what was not read back well is removed, and what fails after that
/// leaves the data where it is.
pub proof fn law_archives_end_by_their_steps(oks: Seq<bool>)
    requires
        oks.len() == 7,
    ensures
        archive_run(oks) == ArchiveStep::RemovePart <==> !(oks[0] && oks[1] && oks[2]),
        archive_run(oks) == ArchiveStep::Fail <==> oks[0] && oks[1] && oks[2] && !(oks[3] && oks[4]
            && oks[5] && oks[6]),
        archive_run(oks) == ArchiveStep::Done <==> oks[0] && oks[1] && oks[2] && oks[3] && oks[4]
            && oks[5] && oks[6],
{
    reveal_with_fuel(archive_run, 8);
    assert(oks.drop_last() =~= oks.take(6));
    assert(oks.take(6).drop_last() =~= oks.take(5));
    assert(oks.take(5).drop_last() =~= oks.take(4));
    assert(oks.take(4).drop_last() =~= oks.take(3));
    assert(oks.take(3).drop_last() =~= oks.take(2));
    assert(oks.take(2).drop_last() =~= oks.take(1));
    assert(oks.take(1).drop_last() =~= oks.take(0));
    assert(oks.take(0).len() == 0);
}

/// The newest archive is one that no other archive is newer than; files with other endings do not
/// count, and a file whose time is known is newer than one whose time is not.
pub proof fn law_the_newest_archive_is_the_latest(
    f: Seq<(String, Option<i128>)>,
    i: int,
    j: int,
)
    requires
        is_newest_archive(f, i),
        0 <= j < f.len(),
        f[j].0@.len() >= 10 && f[j].0@.skip(f[j].0@.len() - 10) == ".btrfs.zst"@,
    ensures
        f[i].0@.len() >= 10 && f[i].0@.skip(f[i].0@.len() - 10) == ".btrfs.zst"@,
        f[j].1 matches Some(y) ==> f[i].1 matches Some(x) && y <= x,
        f[j].1 == f[i].1 ==> j <= i,
{
    reveal_strlit(".btrfs.zst");
    assert(archive_name(f[j].0@));
    assert(time_le(f[j].1, f[i].1));
}

} // verus!
