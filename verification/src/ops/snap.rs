//! `snap`: manual snapshots, and the hook that runs before an agent's shell commands.

use vstd::prelude::*;

use crate::btrfs::{SubvolInfo, Uuid};
#[allow(unused_imports)]
use crate::btrfs::uuid_text;
use crate::cli::show_dur;
use crate::config::schema::{GlobalCfg, RootCfg};
#[allow(unused_imports)]
use crate::config::schema::{any_found, fault_message, first_fault, patterns_compile};
use crate::error::BpmError;
use crate::mechanics::snapshot::SnapOpts;
use crate::mechanics::Target;
use crate::outside;
use crate::policy::change::changed_since;
#[allow(unused_imports)]
use crate::policy::change::differs;
use crate::project::locate_path;
#[allow(unused_imports)]
use crate::project::holds;
use crate::store::{newest, ProjectRecord, SnapshotKind, SnapshotMeta, Unit, CONTAINER};
#[allow(unused_imports)]
use crate::store::meta::kind_name;
#[allow(unused_imports)]
use crate::store::newest_index;
use crate::util::paths::{is_absolute, normal_steps, path_join};
#[allow(unused_imports)]
use crate::util::paths::{
    absolute, joined_path, lemma_walked, lemma_walked_again, normal_path, walked,
};
#[allow(unused_imports)]
use crate::util::relpath::{
    lemma_joined_steps, lemma_steps_add, lemma_steps_are_steps, real_step, steps,
};
use crate::util::text::{
    cat2, cat3, cat4, cat5, char_is_space, chars_of, contains, dec_u64, join, str_eq, string_of,
    words,
};
#[allow(unused_imports)]
use crate::util::text::{
    dec, has_text, is_space, is_tidy, joined, lemma_joined_split, lemma_joined_starts,
    lemma_joined_words_tidy, lemma_split_break, lemma_tidy_joined, lemma_words_unbroken, occurs, pieces,
    split_on, texts, words_of,
};
use crate::util::time::{age, Duration, Timestamp};
#[allow(unused_imports)]
use crate::util::time::elapsed;

verus! {

pub struct SnapResult {
    pub project: String,
    pub id: Option<u64>,
    pub kind: String,
    pub skipped: Option<String>,
}

/// A kind that users can give to a snapshot.
pub open spec fn user_kind(k: SnapshotKind) -> bool {
    k == SnapshotKind::Manual || k == SnapshotKind::Pre || k == SnapshotKind::Post || k
        == SnapshotKind::Hook || k == SnapshotKind::Auto
}

/// The kind of a snapshot that a user asks for.
pub fn snap_kind(s: &str) -> (r: Result<SnapshotKind, BpmError>)
    ensures
        match r {
            Ok(k) => kind_name(k) == s@ && user_kind(k),
            Err(e) => e is Usage && ((exists|k: SnapshotKind|
                #[trigger] kind_name(k) == s@ && !user_kind(k) && e->Usage_0@ == "--kind "@
                    + kind_name(k) + " is reserved for bpm itself"@) || ((forall|k: SnapshotKind|
                kind_name(k) != s@) && e->Usage_0@ == "unknown snapshot kind "@ + outside::quoted(
                s@,
            ))),
        },
{
    match SnapshotKind::parse(s) {
        Err(m) => Err(BpmError::Usage(m)),
        Ok(k) => {
            if matches!(
                k,
                SnapshotKind::Manual | SnapshotKind::Pre | SnapshotKind::Post | SnapshotKind::Hook
                    | SnapshotKind::Auto
            ) {
                return Ok(k);
            }
            Err(BpmError::Usage(cat3("--kind ", k.as_str(), " is reserved for bpm itself")))
        },
    }
}

/// The line of a result.
pub open spec fn result_line(r: SnapResult) -> Seq<char> {
    match r.id {
        Some(id) => r.project@ + ": snapshot #"@ + dec(id as nat) + " ("@ + r.kind@ + ")"@,
        None => match r.skipped {
            Some(why) => r.project@ + ": skipped ("@ + why@ + ")"@,
            None => Seq::empty(),
        },
    }
}

/// The lines of all results.
pub open spec fn result_lines(r: Seq<SnapResult>) -> Seq<Seq<char>> {
    Seq::new(r.len(), |i: int| result_line(r[i]))
}

/// What is printed of the snapshots that were taken.
pub fn results_text(results: &Vec<SnapResult>) -> (r: String)
    ensures
        r@ == joined(result_lines(results@), "\n"@),
{
    let mut lines: Vec<String> = Vec::new();
    let ghost all = result_lines(results@);
    let mut i: usize = 0;
    assert(texts(lines@) =~= all.take(0));
    while i < results.len()
        invariant
            i <= results@.len(),
            all == result_lines(results@),
            texts(lines@) == all.take(i as int),
        decreases results@.len() - i,
    {
        let ghost before = texts(lines@);
        let x = &results[i];
        let line = match x.id {
            Some(id) => cat5(
                x.project.as_str(),
                ": snapshot #",
                dec_u64(id).as_str(),
                " (",
                cat2(x.kind.as_str(), ")").as_str(),
            ),
            None => match &x.skipped {
                Some(why) => cat4(x.project.as_str(), ": skipped (", why.as_str(), ")"),
                None => String::new(),
            },
        };
        assert(line@ =~= all[i as int]);
        lines.push(line);
        assert(texts(lines@) =~= before.push(all[i as int]));
        assert(all.take(i + 1) =~= before.push(all[i as int]));
        i += 1;
    }
    assert(all.take(i as int) =~= all);
    join(&lines, "\n")
}

/// Why a snapshot is taken, where the user does not say.
pub fn default_reason(reason: &str, kind: SnapshotKind, user: &str) -> (r: String)
    ensures
        r@ == if reason@.len() == 0 {
            kind_name(kind) + " by "@ + user@
        } else {
            reason@
        },
{
    if reason.is_empty() {
        cat3(kind.as_str(), " by ", user)
    } else {
        reason.to_owned()
    }
}

/// Whether a lock that is taken stops a snapshot: one by a hook goes ahead without it, since
/// snapshot ids are reserved atomically and the next tick reconciles the state.
pub fn goes_without_lock(kind: SnapshotKind, exit_code: i32) -> (r: bool)
    ensures
        r == (kind == SnapshotKind::Hook && exit_code == 4),
{
    kind == SnapshotKind::Hook && exit_code == 4
}

/// Whether the live subvolume is the managed one.
pub fn check_managed(path: &str, live: &SubvolInfo, record: &ProjectRecord) -> (r: Result<
    (),
    String,
>)
    ensures
        match r {
            Ok(_) => live.uuid@ == record.uuid@,
            Err(m) => live.uuid@ != record.uuid@ && m@ == path@
                + " is not the managed subvolume (uuid "@ + uuid_text(live.uuid@) + " != "@
                + uuid_text(record.uuid@) + ")"@,
        },
{
    if live.uuid.same(&record.uuid) {
        return Ok(());
    }
    let mut m = cat5(
        path,
        " is not the managed subvolume (uuid ",
        live.uuid.to_string().as_str(),
        " != ",
        record.uuid.to_string().as_str(),
    );
    m.append(")");
    Err(m)
}

/// What a user asks of a snapshot.
pub struct SnapRequest {
    pub reason: String,
    pub user: String,
    pub quick: bool,
    pub hold: bool,
    pub pair: Option<u64>,
    pub throttle: Option<Duration>,
    pub if_changed: bool,
}

/// The newest snapshot is younger than the throttle.
pub open spec fn is_throttled(
    throttle: Option<Duration>,
    snaps: Seq<SnapshotMeta>,
    now: Timestamp,
) -> bool {
    throttle is Some && newest_index(snaps) is Some && elapsed(
        now,
        snaps[newest_index(snaps)->0].created,
    ) < throttle->0.ns
}

/// Whether a snapshot is skipped because one was taken just before.
pub fn throttled(throttle: Option<Duration>, snaps: &Vec<SnapshotMeta>, now: Timestamp) -> (r: bool)
    ensures
        r == is_throttled(throttle, snaps@, now),
{
    match (throttle, newest(snaps)) {
        (Some(t), Some(n)) => age(now, n.created).ns < t.ns,
        _ => false,
    }
}

/// The newest snapshot, where there is one.
pub open spec fn newest_of<'a>(snaps: Seq<SnapshotMeta>) -> Option<&'a SnapshotMeta> {
    match newest_index(snaps) {
        Some(i) => Some(&snaps[i]),
        None => None,
    }
}

/// Whether a snapshot is skipped because nothing changed; `live` is what btrfs says after a
/// flush, where that was asked for.
pub fn unchanged(live: Option<&SubvolInfo>, snaps: &Vec<SnapshotMeta>) -> (r: bool)
    ensures
        r == (live is Some && !differs(*live->0, newest_of(snaps@))),
{
    match live {
        Some(l) => !changed_since(l, newest(snaps)),
        None => false,
    }
}

/// How the snapshot that a user asks for is taken.
pub fn snap_project(a: &SnapRequest, kind: SnapshotKind, stats: bool, budget: Duration) -> (r:
    SnapOpts)
    ensures
        r.kind == kind,
        r.reason@ == if a.reason@.len() == 0 {
            kind_name(kind) + " by "@ + a.user@
        } else {
            a.reason@
        },
        r.stats == (!a.quick && stats),
        r.stats_budget == budget,
        r.hold == a.hold,
        r.pair == a.pair,
{
    let mut o = SnapOpts::new(kind, default_reason(a.reason.as_str(), kind, a.user.as_str()));
    o.stats = !a.quick && stats;
    o.stats_budget = budget;
    o.hold = a.hold;
    o.pair = a.pair;
    o
}

/// How the snapshot of a root itself is taken: never counted.
pub fn snap_container(a: &SnapRequest, kind: SnapshotKind) -> (r: SnapOpts)
    ensures
        r.kind == kind,
        r.reason@ == if a.reason@.len() == 0 {
            kind_name(kind) + " by "@ + a.user@
        } else {
            a.reason@
        },
        !r.stats,
        r.stats_budget.ns == 120 * 1_000_000_000,
        r.hold == a.hold,
        r.pair is None,
{
    let mut o = SnapOpts::new(kind, default_reason(a.reason.as_str(), kind, a.user.as_str()));
    o.stats = false;
    o.hold = a.hold;
    o
}

/// What a root itself is snapshotted as.
pub fn container_target(unit: &Unit, root: &str, uuid: Uuid) -> (r: Target)
    ensures
        r.unit == *unit,
        r.name@ == CONTAINER@,
        r.live@ == root@,
        r.root@ == root@,
        r.expected_uuid == Some(uuid),
        r.owner is None,
        r.stats_exclude@.len() == 0,
        r.sentinels@.len() == 0,
{
    Target {
        unit: unit.copy(),
        name: CONTAINER.to_owned(),
        live: root.to_owned(),
        root: root.to_owned(),
        expected_uuid: Some(uuid),
        owner: None,
        stats_exclude: Vec::new(),
        sentinels: Vec::new(),
    }
}

/// What is known of the record of a root itself.
pub enum ContainerRecord {
    /// There is one, and it is of this subvolume.
    Known,
    /// There is none: write this one.
    Write(ProjectRecord),
    Fail(String),
}

/// The record of a root itself: made where there is none, and never of another subvolume.
pub fn container_record(
    root: &str,
    is_subvolume: bool,
    uuid: Uuid,
    record: Option<&ProjectRecord>,
    now: Timestamp,
) -> (r: ContainerRecord)
    ensures
        match r {
            ContainerRecord::Known => is_subvolume && record is Some && record->0.uuid@ == uuid@,
            ContainerRecord::Write(w) => is_subvolume && record is None && w.format == 1 && w.name@
                == CONTAINER@ && w.path@ == root@ && w.uuid == uuid && w.uuid_history@.len() == 0
                && w.owner_uid == 0 && w.owner_gid == 0 && w.adopted == now,
            ContainerRecord::Fail(m) => if !is_subvolume {
                m@ == root@ + " is not a subvolume root; container snapshots are not possible"@
            } else {
                record is Some && record->0.uuid@ != uuid@ && m@
                    == "container store belongs to subvolume "@ + uuid_text(record->0.uuid@)
                    + " but "@ + root@ + " is "@ + uuid_text(uuid@)
            },
        },
{
    if !is_subvolume {
        return ContainerRecord::Fail(
            cat2(root, " is not a subvolume root; container snapshots are not possible"),
        );
    }
    match record {
        Some(r) => {
            if r.uuid.same(&uuid) {
                return ContainerRecord::Known;
            }
            let mut m = cat5(
                "container store belongs to subvolume ",
                r.uuid.to_string().as_str(),
                " but ",
                root,
                " is ",
            );
            m.append(uuid.to_string().as_str());
            ContainerRecord::Fail(m)
        },
        None => ContainerRecord::Write(ProjectRecord::new(CONTAINER, root, uuid, 0, 0, now)),
    }
}

/// A path without steps that stay or lead up, by its text alone.
pub fn lexical_normalize(p: &str) -> (r: String)
    ensures
        r@ == normal_path(p@),
{
    let rest = join(&normal_steps(p), "/");
    if is_absolute(p) {
        cat2("/", rest.as_str())
    } else {
        rest
    }
}

/// A normalised path has no steps that stay or lead up, is absolute exactly where the path was,
/// and stays as it is when it is normalised again.
pub proof fn law_normal_paths_stay(p: Seq<char>)
    ensures
        steps(normal_path(p)) == walked(steps(p)),
        !steps(normal_path(p)).contains(".."@),
        !split_on(normal_path(p), '/').contains("."@),
        absolute(normal_path(p)) == absolute(p),
        normal_path(normal_path(p)) == normal_path(p),
{
    reveal_strlit("/");
    reveal_strlit(".");
    let w = walked(steps(p));
    lemma_steps_are_steps(p);
    lemma_walked(steps(p));
    lemma_joined_steps(w);
    let rest = joined(w, "/"@);
    let q = normal_path(p);
    assert("/"@ =~= seq!['/']);
    let none = Seq::<char>::empty();
    assert(split_on(none, '/') =~= seq![none]);
    if w.len() > 0 {
        lemma_joined_split(w, '/');
    } else {
        assert(rest =~= none);
    }
    assert forall|i: int| 0 <= i < split_on(rest, '/').len() implies #[trigger] split_on(
        rest,
        '/',
    )[i] != "."@ by {
        if w.len() > 0 {
            assert(real_step(w[i]));
        }
    }
    if absolute(p) {
        assert(q =~= none + "/"@ + rest);
        lemma_steps_add(none, rest);
        lemma_joined_steps(Seq::empty());
        assert(joined(Seq::empty(), "/"@) =~= none);
        assert(steps(q) =~= w);
        lemma_split_break(none, '/', rest);
        assert(none.push('/') + rest =~= q);
        assert(split_on(q, '/') =~= seq![none] + split_on(rest, '/'));
    } else if w.len() > 0 {
        lemma_joined_starts(w, "/"@);
        assert(real_step(w[0]));
        if rest[0] == '/' {
            assert(w[0][0] == '/');
            assert(w[0].contains('/'));
        }
    }
    if split_on(q, '/').contains("."@) {
        let i = choose|i: int| 0 <= i < split_on(q, '/').len() && split_on(q, '/')[i] == "."@;
        if absolute(p) && i > 0 {
            assert(split_on(q, '/')[i] == split_on(rest, '/')[i - 1]);
        }
    }
    lemma_walked_again(w);
}

/// The first root that holds a path.
pub open spec fn first_holding(roots: Seq<RootCfg>, p: Seq<char>, i: int) -> bool {
    0 <= i < roots.len() && holds(roots[i].path@, p) && forall|j: int|
        0 <= j < i ==> !holds((#[trigger] roots[j]).path@, p)
}

/// The project that a path lies in: the position of its root, and its name.
pub open spec fn located(roots: Seq<RootCfg>, p: Seq<char>) -> Option<(int, Seq<char>)> {
    if exists|i: int| first_holding(roots, p, i) {
        let i = choose|i: int| first_holding(roots, p, i);
        Some((i, steps(p)[steps(roots[i].path@).len() as int]))
    } else {
        None
    }
}

fn locate(roots: &Vec<RootCfg>, p: &str) -> (r: Option<(usize, String)>)
    ensures
        match r {
            Some((i, n)) => i < roots@.len() && located(roots@, p@) == Some((i as int, n@)),
            None => located(roots@, p@) is None,
        },
{
    let r = locate_path(roots, p);
    proof {
        match r {
            Some((i, _)) => {
                assert(first_holding(roots@, p@, i as int));
                let k = choose|k: int| first_holding(roots@, p@, k);
                assert(first_holding(roots@, p@, k));
                if k < i {
                    assert(!holds(roots@[k].path@, p@));
                } else if i < k {
                    assert(!holds(roots@[i as int].path@, p@));
                }
            },
            None => {
                assert forall|k: int| !first_holding(roots@, p@, k) by {
                    if 0 <= k < roots@.len() {
                        assert(!holds(roots@[k].path@, p@));
                    }
                }
            },
        }
    }
    r
}

/// A character at which a command is taken apart.
pub open spec fn is_break(c: char) -> bool {
    is_space(c) || c == '\'' || c == '"' || c == ';' || c == '&' || c == '|' || c == '(' || c
        == ')' || c == '=' || c == '<' || c == '>'
}

fn char_is_break(c: char) -> (r: bool)
    ensures
        r == is_break(c),
{
    char_is_space(c) || c == '\'' || c == '"' || c == ';' || c == '&' || c == '|' || c == '(' || c
        == ')' || c == '=' || c == '<' || c == '>'
}

/// The parts of a command.
pub open spec fn parts_of(command: Seq<char>) -> Seq<Seq<char>> {
    pieces(command, |c: char| is_break(c))
}

fn parts(command: &str) -> (r: Vec<String>)
    ensures
        texts(r@) == parts_of(command@),
{
    let v = chars_of(command);
    let ghost at = |c: char| is_break(c);
    let mut out: Vec<String> = Vec::new();
    let mut cur = String::new();
    let mut i: usize = 0;
    assert(v@.take(0) =~= Seq::<char>::empty());
    assert(texts(out@).push(cur@) =~= pieces(v@.take(0), at));
    while i < v.len()
        invariant
            i <= v@.len(),
            at == (|c: char| is_break(c)),
            texts(out@).push(cur@) == pieces(v@.take(i as int), at),
        decreases v@.len() - i,
    {
        let ghost before = texts(out@).push(cur@);
        assert(v@.take(i + 1).drop_last() =~= v@.take(i as int));
        assert(before.drop_last() =~= texts(out@));
        if char_is_break(v[i]) {
            out.push(cur);
            cur = String::new();
            assert(texts(out@) =~= before);
        } else {
            cur.push(v[i]);
        }
        i += 1;
    }
    assert(v@.take(v@.len() as int) =~= command@);
    let ghost o = texts(out@).push(cur@);
    out.push(cur);
    assert(texts(out@) =~= o);
    out
}

/// The projects found so far with the one that a path lies in: each once, and at most eight.
pub open spec fn with_project(
    found: Seq<(int, Seq<char>)>,
    roots: Seq<RootCfg>,
    p: Seq<char>,
) -> Seq<(int, Seq<char>)> {
    match located(roots, p) {
        Some(x) => if !found.contains(x) && found.len() < 8 {
            found.push(x)
        } else {
            found
        },
        None => found,
    }
}

/// The place that a part of a command names: only those with a slash do.
pub open spec fn part_path(cwd: Seq<char>, raw: Seq<char>) -> Option<Seq<char>> {
    if !has_text(raw, "/"@) {
        None
    } else {
        Some(
            normal_path(
                if absolute(raw) {
                    raw
                } else {
                    joined_path(cwd, raw)
                },
            ),
        )
    }
}

/// The places that a command may touch: where it runs, and those that its parts name.
pub open spec fn places(cwd: Seq<char>, raw: Seq<Seq<char>>) -> Seq<Seq<char>>
    decreases raw.len(),
{
    if raw.len() == 0 {
        seq![cwd]
    } else {
        let before = places(cwd, raw.drop_last());
        match part_path(cwd, raw.last()) {
            Some(p) => before.push(p),
            None => before,
        }
    }
}

/// The places that a shell command may touch: the working directory plus paths mentioned in it.
pub fn paths_in_command(cwd: &str, command: &str) -> (r: Vec<String>)
    ensures
        texts(r@) == places(cwd@, parts_of(command@)),
{
    let mut out: Vec<String> = vec![cwd.to_owned()];
    assert(texts(out@) =~= seq![cwd@]);
    let raw = parts(command);
    let ghost all = parts_of(command@);
    let mut i: usize = 0;
    assert(all.take(0) =~= Seq::<Seq<char>>::empty());
    while i < raw.len()
        invariant
            i <= raw@.len(),
            all == texts(raw@),
            texts(out@) == places(cwd@, all.take(i as int)),
        decreases raw@.len() - i,
    {
        assert(all.take(i + 1).drop_last() =~= all.take(i as int));
        assert(all.take(i + 1).last() == raw@[i as int]@);
        let part = raw[i].as_str();
        if contains(part, "/") {
            let p = if is_absolute(part) {
                part.to_owned()
            } else {
                path_join(cwd, part)
            };
            let ghost before = texts(out@);
            let n = lexical_normalize(p.as_str());
            let ghost place = n@;
            out.push(n);
            assert(texts(out@) =~= before.push(place));
        }
        i += 1;
    }
    assert(all.take(i as int) =~= all);
    out
}

/// The projects that hold places; a place that could not be resolved is in none.
pub open spec fn touched(roots: Seq<RootCfg>, at: Seq<Option<String>>) -> Seq<(int, Seq<char>)>
    decreases at.len(),
{
    if at.len() == 0 {
        Seq::empty()
    } else {
        let before = touched(roots, at.drop_last());
        match at.last() {
            Some(p) => with_project(before, roots, p@),
            None => before,
        }
    }
}

/// Projects with the position of their root.
pub open spec fn project_list(v: Seq<(usize, String)>) -> Seq<(int, Seq<char>)> {
    Seq::new(v.len(), |i: int| (v[i].0 as int, v[i].1@))
}

fn add_project(found: &mut Vec<(usize, String)>, roots: &Vec<RootCfg>, p: &str)
    requires
        forall|k: int| 0 <= k < old(found)@.len() ==> (#[trigger] old(found)@[k]).0 < roots@.len(),
    ensures
        project_list(final(found)@) == with_project(project_list(old(found)@), roots@, p@),
        forall|k: int|
            0 <= k < final(found)@.len() ==> (#[trigger] final(found)@[k]).0 < roots@.len(),
{
    if let Some((root, name)) = locate(roots, p) {
        let ghost x = (root as int, name@);
        let ghost l = project_list(found@);
        let mut there = false;
        let mut i: usize = 0;
        while i < found.len()
            invariant
                i <= found@.len(),
                l == project_list(found@),
                x == (root as int, name@),
                there == exists|k: int| 0 <= k < i && #[trigger] l[k] == x,
            decreases found@.len() - i,
        {
            let ghost before = there;
            let same = found[i].0 == root && str_eq(found[i].1.as_str(), name.as_str());
            assert(same == (l[i as int] == x));
            if same {
                there = true;
            }
            proof {
                if before {
                    let k = choose|k: int| 0 <= k < i && #[trigger] l[k] == x;
                    assert(0 <= k < i + 1 && l[k] == x);
                }
                if same {
                    assert(l[i as int] == x);
                }
            }
            i += 1;
        }
        assert(l.contains(x) == there) by {
            if l.contains(x) {
                let k = l.index_of(x);
                assert(l[k] == x);
            }
        }
        if !there && found.len() < 8 {
            found.push((root, name));
            assert(project_list(found@) =~= l.push(x));
        }
    }
}

/// Projects touched by a shell command. `at` has the places that it may touch without symbolic
/// links, in the order of [`paths_in_command`]. Each project comes with the position of its root.
pub fn projects_in_command(roots: &Vec<RootCfg>, at: &Vec<Option<String>>) -> (r: Vec<
    (usize, String),
>)
    ensures
        project_list(r@) == touched(roots@, at@),
        forall|k: int| 0 <= k < r@.len() ==> (#[trigger] r@[k]).0 < roots@.len(),
{
    let mut found: Vec<(usize, String)> = Vec::new();
    let mut i: usize = 0;
    assert(project_list(found@) =~= Seq::<(int, Seq<char>)>::empty());
    assert(at@.take(0) =~= Seq::<Option<String>>::empty());
    while i < at.len()
        invariant
            i <= at@.len(),
            forall|k: int| 0 <= k < found@.len() ==> (#[trigger] found@[k]).0 < roots@.len(),
            project_list(found@) == touched(roots@, at@.take(i as int)),
        decreases at@.len() - i,
    {
        assert(at@.take(i + 1).drop_last() =~= at@.take(i as int));
        if let Some(p) = &at[i] {
            add_project(&mut found, roots, p.as_str());
        }
        i += 1;
    }
    assert(at@.take(i as int) =~= at@);
    found
}

/// A text on one line, cut off after `n` characters.
pub open spec fn shortened(s: Seq<char>, n: nat) -> Seq<char> {
    let line = joined(words_of(s), " "@);
    if line.len() <= n {
        line
    } else {
        line.take(n as int) + "…"@
    }
}

/// A text on one line, cut off after `n` characters.
pub fn truncate(s: &str, n: usize) -> (r: String)
    ensures
        r@ == shortened(s@, n as nat),
{
    let line = join(&words(s), " ");
    let v = chars_of(line.as_str());
    if v.len() <= n {
        return line;
    }
    let head = string_of(&v, 0, n);
    assert(head@ =~= line@.take(n as int));
    cat2(head.as_str(), "…")
}

/// A text that was cut fits on one line, is at most one character longer than asked for, and stays
/// as it is when it is cut again.
pub proof fn law_cut_texts_stay(s: Seq<char>, n: nat)
    ensures
        shortened(s, n).len() <= n + 1,
        forall|i: int|
            0 <= i < shortened(s, n).len() && is_space(#[trigger] shortened(s, n)[i])
                ==> shortened(s, n)[i] == ' ',
        shortened(shortened(s, n), n) == shortened(s, n),
{
    let ws = words_of(s);
    let line = joined(ws, " "@);
    assert forall|i: int| 0 <= i < ws.len() implies (#[trigger] ws[i]).len() > 0
        && crate::util::text::unbroken(ws[i], |x: char| is_space(x)) by {
        lemma_words_unbroken(s, i);
    }
    lemma_joined_words_tidy(ws);
    let r = shortened(s, n);
    if line.len() <= n {
        lemma_tidy_joined(line);
    } else {
        reveal_strlit("…");
        assert(r =~= line.take(n as int).push('…'));
        assert(!is_space('…'));
        assert forall|i: int| 0 <= i < r.len() && is_space(#[trigger] r[i]) implies r[i] == ' ' && i
            > 0 && !is_space(r[i - 1]) by {
            assert(r[i] == line[i]);
            if i > 0 {
                assert(r[i - 1] == line[i - 1]);
            }
        }
        lemma_tidy_joined(r);
        assert(r.take(n as int) =~= line.take(n as int));
    }
}

/// What the hook is asked: where the command runs, and the command.
pub fn hook_request(input: &str, current_dir: &str) -> (r: (String, String))
    ensures
        r.0@ == match outside::json_text_at(input@, "/cwd"@) {
            Some(c) => c,
            None => current_dir@,
        },
        r.1@ == match outside::json_text_at(input@, "/tool_input/command"@) {
            Some(c) => c,
            None => Seq::empty(),
        },
{
    let cwd = match outside::json_text(input, "/cwd") {
        Some(c) => c,
        None => current_dir.to_owned(),
    };
    let command = match outside::json_text(input, "/tool_input/command") {
        Some(c) => c,
        None => String::new(),
    };
    assert(command@ =~= match outside::json_text_at(input@, "/tool_input/command"@) {
        Some(c) => c,
        None => Seq::empty(),
    });
    (cwd, command)
}

/// Why the hook takes a snapshot before a command of the tool `agent`.
pub fn hook_reason(agent: &str, destructive: bool, command: &str) -> (r: String)
    ensures
        r@ == agent@ + (if destructive {
            " (destructive)"@
        } else {
            ""@
        }) + ": "@ + shortened(command@, 200),
{
    let mark = if destructive {
        " (destructive)"
    } else {
        ""
    };
    cat4(agent, mark, ": ", truncate(command, 200).as_str())
}

/// What the hook does about a command of the tool `agent`: whether it is destructive, and the reason of its
/// snapshots.
pub fn claude_hook(agent: &str, g: &GlobalCfg, command: &str) -> (r: Result<
    (bool, String),
    String,
>)
    ensures
        match r {
            Ok((d, reason)) => patterns_compile(texts(g.destructive_patterns@)) && d == any_found(
                texts(g.destructive_patterns@),
                command@,
            ) && reason@ == agent@ + (if d {
                " (destructive)"@
            } else {
                ""@
            }) + ": "@ + shortened(command@, 200),
            Err(m) => exists|i: int|
                first_fault(texts(g.destructive_patterns@), i) && m@ == fault_message(
                    texts(g.destructive_patterns@)[i],
                ),
        },
{
    match g.is_destructive(command) {
        Ok(d) => Ok((d, hook_reason(agent, d, command))),
        Err(m) => Err(m),
    }
}

/// The hook is to snapshot a project.
pub open spec fn wanted_by_hook(
    record: ProjectRecord,
    live: Option<Uuid>,
    destructive: bool,
    snaps: Seq<SnapshotMeta>,
    throttle: Duration,
    now: Timestamp,
) -> bool {
    live is Some && live->0@ == record.uuid@ && (destructive || !is_throttled(
        Some(throttle),
        snaps,
        now,
    ))
}

/// Whether the hook snapshots a project: the managed subvolume has to be in place, and before a
/// command that is not destructive the newest snapshot has to be old enough.
pub fn hook_wanted(
    record: &ProjectRecord,
    live: Option<Uuid>,
    destructive: bool,
    snaps: &Vec<SnapshotMeta>,
    throttle: Duration,
    now: Timestamp,
) -> (r: bool)
    ensures
        r == (live is Some && live->0@ == record.uuid@ && (destructive || !is_throttled(
            Some(throttle),
            snaps@,
            now,
        ))),
        r == wanted_by_hook(*record, live, destructive, snaps@, throttle, now),
{
    let in_place = match live {
        Some(u) => u.same(&record.uuid),
        None => false,
    };
    in_place && (destructive || !throttled(Some(throttle), snaps, now))
}

/// How the hook calls the program to take a snapshot.
pub open spec fn hook_line(
    name: Seq<char>,
    root: Seq<char>,
    reason: Seq<char>,
    destructive: bool,
    throttle: Duration,
) -> Seq<Seq<char>> {
    seq![
        "snap"@,
        name,
        "--root"@,
        root,
        "--kind"@,
        "hook"@,
        "--reason"@,
        reason,
        "--quick"@,
        "--if-changed"@,
        "--never-fail"@,
        "--quiet"@,
        "--lock-timeout"@,
        "3s"@,
    ] + (if destructive {
        seq![]
    } else {
        seq!["--throttle"@, outside::duration_written(throttle.ns as nat)]
    })
}

/// How the hook calls the program to take a snapshot.
pub fn hook_args(name: &str, root: &str, reason: &str, destructive: bool, throttle: Duration) -> (r:
    Vec<String>)
    requires
        throttle.ns / 1_000_000_000 <= u64::MAX,
    ensures
        texts(r@) == hook_line(name@, root@, reason@, destructive, throttle),
{
    let mut v = vec![
        "snap".to_owned(),
        name.to_owned(),
        "--root".to_owned(),
        root.to_owned(),
        "--kind".to_owned(),
        "hook".to_owned(),
        "--reason".to_owned(),
        reason.to_owned(),
        "--quick".to_owned(),
        "--if-changed".to_owned(),
        "--never-fail".to_owned(),
        "--quiet".to_owned(),
        "--lock-timeout".to_owned(),
        "3s".to_owned(),
    ];
    if !destructive {
        v.push("--throttle".to_owned());
        v.push(show_dur(throttle));
    }
    assert(texts(v@) =~= hook_line(name@, root@, reason@, destructive, throttle));
    v
}

/// Users may give a snapshot the kinds of what they or their hooks take; all that stand for
/// something the tool did are reserved.
pub proof fn law_kinds_of_the_tool_are_reserved(k: SnapshotKind)
    ensures
        !user_kind(k) <==> k is Collapse || k is Adopt || k is Rollback || k is PreRestore
            || k is Import || k is Received || k is Recovered,
{
}

/// A snapshot is throttled as long as the newest one is younger than the throttle.
pub proof fn law_throttles_run_from_the_newest(
    throttle: Option<Duration>,
    snaps: Seq<SnapshotMeta>,
    now: Timestamp,
    n: int,
)
    requires
        newest_index(snaps) == Some(n),
        snaps[n].created.ns <= now.ns,
    ensures
        is_throttled(throttle, snaps, now) <==> (throttle matches Some(t) && now.ns
            < snaps[n].created.ns + t.ns),
        !is_throttled(throttle, Seq::empty(), now),
{
}

/// A path lies in the project that is its first step below the first root that holds it; where a
/// root holds it, it lies in one.
pub proof fn law_paths_lie_in_the_first_root_that_holds_them(
    roots: Seq<RootCfg>,
    p: Seq<char>,
    i: int,
)
    requires
        0 <= i < roots.len(),
        holds(roots[i].path@, p),
    ensures
        located(roots, p) matches Some(x) && 0 <= x.0 <= i && holds(roots[x.0].path@, p) && x.1
            == steps(p)[steps(roots[x.0].path@).len() as int],
        (forall|j: int| 0 <= j < i ==> !holds((#[trigger] roots[j]).path@, p)) ==> located(roots, p)
            == Some((i, steps(p)[steps(roots[i].path@).len() as int])),
{
    lemma_some_root(roots, p, i);
    let k = choose|k: int| first_holding(roots, p, k);
    if i < k {
        assert(!holds(roots[i].path@, p));
    }
    if (forall|j: int| 0 <= j < i ==> !holds((#[trigger] roots[j]).path@, p)) && k < i {
        assert(!holds(roots[k].path@, p));
    }
}

proof fn lemma_some_root(roots: Seq<RootCfg>, p: Seq<char>, i: int)
    requires
        0 <= i < roots.len(),
        holds(roots[i].path@, p),
    ensures
        exists|k: int| first_holding(roots, p, k),
    decreases i,
{
    if forall|j: int| 0 <= j < i ==> !holds((#[trigger] roots[j]).path@, p) {
        assert(first_holding(roots, p, i));
    } else {
        let j = choose|j: int| 0 <= j < i && holds((#[trigger] roots[j]).path@, p);
        lemma_some_root(roots, p, j);
    }
}

/// A command is taken apart at white space and at what the shell sets words apart by, and never
/// inside a word of letters, digits, slashes, dots, dashes, tildes and underscores.
pub proof fn law_commands_are_taken_apart_between_words(c: char)
    ensures
        c == ' ' || c == '\n' || c == '\t' || c == '"' || c == '\'' || c == ';' || c == '&' || c
            == '|' || c == '(' || c == ')' || c == '<' || c == '>' || c == '=' ==> is_break(c),
        ('a' <= c <= 'z') || ('A' <= c <= 'Z') || ('0' <= c <= '9') || c == '/' || c == '.' || c
            == '-' || c == '_' || c == '~' || c == '+' || c == ',' || c == ':' ==> !is_break(c),
{
}

/// A command touches the place where it runs and each place that a part with a slash in it names,
/// from the root or from where it runs.
pub proof fn law_commands_touch_what_they_name(
    cwd: Seq<char>,
    raw: Seq<Seq<char>>,
    x: Seq<char>,
)
    ensures
        places(cwd, Seq::empty()) == seq![cwd],
        !x.contains('/') ==> places(cwd, raw.push(x)) == places(cwd, raw),
        x.contains('/') && x[0] == '/' ==> places(cwd, raw.push(x)) == places(cwd, raw).push(
            normal_path(x),
        ),
        x.contains('/') && x[0] != '/' ==> places(cwd, raw.push(x)) == places(cwd, raw).push(
            normal_path(joined_path(cwd, x)),
        ),
{
    reveal_strlit("/");
    assert(raw.push(x).drop_last() =~= raw);
    if x.contains('/') {
        let i = choose|i: int| 0 <= i < x.len() && x[i] == '/';
        assert(x.subrange(i, i + 1) =~= "/"@);
        assert(occurs(x, "/"@, i));
    }
    if has_text(x, "/"@) {
        let i = choose|i: int| occurs(x, "/"@, i);
        assert(x.subrange(i, i + 1)[0] == '/');
        assert(x[i] == '/');
    }
}

/// One of the places lies in the project.
pub open spec fn is_place_of(
    roots: Seq<RootCfg>,
    at: Seq<Option<String>>,
    x: (int, Seq<char>),
) -> bool {
    exists|j: int|
        0 <= j < at.len() && (#[trigger] at[j]) is Some && located(roots, at[j]->0@) == Some(x)
}

/// The projects that a command touches are those that its places lie in: each is listed once, and
/// up to eight of them none is missing.
pub proof fn law_touched_projects_are_listed_once(roots: Seq<RootCfg>, at: Seq<Option<String>>)
    ensures
        touched(roots, at).len() <= 8,
        touched(roots, at).no_duplicates(),
        forall|k: int|
            0 <= k < touched(roots, at).len() ==> is_place_of(
                roots,
                at,
                #[trigger] touched(roots, at)[k],
            ),
        touched(roots, at).len() < 8 ==> forall|j: int|
            0 <= j < at.len() && (#[trigger] at[j]) is Some && located(roots, at[j]->0@) is Some
                ==> touched(roots, at).contains(located(roots, at[j]->0@)->0),
    decreases at.len(),
{
    if at.len() > 0 {
        let t = at.drop_last();
        law_touched_projects_are_listed_once(roots, t);
        let q = touched(roots, t);
        let r = touched(roots, at);
        assert(forall|j: int| 0 <= j < t.len() ==> t[j] == at[j]);
        assert forall|k: int| 0 <= k < r.len() implies is_place_of(roots, at, #[trigger] r[k]) by {
            if k < q.len() {
                assert(r[k] == q[k]);
                assert(is_place_of(roots, t, q[k]));
                let j = choose|j: int|
                    0 <= j < t.len() && (#[trigger] t[j]) is Some && located(roots, t[j]->0@) == Some(
                        q[k],
                    );
                assert(at[j] is Some);
            } else {
                assert(at[at.len() - 1] is Some);
            }
        }
        if r.len() < 8 {
            assert forall|j: int|
                0 <= j < at.len() && (#[trigger] at[j]) is Some && located(roots, at[j]->0@)
                    is Some implies r.contains(located(roots, at[j]->0@)->0) by {
                let x = located(roots, at[j]->0@)->0;
                if j < t.len() {
                    assert(t[j] is Some);
                    assert(q.contains(x));
                    let k = choose|k: int| 0 <= k < q.len() && q[k] == x;
                    assert(r[k] == x);
                } else if q.contains(x) {
                    let k = choose|k: int| 0 <= k < q.len() && q[k] == x;
                    assert(r[k] == x);
                } else {
                    assert(r[q.len() as int] == x);
                }
            }
        }
    }
}

/// A text that is cut keeps its words from the beginning on: all where they fit, and else the
/// first characters.
pub proof fn law_cut_texts_begin_alike(s: Seq<char>, n: nat)
    ensures
        ({
            let line = joined(words_of(s), " "@);
            &&& line.len() <= n ==> shortened(s, n) == line
            &&& line.len() > n ==> shortened(s, n).len() > n && shortened(s, n).take(n as int)
                == line.take(n as int)
        }),
{
    reveal_strlit("…");
    let line = joined(words_of(s), " "@);
    if line.len() > n {
        assert(shortened(s, n).take(n as int) =~= line.take(n as int));
    }
}

/// Before a destructive command every project that is in place is snapshotted; before another one
/// only where its newest snapshot is as old as the throttle. A project that is not in place never
/// is.
pub proof fn law_destructive_commands_are_never_throttled(
    record: ProjectRecord,
    u: Uuid,
    destructive: bool,
    snaps: Seq<SnapshotMeta>,
    throttle: Duration,
    now: Timestamp,
    n: int,
)
    requires
        newest_index(snaps) == Some(n),
        snaps[n].created.ns <= now.ns,
    ensures
        u@ == record.uuid@ ==> wanted_by_hook(record, Some(u), true, snaps, throttle, now),
        u@ == record.uuid@ ==> (wanted_by_hook(record, Some(u), false, snaps, throttle, now)
            <==> snaps[n].created.ns + throttle.ns <= now.ns),
        u@ != record.uuid@ ==> !wanted_by_hook(record, Some(u), destructive, snaps, throttle, now),
        !wanted_by_hook(record, None, destructive, snaps, throttle, now),
{
}

/// Projects are listed in the order in which a command touches them first.
pub proof fn law_touched_projects_come_in_order(
    roots: Seq<RootCfg>,
    at: Seq<Option<String>>,
    p: String,
)
    ensures
        ({
            let t = touched(roots, at);
            let r = touched(roots, at.push(Some(p)));
            &&& touched(roots, at.push(None)) == t
            &&& located(roots, p@) is None ==> r == t
            &&& located(roots, p@) matches Some(x) ==> r == if t.contains(x) || t.len() >= 8 {
                t
            } else {
                t.push(x)
            }
        }),
{
    assert(at.push(Some(p)).drop_last() =~= at);
    assert(at.push(None).drop_last() =~= at);
}

} // verus!
