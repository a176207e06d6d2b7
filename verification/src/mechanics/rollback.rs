//! Restore paths from a snapshot, roll a whole project back, or recreate a deleted project.

use vstd::prelude::*;

use crate::btrfs::Uuid;
use crate::error::BpmError;
#[allow(unused_imports)]
use crate::error::code_of;
use crate::hooks::HookCtx;
use crate::outside;
use crate::project::ProjectRef;
use crate::store::{ProjectRecord, SnapshotMeta};
#[allow(unused_imports)]
use crate::store::snapshot_place;
use crate::util::paths::{
    is_absolute, normal_steps, path_eq, path_join, path_name, path_starts_with,
};
#[allow(unused_imports)]
use crate::util::paths::{
    absolute, below, joined_path, law_paths_are_joined_step_by_step, leading_dot,
    lemma_leading_dot, lemma_spelled, lemma_walked, name_of, same_path, walked,
};
use crate::util::relpath::{real_steps, safe_relative, RelPath};
#[allow(unused_imports)]
use crate::util::relpath::{
    are_steps, lemma_joined_steps, lemma_steps_add, lemma_steps_are_steps, real_step, rel_texts,
    relative, steps,
};
use crate::util::text::{cat2, cat3, cat4, cat5, dec_u64, join, list_has, str_eq};
#[allow(unused_imports)]
use crate::util::text::{dec, joined, lemma_joined_starts, lemma_last_or_before, texts};
use crate::util::time::Timestamp;

verus! {

pub struct RestoreReport {
    pub restored: Vec<String>,
    pub pre_snapshot: Option<u64>,
    pub warnings: Vec<String>,
}

/// What a path given to a restore means, relative to the project. An absolute one has to lie in the
/// project once its steps that lead up are taken.
pub open spec fn given_path(live: Seq<char>, p: Seq<char>) -> Result<Seq<char>, Seq<char>> {
    if absolute(p) {
        let s = walked(steps(p));
        let top = walked(steps(live));
        if absolute(live) && top.len() <= s.len() && s.take(top.len() as int) == top {
            Ok(joined(s.skip(top.len() as int), "/"@))
        } else {
            Err(p + " is not inside "@ + live)
        }
    } else {
        match relative(p) {
            Some(r) => Ok(r),
            None => Err("invalid relative path "@ + outside::quoted(p)),
        }
    }
}

/// What a path given to a restore means, relative to the project.
pub fn normalize_rel(live: &str, p: &str) -> (r: Result<String, BpmError>)
    ensures
        match r {
            Ok(t) => given_path(live@, p@) == Ok::<Seq<char>, Seq<char>>(t@),
            Err(e) => e is Refused && given_path(live@, p@) == Err::<Seq<char>, Seq<char>>(
                e->Refused_0@,
            ),
        },
{
    if is_absolute(p) {
        let all = normal_steps(p);
        let top = normal_steps(live);
        let ghost sp = walked(steps(p@));
        let ghost sl = walked(steps(live@));
        let n = top.len();
        assert(sp.len() == all@.len() && sl.len() == n);
        if !is_absolute(live) || n > all.len() {
            return Err(BpmError::Refused(cat3(p, " is not inside ", live)));
        }
        let mut k: usize = 0;
        while k < n
            invariant
                k <= n <= all@.len(),
                n == top@.len(),
                sp == texts(all@),
                sl == texts(top@),
                sp == walked(steps(p@)),
                sl == walked(steps(live@)),
                absolute(p@) && absolute(live@),
                forall|j: int| 0 <= j < k ==> #[trigger] sp[j] == sl[j],
            decreases n - k,
        {
            assert(sp[k as int] == all@[k as int]@ && sl[k as int] == top@[k as int]@);
            if !str_eq(all[k].as_str(), top[k].as_str()) {
                assert(sp.take(n as int)[k as int] != sl[k as int]);
                return Err(BpmError::Refused(cat3(p, " is not inside ", live)));
            }
            k += 1;
        }
        assert(sp.take(n as int) =~= sl);
        let mut rest: Vec<String> = Vec::new();
        let mut i: usize = n;
        assert(texts(rest@) =~= sp.subrange(n as int, n as int));
        while i < all.len()
            invariant
                n <= i <= all@.len(),
                sp == texts(all@),
                texts(rest@) == sp.subrange(n as int, i as int),
            decreases all@.len() - i,
        {
            let ghost before = texts(rest@);
            rest.push(all[i].clone());
            assert(texts(rest@) =~= before.push(sp[i as int]));
            assert(sp.subrange(n as int, i + 1) =~= before.push(sp[i as int]));
            i += 1;
        }
        assert(texts(rest@) =~= sp.skip(n as int));
        return Ok(join(&rest, "/"));
    }
    match safe_relative(p) {
        Some(t) => Ok(t),
        None => Err(
            BpmError::Refused(cat2("invalid relative path ", outside::quote(p).as_str())),
        ),
    }
}

/// What a path given to a restore means leads nowhere up and is no absolute path: its place in the
/// project lies in the project.
pub proof fn law_given_paths_stay_inside(live: Seq<char>, p: Seq<char>)
    requires
        given_path(live, p) is Ok,
    ensures
        ({
            let rel = given_path(live, p)->Ok_0;
            let dst = target_of(live, rel, None);
            &&& !absolute(rel)
            &&& !steps(rel).contains(".."@)
            &&& below(dst, live)
            &&& steps(dst) == steps(live) + steps(rel)
        }),
{
    reveal_strlit("/");
    let rel = given_path(live, p)->Ok_0;
    lemma_steps_are_steps(p);
    let v = if absolute(p) {
        walked(steps(p)).skip(walked(steps(live)).len() as int)
    } else {
        steps(p)
    };
    if absolute(p) {
        let s = walked(steps(p));
        lemma_walked(steps(p));
        assert forall|i: int| 0 <= i < v.len() implies real_step(#[trigger] v[i])
            && !v[i].contains('/') && v[i] != ".."@ by {
            let k = i + walked(steps(live)).len();
            assert(v[i] == s[k]);
            assert(s.contains(s[k]));
        }
    }
    assert(are_steps(v));
    assert(rel == joined(v, "/"@));
    lemma_joined_steps(v);
    if v.len() > 0 {
        lemma_joined_starts(v, "/"@);
        assert(real_step(v[0]));
        if rel[0] == '/' {
            assert(v[0][0] == '/');
            assert(v[0].contains('/'));
        }
    }
    if live.len() == 0 {
        lemma_joined_steps(Seq::empty());
        assert(joined(Seq::empty(), "/"@) =~= live);
        assert(live + rel =~= rel);
        assert(steps(live) + steps(rel) =~= steps(rel));
    } else if live.last() == '/' {
        let h = live.drop_last();
        let none = Seq::<char>::empty();
        lemma_steps_add(h, rel);
        lemma_steps_add(h, none);
        lemma_leading_dot(h, rel);
        lemma_leading_dot(h, none);
        lemma_joined_steps(Seq::empty());
        assert(joined(Seq::empty(), "/"@) =~= none);
        assert(h + "/"@ + rel =~= live + rel);
        assert(h + "/"@ + none =~= live);
        assert(steps(h) + steps(none) =~= steps(h));
    } else {
        lemma_steps_add(live, rel);
        lemma_leading_dot(live, rel);
    }
    let dst = target_of(live, rel, None);
    assert(steps(dst).take(steps(live).len() as int) =~= steps(live));
    if live.len() > 0 {
        assert(dst[0] == live[0]);
    }
}

/// A path at or below a banned one.
pub open spec fn inside_banned(rel: Seq<char>, banlist: Seq<Seq<char>>) -> bool {
    exists|i: int| 0 <= i < banlist.len() && below(rel, #[trigger] banlist[i])
}

fn is_inside_banned(rel: &str, banlist: &Vec<RelPath>) -> (r: bool)
    ensures
        r == inside_banned(rel@, rel_texts(banlist@)),
{
    let mut i: usize = 0;
    while i < banlist.len()
        invariant
            i <= banlist@.len(),
            forall|k: int| 0 <= k < i ==> !below(rel@, #[trigger] rel_texts(banlist@)[k]),
        decreases banlist@.len() - i,
    {
        if path_starts_with(rel, banlist[i].as_str()) {
            assert(below(rel@, rel_texts(banlist@)[i as int]));
            return true;
        }
        i += 1;
    }
    false
}

/// What is done about one path of a restore.
pub struct Source {
    pub copy: bool,
    pub warning: Option<String>,
}

pub open spec fn banned_warning(rel: Seq<char>) -> Seq<char> {
    rel + " is a banned (unsnapshotted) directory; the snapshot only has an empty placeholder"@
}

/// Whether a path is copied out of a snapshot; `in_snapshot` says whether it is a directory
/// there, where it is there at all.
pub fn restore_source(
    rel: &str,
    id: u64,
    in_snapshot: Option<bool>,
    banlist: &Vec<RelPath>,
) -> (r: Result<Source, BpmError>)
    ensures
        match r {
            Err(e) => in_snapshot is None && e is NotFound && e->NotFound_0@ == rel@
                + " is not in snapshot #"@ + dec(id as nat),
            Ok(s) => in_snapshot is Some && s.copy == !(inside_banned(rel@, rel_texts(banlist@))
                && in_snapshot->0) && match s.warning {
                Some(w) => inside_banned(rel@, rel_texts(banlist@)) && w@ == banned_warning(rel@),
                None => !inside_banned(rel@, rel_texts(banlist@)),
            },
        },
{
    match in_snapshot {
        None => Err(
            BpmError::NotFound(cat3(rel, " is not in snapshot #", dec_u64(id).as_str())),
        ),
        Some(is_dir) => {
            if is_inside_banned(rel, banlist) {
                let w = cat2(
                    rel,
                    " is a banned (unsnapshotted) directory; the snapshot only has an empty placeholder",
                );
                return Ok(Source { copy: !is_dir, warning: Some(w) });
            }
            Ok(Source { copy: true, warning: None })
        },
    }
}

/// Where a restored path goes: to its place in the project, or under its own name to `to`.
pub open spec fn target_of(live: Seq<char>, rel: Seq<char>, to: Option<Seq<char>>) -> Seq<char> {
    match to {
        Some(d) => joined_path(
            d,
            match name_of(rel) {
                Some(n) => n,
                None => rel,
            },
        ),
        None => joined_path(live, rel),
    }
}

pub open spec fn opt_view(s: Option<&str>) -> Option<Seq<char>> {
    match s {
        Some(t) => Some(t@),
        None => None,
    }
}

/// Where a restored path goes.
pub fn restore_target(live: &str, rel: &str, to: Option<&str>) -> (r: String)
    ensures
        r@ == target_of(live@, rel@, opt_view(to)),
{
    match to {
        Some(d) => match path_name(rel) {
            Some(n) => path_join(d, n.as_str()),
            None => path_join(d, rel),
        },
        None => path_join(live, rel),
    }
}

/// A restore may go to a target where nothing is, or where it is to overwrite what is there.
pub open spec fn may_replace(exists_there: bool, overwrite: bool) -> bool {
    !exists_there || overwrite
}

/// Whether what stands at the target may be replaced.
pub fn check_target(dst: &str, exists_there: bool, overwrite: bool) -> (r: Result<(), BpmError>)
    ensures
        match r {
            Ok(_) => may_replace(exists_there, overwrite),
            Err(e) => !may_replace(exists_there, overwrite) && e is Refused && e->Refused_0@ == dst@
                + " exists; pass --overwrite (a pre-restore snapshot is taken first)"@,
        },
{
    if exists_there && !overwrite {
        return Err(
            BpmError::Refused(
                cat2(dst, " exists; pass --overwrite (a pre-restore snapshot is taken first)"),
            ),
        );
    }
    Ok(())
}

/// What stands where a path given to a restore leads.
#[derive(Clone, Copy, Debug)]
pub struct PathFacts {
    /// Whether it is a directory in the snapshot, where it is there at all.
    pub in_snapshot: Option<bool>,
    /// Whether something stands at its target.
    pub exists_there: bool,
}

/// One copy of a restore.
pub struct Planned {
    /// The path, relative to the project.
    pub rel: String,
    pub dst: String,
    /// Whether something stands at the target.
    pub replaces: bool,
}

/// What a restore does.
pub struct RestorePlan {
    pub copies: Vec<Planned>,
    pub warnings: Vec<String>,
    /// Whether a snapshot is taken first.
    pub safety: bool,
}

/// A copy as contracts speak of it: the path, its target, and whether something stands there.
pub type CopyOf = (Seq<char>, Seq<char>, bool);

pub open spec fn copies_of(v: Seq<Planned>) -> Seq<CopyOf> {
    Seq::new(v.len(), |i: int| (v[i].rel@, v[i].dst@, v[i].replaces))
}

/// What is planned for one path, and what is to be said of it; otherwise the exit code and the
/// words of the error.
pub open spec fn path_plan(
    live: Seq<char>,
    id: u64,
    p: Seq<char>,
    f: PathFacts,
    banlist: Seq<Seq<char>>,
    to: Option<Seq<char>>,
    overwrite: bool,
) -> Result<(Option<CopyOf>, Option<Seq<char>>), (i32, Seq<char>)> {
    match given_path(live, p) {
        Err(m) => Err((7, m)),
        Ok(rel) => {
            let dst = target_of(live, rel, to);
            let warning = if inside_banned(rel, banlist) {
                Some(banned_warning(rel))
            } else {
                None
            };
            if f.in_snapshot is None {
                Err((6, rel + " is not in snapshot #"@ + dec(id as nat)))
            } else if inside_banned(rel, banlist) && f.in_snapshot->0 {
                Ok((None, warning))
            } else if !may_replace(f.exists_there, overwrite) {
                Err(
                    (7, dst + " exists; pass --overwrite (a pre-restore snapshot is taken first)"@),
                )
            } else {
                Ok((Some((rel, dst, f.exists_there)), warning))
            }
        },
    }
}

/// The list, with what there is added to it.
pub open spec fn with_some<A>(s: Seq<A>, x: Option<A>) -> Seq<A> {
    match x {
        Some(a) => s.push(a),
        None => s,
    }
}

/// What is planned for all paths of a restore, in order, and what is to be said; otherwise the
/// error of the first path that has one.
pub open spec fn plan_of(
    live: Seq<char>,
    id: u64,
    paths: Seq<Seq<char>>,
    facts: Seq<PathFacts>,
    banlist: Seq<Seq<char>>,
    to: Option<Seq<char>>,
    overwrite: bool,
) -> Result<(Seq<CopyOf>, Seq<Seq<char>>), (i32, Seq<char>)>
    decreases paths.len(),
{
    if paths.len() == 0 {
        Ok((Seq::empty(), Seq::empty()))
    } else {
        match plan_of(live, id, paths.drop_last(), facts.drop_last(), banlist, to, overwrite) {
            Err(e) => Err(e),
            Ok((copies, warnings)) => match path_plan(
                live,
                id,
                paths.last(),
                facts.last(),
                banlist,
                to,
                overwrite,
            ) {
                Err(e) => Err(e),
                Ok((copy, warning)) => Ok(
                    (with_some(copies, copy), with_some(warnings, warning)),
                ),
            },
        }
    }
}

/// A plan that fails for the first paths fails for all of them.
proof fn lemma_first_error(
    live: Seq<char>,
    id: u64,
    paths: Seq<Seq<char>>,
    facts: Seq<PathFacts>,
    banlist: Seq<Seq<char>>,
    to: Option<Seq<char>>,
    overwrite: bool,
    n: int,
)
    requires
        0 <= n <= paths.len(),
        facts.len() == paths.len(),
        plan_of(live, id, paths.take(n), facts.take(n), banlist, to, overwrite) is Err,
    ensures
        plan_of(live, id, paths, facts, banlist, to, overwrite) == plan_of(
            live,
            id,
            paths.take(n),
            facts.take(n),
            banlist,
            to,
            overwrite,
        ),
    decreases paths.len(),
{
    if n == paths.len() {
        assert(paths.take(n) =~= paths);
        assert(facts.take(n) =~= facts);
    } else {
        assert(paths.drop_last().take(n) =~= paths.take(n));
        assert(facts.drop_last().take(n) =~= facts.take(n));
        lemma_first_error(
            live,
            id,
            paths.drop_last(),
            facts.drop_last(),
            banlist,
            to,
            overwrite,
            n,
        );
    }
}

/// Some target in the project is there already.
pub open spec fn replaces_something(copies: Seq<CopyOf>, live: Seq<char>) -> bool {
    exists|i: int| 0 <= i < copies.len() && (#[trigger] copies[i]).2 && below(copies[i].1, live)
}

/// Whether a snapshot is taken before a restore: where it replaces something in the project.
pub fn needs_safety(plan: &Vec<Planned>, live: &str) -> (r: bool)
    ensures
        r == replaces_something(copies_of(plan@), live@),
{
    let mut i: usize = 0;
    while i < plan.len()
        invariant
            i <= plan@.len(),
            forall|k: int|
                0 <= k < i ==> !((#[trigger] copies_of(plan@)[k]).2 && below(
                    copies_of(plan@)[k].1,
                    live@,
                )),
        decreases plan@.len() - i,
    {
        if plan[i].replaces && path_starts_with(plan[i].dst.as_str(), live) {
            assert(copies_of(plan@)[i as int].2);
            return true;
        }
        i += 1;
    }
    false
}

/// The exit code of an error, and its words without what the kind of error adds.
pub open spec fn trouble(e: BpmError) -> (i32, Seq<char>) {
    (
        code_of(e),
        match e {
            BpmError::NotFound(m) => m@,
            BpmError::Refused(m) => m@,
            _ => Seq::empty(),
        },
    )
}

/// Plans to copy paths out of snapshot `id` into the live project, or to `to`. `facts` tells of
/// each path what is there; of a path that means nothing in the project it is not looked at.
pub fn restore_paths(
    live: &str,
    id: u64,
    paths: &Vec<String>,
    facts: &Vec<PathFacts>,
    banlist: &Vec<RelPath>,
    to: Option<&str>,
    overwrite: bool,
) -> (r: Result<RestorePlan, BpmError>)
    requires
        facts@.len() == paths@.len(),
    ensures
        ({
            let plan = plan_of(
                live@,
                id,
                texts(paths@),
                facts@,
                rel_texts(banlist@),
                opt_view(to),
                overwrite,
            );
            match r {
                Ok(p) => plan == Ok::<(Seq<CopyOf>, Seq<Seq<char>>), (i32, Seq<char>)>(
                    (copies_of(p.copies@), texts(p.warnings@)),
                ) && p.safety == replaces_something(copies_of(p.copies@), live@),
                Err(e) => plan == Err::<(Seq<CopyOf>, Seq<Seq<char>>), (i32, Seq<char>)>(
                    trouble(e),
                ),
            }
        }),
{
    let ghost all = texts(paths@);
    let ghost ban = rel_texts(banlist@);
    let ghost dir = opt_view(to);
    let mut copies: Vec<Planned> = Vec::new();
    let mut warnings: Vec<String> = Vec::new();
    let mut i: usize = 0;
    assert(copies_of(copies@) =~= Seq::<CopyOf>::empty());
    assert(texts(warnings@) =~= Seq::<Seq<char>>::empty());
    while i < paths.len()
        invariant
            i <= paths@.len(),
            facts@.len() == paths@.len(),
            all == texts(paths@),
            ban == rel_texts(banlist@),
            dir == opt_view(to),
            plan_of(live@, id, all.take(i as int), facts@.take(i as int), ban, dir, overwrite)
                == Ok::<(Seq<CopyOf>, Seq<Seq<char>>), (i32, Seq<char>)>(
                (copies_of(copies@), texts(warnings@)),
            ),
        decreases paths@.len() - i,
    {
        let ghost a = all.take(i + 1);
        let ghost f = facts@.take(i + 1);
        proof {
            assert(a.drop_last() =~= all.take(i as int));
            assert(f.drop_last() =~= facts@.take(i as int));
            assert(a.last() == paths@[i as int]@);
            assert(f.last() == facts@[i as int]);
            if plan_of(live@, id, a, f, ban, dir, overwrite) is Err {
                lemma_first_error(live@, id, all, facts@, ban, dir, overwrite, i + 1);
            }
        }
        let rel = match normalize_rel(live, paths[i].as_str()) {
            Ok(rel) => rel,
            Err(e) => {
                return Err(e);
            },
        };
        let source = match restore_source(rel.as_str(), id, facts[i].in_snapshot, banlist) {
            Ok(s) => s,
            Err(e) => {
                return Err(e);
            },
        };
        let ghost said = texts(warnings@);
        let ghost planned = copies_of(copies@);
        if source.copy {
            let dst = restore_target(live, rel.as_str(), to);
            if let Err(e) = check_target(dst.as_str(), facts[i].exists_there, overwrite) {
                return Err(e);
            }
            let ghost c = (rel@, dst@, facts@[i as int].exists_there);
            copies.push(Planned { rel, dst, replaces: facts[i].exists_there });
            assert(copies_of(copies@) =~= planned.push(c));
        }
        if let Some(w) = source.warning {
            let ghost words = w@;
            warnings.push(w);
            assert(texts(warnings@) =~= said.push(words));
        }
        i += 1;
    }
    assert(all.take(i as int) =~= all);
    assert(facts@.take(i as int) =~= facts@);
    let safety = needs_safety(&copies, live);
    Ok(RestorePlan { copies, warnings, safety })
}

/// Whatever a restore into the project copies goes to the place of one of the given paths, and
/// that place lies in the project: no step of it leads up.
pub proof fn law_restores_stay_inside(
    live: Seq<char>,
    id: u64,
    paths: Seq<Seq<char>>,
    facts: Seq<PathFacts>,
    banlist: Seq<Seq<char>>,
    overwrite: bool,
)
    requires
        facts.len() == paths.len(),
        plan_of(live, id, paths, facts, banlist, None, overwrite) is Ok,
    ensures
        ({
            let copies = plan_of(live, id, paths, facts, banlist, None, overwrite)->Ok_0.0;
            forall|i: int|
                0 <= i < copies.len() ==> below((#[trigger] copies[i]).1, live) && !steps(
                    copies[i].1,
                ).skip(steps(live).len() as int).contains(".."@)
        }),
    decreases paths.len(),
{
    if paths.len() > 0 {
        let before = plan_of(
            live,
            id,
            paths.drop_last(),
            facts.drop_last(),
            banlist,
            None,
            overwrite,
        )->Ok_0.0;
        law_restores_stay_inside(
            live,
            id,
            paths.drop_last(),
            facts.drop_last(),
            banlist,
            overwrite,
        );
        law_given_paths_stay_inside(live, paths.last());
        let copies = plan_of(live, id, paths, facts, banlist, None, overwrite)->Ok_0.0;
        assert forall|i: int| 0 <= i < copies.len() implies below((#[trigger] copies[i]).1, live)
            && !steps(copies[i].1).skip(steps(live).len() as int).contains(".."@) by {
            if i < before.len() {
                assert(copies[i] == before[i]);
            } else {
                let rel = given_path(live, paths.last())->Ok_0;
                assert(copies[i].1 == target_of(live, rel, None));
                assert(steps(copies[i].1).skip(steps(live).len() as int) =~= steps(rel));
            }
        }
    }
}

/// Something is replaced by a restore only if it was to be overwritten, and whatever is replaced
/// in the project is in a snapshot before.
pub proof fn law_restore_loses_nothing(
    live: Seq<char>,
    id: u64,
    paths: Seq<Seq<char>>,
    facts: Seq<PathFacts>,
    banlist: Seq<Seq<char>>,
    to: Option<Seq<char>>,
    overwrite: bool,
)
    requires
        facts.len() == paths.len(),
        plan_of(live, id, paths, facts, banlist, to, overwrite) is Ok,
    ensures
        ({
            let copies = plan_of(live, id, paths, facts, banlist, to, overwrite)->Ok_0.0;
            forall|i: int|
                0 <= i < copies.len() && (#[trigger] copies[i]).2 ==> overwrite && (below(
                    copies[i].1,
                    live,
                ) ==> replaces_something(copies, live))
        }),
    decreases paths.len(),
{
    if paths.len() > 0 {
        law_restore_loses_nothing(
            live,
            id,
            paths.drop_last(),
            facts.drop_last(),
            banlist,
            to,
            overwrite,
        );
        let before = plan_of(
            live,
            id,
            paths.drop_last(),
            facts.drop_last(),
            banlist,
            to,
            overwrite,
        )->Ok_0.0;
        let copies = plan_of(live, id, paths, facts, banlist, to, overwrite)->Ok_0.0;
        assert forall|i: int| 0 <= i < copies.len() && (#[trigger] copies[i]).2 implies overwrite by {
            if i < before.len() {
                assert(copies[i] == before[i]);
            }
        }
    }
}

/// What stands at a target.
#[derive(Clone, Copy, Debug, PartialEq, Eq, Structural)]
pub enum AtTarget {
    Nothing,
    Subvolume,
    Directory,
    File,
}

/// What is done with what stands at a target.
pub enum Clearing {
    Nothing,
    RemoveTree,
    RemoveFile,
    Fail(String),
}

/// What is done with what stands at a target: a subvolume is never replaced.
pub fn clear_target(dst: &str, at: AtTarget) -> (r: Clearing)
    ensures
        match at {
            AtTarget::Nothing => r is Nothing,
            AtTarget::Directory => r is RemoveTree,
            AtTarget::File => r is RemoveFile,
            AtTarget::Subvolume => r is Fail && r->Fail_0@ == dst@
                + " is a subvolume; refusing to replace it"@,
        },
{
    match at {
        AtTarget::Nothing => Clearing::Nothing,
        AtTarget::Directory => Clearing::RemoveTree,
        AtTarget::File => Clearing::RemoveFile,
        AtTarget::Subvolume => Clearing::Fail(
            cat2(dst, " is a subvolume; refusing to replace it"),
        ),
    }
}

/// A path put together from steps.
pub open spec fn path_of(from_root: bool, s: Seq<Seq<char>>) -> Seq<char> {
    if from_root {
        "/"@ + joined(s, "/"@)
    } else {
        joined(s, "/"@)
    }
}

/// How many of the directories from `parent` upwards lie strictly below `live`.
pub open spec fn levels(parent: Seq<char>, live: Seq<char>) -> nat {
    if below(parent, live) {
        (steps(parent).len() - steps(live).len()) as nat
    } else {
        0
    }
}

/// The directories from `parent` upwards that lie strictly below `live`, the deepest first: those
/// that a restore may have made and that get the owner of the project.
pub fn owned_parents(parent: &str, live: &str) -> (r: Vec<String>)
    ensures
        r@.len() == levels(parent@, live@),
        forall|k: int|
            0 <= k < r@.len() ==> (#[trigger] r@[k])@ == path_of(
                absolute(parent@),
                steps(parent@).take(steps(parent@).len() - k),
            ),
{
    let mut out: Vec<String> = Vec::new();
    if !path_starts_with(parent, live) {
        return out;
    }
    let from_root = is_absolute(parent);
    let mut s = real_steps(parent);
    let ghost all = steps(parent@);
    let n = real_steps(live).len();
    assert(texts(s@) =~= all.take(all.len() as int));
    assert(steps(live@).len() == n);
    assert(s@.len() == all.len());
    while s.len() > n
        invariant
            s@.len() >= n,
            s@.len() <= all.len(),
            from_root == absolute(parent@),
            all == steps(parent@),
            texts(s@) == all.take(s@.len() as int),
            out@.len() == all.len() - s@.len(),
            forall|k: int|
                0 <= k < out@.len() ==> (#[trigger] out@[k])@ == path_of(
                    from_root,
                    all.take(all.len() - k),
                ),
        decreases s@.len(),
    {
        let rest = join(&s, "/");
        let p = if from_root {
            cat2("/", rest.as_str())
        } else {
            rest
        };
        assert(p@ == path_of(from_root, all.take(s@.len() as int)));
        let ghost m = s@.len();
        out.push(p);
        s.pop();
        assert(texts(s@) =~= all.take(m - 1));
    }
    out
}

pub struct RollbackReport {
    pub safety_snapshot: u64,
    pub moved_nested: Vec<String>,
    pub dropped_nested: Vec<String>,
    pub old_uuid: String,
    pub new_uuid: String,
    pub leftover: Option<String>,
}

/// A project may be rolled back.
pub open spec fn may_roll_back(is_subvolume: bool, written: bool, force: bool) -> bool {
    is_subvolume && (!written || force)
}

/// Whether a project can be rolled back now.
pub fn rollback_allowed(
    live: &str,
    name: &str,
    is_subvolume: bool,
    writers: &Option<String>,
    force: bool,
) -> (r: Result<(), BpmError>)
    ensures
        match r {
            Ok(_) => is_subvolume && (writers is None || force),
            Err(e) => e is Refused && if !is_subvolume {
                e->Refused_0@ == live@ + " does not exist; use `bpm restore --project "@ + name@
                    + "`"@
            } else {
                writers is Some && !force && e->Refused_0@ == "files open for writing under "@
                    + live@ + ": "@ + writers->0@ + " (or --force)"@
            },
        },
        r is Ok == may_roll_back(is_subvolume, writers is Some, force),
{
    if !is_subvolume {
        return Err(
            BpmError::Refused(
                cat4(live, " does not exist; use `bpm restore --project ", name, "`"),
            ),
        );
    }
    if let Some(w) = writers {
        if !force {
            return Err(
                BpmError::Refused(
                    cat5(
                        "files open for writing under ",
                        live,
                        ": ",
                        w.as_str(),
                        " (or --force)",
                    ),
                ),
            );
        }
    }
    Ok(())
}

/// What the hooks around a rollback are told.
pub fn rollback_hook(pref: &ProjectRef, meta: &SnapshotMeta) -> (r: HookCtx)
    ensures
        r.project is Some && r.project->0@ == pref.unit.name@,
        r.project_path is Some && r.project_path->0@ == pref.record.path@,
        r.owner == Some((pref.record.owner_uid, pref.record.owner_gid)),
        r.root is Some && r.root->0@ == pref.root.path@,
        r.snapshot is Some && (r.snapshot->0).0 == meta.id && (r.snapshot->0).1@ == snapshot_place(
            pref.unit.dir@,
            meta.id,
        ) && (r.snapshot->0).2 == meta.kind,
        r.stage is None,
        r.reason@ == "rollback to #"@ + dec(meta.id as nat),
        r.extra@.len() == 0,
{
    HookCtx {
        project: Some(pref.unit.name.clone()),
        project_path: Some(pref.record.path.clone()),
        owner: Some((pref.record.owner_uid, pref.record.owner_gid)),
        root: Some(pref.root.path.clone()),
        snapshot: Some((meta.id, pref.unit.snapshot_path(meta.id), meta.kind)),
        stage: None,
        reason: cat2("rollback to #", dec_u64(meta.id).as_str()),
        extra: Vec::new(),
    }
}

/// Where the live subvolume goes during a rollback.
pub fn aside_path(live: &str, now: Timestamp) -> (r: String)
    ensures
        r@ == live@ + ".bpm-rollback-"@ + outside::instant_formatted(
            now.ns as int,
            "%Y%m%dT%H%M%S"@,
        ),
{
    cat3(live, ".bpm-rollback-", outside::strftime(now, "%Y%m%dT%H%M%S").as_str())
}

/// The steps of a rollback, and its ends.
#[derive(Clone, Copy, Debug, PartialEq, Eq, Structural)]
pub enum RollbackStep {
    PreHook,
    /// Snapshot the state that is left.
    Safety,
    /// Move the live subvolume aside.
    SetAside,
    /// Put a writable copy of the snapshot in its place.
    Materialize,
    MoveNested,
    Record,
    /// Delete what was moved aside; what cannot be deleted is reported.
    DeleteAside,
    PostHook,
    Done,
    /// Failed with the live subvolume to be moved back.
    MoveBack,
    /// Failed with whatever is there left as it is.
    Fail,
}

/// The step after one that went well or did not.
pub open spec fn after_rollback(s: RollbackStep, ok: bool) -> RollbackStep {
    match s {
        RollbackStep::PreHook => if ok {
            RollbackStep::Safety
        } else {
            RollbackStep::Fail
        },
        RollbackStep::Safety => if ok {
            RollbackStep::SetAside
        } else {
            RollbackStep::Fail
        },
        RollbackStep::SetAside => if ok {
            RollbackStep::Materialize
        } else {
            RollbackStep::Fail
        },
        RollbackStep::Materialize => if ok {
            RollbackStep::MoveNested
        } else {
            RollbackStep::MoveBack
        },
        RollbackStep::MoveNested => if ok {
            RollbackStep::Record
        } else {
            RollbackStep::Fail
        },
        RollbackStep::Record => if ok {
            RollbackStep::DeleteAside
        } else {
            RollbackStep::Fail
        },
        RollbackStep::DeleteAside => RollbackStep::PostHook,
        RollbackStep::PostHook => if ok {
            RollbackStep::Done
        } else {
            RollbackStep::Fail
        },
        end => end,
    }
}

/// The step after one that went well or did not.
pub fn rollback_next(s: RollbackStep, ok: bool) -> (r: RollbackStep)
    ensures
        r == after_rollback(s, ok),
{
    match s {
        RollbackStep::PreHook if ok => RollbackStep::Safety,
        RollbackStep::Safety if ok => RollbackStep::SetAside,
        RollbackStep::SetAside if ok => RollbackStep::Materialize,
        RollbackStep::Materialize => if ok {
            RollbackStep::MoveNested
        } else {
            RollbackStep::MoveBack
        },
        RollbackStep::MoveNested if ok => RollbackStep::Record,
        RollbackStep::Record if ok => RollbackStep::DeleteAside,
        RollbackStep::DeleteAside => RollbackStep::PostHook,
        RollbackStep::PostHook if ok => RollbackStep::Done,
        RollbackStep::Done => RollbackStep::Done,
        RollbackStep::MoveBack => RollbackStep::MoveBack,
        _ => RollbackStep::Fail,
    }
}

/// What the journal says before a step; nothing where it does not change.
pub fn rollback_journal(s: RollbackStep) -> (r: Option<u32>)
    ensures
        r == match s {
            RollbackStep::SetAside => Some(3u32),
            RollbackStep::Materialize => Some(4u32),
            RollbackStep::MoveNested => Some(5u32),
            RollbackStep::Record => Some(6u32),
            RollbackStep::DeleteAside => Some(7u32),
            _ => None::<u32>,
        },
{
    match s {
        RollbackStep::SetAside => Some(3),
        RollbackStep::Materialize => Some(4),
        RollbackStep::MoveNested => Some(5),
        RollbackStep::Record => Some(6),
        RollbackStep::DeleteAside => Some(7),
        _ => None,
    }
}

/// Where a rollback ends up when its steps go as `oks` says.
pub open spec fn rollback_run(oks: Seq<bool>) -> RollbackStep
    decreases oks.len(),
{
    if oks.len() == 0 {
        RollbackStep::PreHook
    } else {
        after_rollback(rollback_run(oks.drop_last()), oks.last())
    }
}

/// The live subvolume is moved only after its state was snapshotted, and deleted only after the
/// new one stands in its place, holds the nested subvolumes and is recorded. It is moved back
/// where the new one could not be made.
pub proof fn law_rollback_keeps_a_way_back(oks: Seq<bool>)
    ensures
        ({
            let s = rollback_run(oks);
            &&& s == RollbackStep::SetAside ==> oks.len() == 2 && oks[0] && oks[1]
            &&& s == RollbackStep::Materialize ==> oks.len() == 3 && oks[0] && oks[1] && oks[2]
            &&& s == RollbackStep::MoveNested ==> oks.len() == 4 && oks[0] && oks[1] && oks[2]
                && oks[3]
            &&& s == RollbackStep::Record ==> oks.len() == 5 && oks[0] && oks[1] && oks[2] && oks[3]
                && oks[4]
            &&& (s == RollbackStep::DeleteAside || s == RollbackStep::PostHook || s
                == RollbackStep::Done) ==> oks.len() >= 6 && oks[0] && oks[1] && oks[2] && oks[3]
                && oks[4] && oks[5]
            &&& s == RollbackStep::MoveBack ==> oks.len() >= 4 && oks[0] && oks[1] && oks[2]
                && !oks[3]
        }),
    decreases oks.len(),
{
    if oks.len() > 0 {
        let rest = oks.drop_last();
        law_rollback_keeps_a_way_back(rest);
        lemma_rollback_start(rest);
        assert(forall|i: int| 0 <= i < rest.len() ==> rest[i] == oks[i]);
        assert(oks[oks.len() - 1] == oks.last());
    }
}

proof fn lemma_rollback_start(oks: Seq<bool>)
    ensures
        rollback_run(oks) == RollbackStep::PreHook ==> oks.len() == 0,
        rollback_run(oks) == RollbackStep::Safety ==> oks.len() == 1 && oks[0],
    decreases oks.len(),
{
    if oks.len() > 0 {
        lemma_rollback_start(oks.drop_last());
        assert(oks[oks.len() - 1] == oks.last());
    }
}

/// What stands where a nested subvolume goes.
#[derive(Clone, Copy, Debug, PartialEq, Eq, Structural)]
pub enum Placeholder {
    Missing,
    EmptyDir,
    Other,
}

/// What is done with a nested subvolume.
pub enum NestedStep {
    /// It goes with the old state.
    Drop,
    /// Move it over, after its placeholder was removed where there is one.
    Move { remove_placeholder: bool },
    /// It stays where it is, with this warning.
    Leave(String),
}

/// A path is one of the banned ones.
pub open spec fn is_banned_path(rel: Seq<char>, banlist: Seq<Seq<char>>) -> bool {
    exists|i: int| 0 <= i < banlist.len() && same_path(#[trigger] banlist[i], rel)
}

/// Whether a path is one of the banned ones.
pub fn banned_path(rel: &str, banlist: &Vec<RelPath>) -> (r: bool)
    ensures
        r == is_banned_path(rel@, rel_texts(banlist@)),
{
    let mut i: usize = 0;
    while i < banlist.len()
        invariant
            i <= banlist@.len(),
            forall|k: int| 0 <= k < i ==> !same_path(#[trigger] rel_texts(banlist@)[k], rel@),
        decreases banlist@.len() - i,
    {
        if path_eq(banlist[i].as_str(), rel) {
            assert(same_path(rel_texts(banlist@)[i as int], rel@));
            return true;
        }
        i += 1;
    }
    false
}

/// What becomes of a nested subvolume: it goes, it moves over (in the place of an empty directory),
/// or it stays where it is.
pub enum NestedKind {
    Drop,
    Move,
    Replace,
    Leave,
}

pub open spec fn nested_kind(s: NestedStep) -> NestedKind {
    match s {
        NestedStep::Drop => NestedKind::Drop,
        NestedStep::Move { remove_placeholder } => if remove_placeholder {
            NestedKind::Replace
        } else {
            NestedKind::Move
        },
        NestedStep::Leave(_) => NestedKind::Leave,
    }
}

pub open spec fn nested_decided(banned: bool, drop_build: bool, at: Placeholder) -> NestedKind {
    if drop_build && banned {
        NestedKind::Drop
    } else {
        match at {
            Placeholder::Missing => NestedKind::Move,
            Placeholder::EmptyDir => NestedKind::Replace,
            Placeholder::Other => NestedKind::Leave,
        }
    }
}

/// What is done with a nested subvolume: build directories go where that was asked for, the
/// rest moves over unless something stands in the way.
pub fn nested_step(
    rel: &str,
    banlist: &Vec<RelPath>,
    drop_build: bool,
    dst: &str,
    at: Placeholder,
    aside: &str,
) -> (r: NestedStep)
    ensures
        match r {
            NestedStep::Drop => drop_build && is_banned_path(rel@, rel_texts(banlist@)),
            NestedStep::Move { remove_placeholder } => !(drop_build && is_banned_path(
                rel@,
                rel_texts(banlist@),
            )) && at != Placeholder::Other && remove_placeholder == (at == Placeholder::EmptyDir),
            NestedStep::Leave(w) => !(drop_build && is_banned_path(rel@, rel_texts(banlist@))) && at
                == Placeholder::Other && w@ == "rollback: "@ + dst@
                + " exists in the snapshot and is not an empty placeholder; nested subvolume left in "@
                + aside@,
        },
        nested_kind(r) == nested_decided(is_banned_path(rel@, rel_texts(banlist@)), drop_build, at),
{
    if drop_build && banned_path(rel, banlist) {
        return NestedStep::Drop;
    }
    match at {
        Placeholder::Missing => NestedStep::Move { remove_placeholder: false },
        Placeholder::EmptyDir => NestedStep::Move { remove_placeholder: true },
        Placeholder::Other => NestedStep::Leave(
            cat4(
                "rollback: ",
                dst,
                " exists in the snapshot and is not an empty placeholder; nested subvolume left in ",
                aside,
            ),
        ),
    }
}

/// The nested subvolumes that were neither moved nor dropped.
pub open spec fn stranded(
    nested: Seq<Seq<char>>,
    moved: Seq<Seq<char>>,
    dropped: Seq<Seq<char>>,
) -> Seq<Seq<char>>
    decreases nested.len(),
{
    if nested.len() == 0 {
        Seq::empty()
    } else {
        let rest = stranded(nested.drop_last(), moved, dropped);
        if moved.contains(nested.last()) || dropped.contains(nested.last()) {
            rest
        } else {
            rest.push(nested.last())
        }
    }
}

/// The nested subvolumes that were neither moved nor dropped: they must survive.
pub fn left_nested(nested: &Vec<String>, moved: &Vec<String>, dropped: &Vec<String>) -> (r: Vec<
    String,
>)
    ensures
        texts(r@) == stranded(texts(nested@), texts(moved@), texts(dropped@)),
{
    let ghost all = texts(nested@);
    let mut out: Vec<String> = Vec::new();
    let mut i: usize = 0;
    assert(texts(out@) =~= stranded(all.take(0), texts(moved@), texts(dropped@)));
    while i < nested.len()
        invariant
            i <= nested@.len(),
            all == texts(nested@),
            texts(out@) == stranded(all.take(i as int), texts(moved@), texts(dropped@)),
        decreases nested@.len() - i,
    {
        assert(all.take(i + 1).drop_last() =~= all.take(i as int));
        assert(all.take(i + 1).last() == nested@[i as int]@);
        if !list_has(moved, nested[i].as_str()) && !list_has(dropped, nested[i].as_str()) {
            let ghost before = texts(out@);
            out.push(nested[i].clone());
            assert(texts(out@) =~= before.push(nested@[i as int]@));
        }
        i += 1;
    }
    assert(all.take(i as int) =~= all);
    out
}

/// The old subvolume is deleted with what is nested in it.
pub open spec fn goes_with_nested(left: Seq<Seq<char>>, dropped: Seq<Seq<char>>) -> bool {
    dropped.len() > 0 && left.len() == 0
}

/// Whether the old subvolume is deleted with what is nested in it: only when everything still
/// inside is a build directory that was dropped.
pub fn delete_recursively(left: &Vec<String>, dropped: &Vec<String>) -> (r: bool)
    ensures
        r == goes_with_nested(texts(left@), texts(dropped@)),
{
    dropped.len() > 0 && left.len() == 0
}

/// Where the old subvolume is deleted with what is nested in it, every nested subvolume was
/// moved over or is a build directory that was dropped.
pub proof fn law_only_dropped_builds_go(
    nested: Seq<Seq<char>>,
    moved: Seq<Seq<char>>,
    dropped: Seq<Seq<char>>,
)
    requires
        goes_with_nested(stranded(nested, moved, dropped), dropped),
    ensures
        forall|i: int|
            0 <= i < nested.len() ==> moved.contains(#[trigger] nested[i]) || dropped.contains(
                nested[i],
            ),
    decreases nested.len(),
{
    if nested.len() > 0 {
        let rest = nested.drop_last();
        law_only_dropped_builds_go(rest, moved, dropped);
        assert forall|i: int| 0 <= i < nested.len() implies moved.contains(#[trigger] nested[i])
            || dropped.contains(nested[i]) by {
            if i < rest.len() {
                assert(rest[i] == nested[i]);
            }
        }
    }
}

/// The warning about nested subvolumes that stay, where there are any.
pub fn left_warning(aside: &str, left: &Vec<String>) -> (r: Option<String>)
    ensures
        match r {
            Some(w) => left@.len() > 0 && w@ == "rollback: nested subvolumes left in "@ + aside@
                + ": "@ + joined(texts(left@), ", "@),
            None => left@.len() == 0,
        },
{
    if left.len() == 0 {
        return None;
    }
    Some(cat4("rollback: nested subvolumes left in ", aside, ": ", join(left, ", ").as_str()))
}

/// Whether a project can be made anew from a snapshot.
pub fn recreate_allowed(live: &str, exists_there: bool) -> (r: Result<(), BpmError>)
    ensures
        match r {
            Ok(_) => !exists_there,
            Err(e) => exists_there && e is Refused && e->Refused_0@ == live@
                + " exists; use `bpm rollback` instead"@,
        },
{
    if exists_there {
        return Err(BpmError::Refused(cat2(live, " exists; use `bpm rollback` instead")));
    }
    Ok(())
}

/// The earlier identities of a project after it was made anew.
pub open spec fn history_after(r: ProjectRecord, uuid: Uuid) -> Seq<Uuid> {
    if r.uuid@ != uuid@ && !(exists|i: int|
        0 <= i < r.uuid_history@.len() && #[trigger] r.uuid_history@[i]@ == r.uuid@) {
        r.uuid_history@.push(r.uuid)
    } else {
        r.uuid_history@
    }
}

fn history_has(r: &ProjectRecord, u: &Uuid) -> (b: bool)
    ensures
        b == (exists|i: int|
            0 <= i < r.uuid_history@.len() && #[trigger] r.uuid_history@[i]@ == u@),
{
    let mut i: usize = 0;
    while i < r.uuid_history.len()
        invariant
            i <= r.uuid_history@.len(),
            forall|k: int| 0 <= k < i ==> #[trigger] r.uuid_history@[k]@ != u@,
        decreases r.uuid_history@.len() - i,
    {
        if r.uuid_history[i].same(u) {
            return true;
        }
        i += 1;
    }
    false
}

/// Records the new live subvolume of a project that was made anew from a snapshot.
pub fn recreate(record: &mut ProjectRecord, uuid: Uuid)
    ensures
        final(record).uuid == uuid,
        final(record).uuid_history@ == history_after(*old(record), uuid),
        *final(record) == (ProjectRecord {
            uuid,
            uuid_history: final(record).uuid_history,
            ..*old(record)
        }),
{
    let was = record.uuid;
    if !was.same(&uuid) && !history_has(record, &was) {
        record.uuid_history.push(was);
    }
    record.uuid = uuid;
}

/// Whatever subvolumes a project had, it still knows after it was made anew: their snapshots
/// stay its own.
pub proof fn law_identities_are_kept(r: ProjectRecord, f: ProjectRecord, uuid: Uuid, u: Seq<u8>)
    requires
        f.uuid == uuid,
        f.uuid_history@ == history_after(r, uuid),
        r.knows(u),
    ensures
        f.knows(u),
{
    let h = r.uuid_history@;
    let g = f.uuid_history@;
    if u == r.uuid@ {
        if r.uuid@ != uuid@ {
            if exists|i: int| 0 <= i < h.len() && #[trigger] h[i]@ == r.uuid@ {
                let i = choose|i: int| 0 <= i < h.len() && #[trigger] h[i]@ == r.uuid@;
                assert(g[i]@ == u);
            } else {
                assert(g[h.len() as int]@ == u);
            }
        }
    } else {
        let i = choose|i: int| 0 <= i < h.len() && #[trigger] h[i]@ == u;
        assert(g[i]@ == u);
    }
}

/// The steps of a path begin with those of a banned one.
pub open spec fn at_or_below(rel: Seq<char>, banlist: Seq<Seq<char>>) -> bool {
    exists|k: int|
        0 <= k < banlist.len() && steps(#[trigger] banlist[k]).len() <= steps(rel).len()
            && forall|i: int|
            0 <= i < steps(banlist[k]).len() ==> #[trigger] steps(rel)[i] == steps(banlist[k])[i]
}

/// Banned paths are relative and spelled without a step on the spot before them.
pub open spec fn plain_banlist(banlist: Seq<Seq<char>>) -> bool {
    forall|k: int|
        0 <= k < banlist.len() ==> !absolute(#[trigger] banlist[k]) && !leading_dot(banlist[k])
}

proof fn lemma_inside_banned(live: Seq<char>, p: Seq<char>, banlist: Seq<Seq<char>>)
    requires
        given_path(live, p) is Ok,
        plain_banlist(banlist),
    ensures
        inside_banned(given_path(live, p)->Ok_0, banlist) <==> at_or_below(
            given_path(live, p)->Ok_0,
            banlist,
        ),
{
    let rel = given_path(live, p)->Ok_0;
    lemma_steps_are_steps(p);
    let v = if absolute(p) {
        walked(steps(p)).skip(walked(steps(live)).len() as int)
    } else {
        steps(p)
    };
    if absolute(p) {
        let s = walked(steps(p));
        lemma_walked(steps(p));
        assert forall|i: int| 0 <= i < v.len() implies real_step(#[trigger] v[i])
            && !v[i].contains('/') by {
            assert(v[i] == s[i + walked(steps(live)).len()]);
        }
    }
    assert(are_steps(v));
    lemma_spelled(v);
    assert(rel == joined(v, "/"@));
    let r = steps(rel);
    assert forall|k: int| 0 <= k < banlist.len() implies (below(rel, #[trigger] banlist[k]) <==> (
    steps(banlist[k]).len() <= r.len() && forall|i: int|
        0 <= i < steps(banlist[k]).len() ==> #[trigger] r[i] == steps(banlist[k])[i])) by {
        let w = steps(banlist[k]);
        if w.len() <= r.len() {
            if forall|i: int| 0 <= i < w.len() ==> #[trigger] r[i] == w[i] {
                assert(r.take(w.len() as int) =~= w);
            }
            if r.take(w.len() as int) == w {
                assert forall|i: int| 0 <= i < w.len() implies #[trigger] r[i] == w[i] by {
                    assert(r.take(w.len() as int)[i] == r[i]);
                }
            }
        }
    }
    if at_or_below(rel, banlist) {
        let k = choose|k: int|
            0 <= k < banlist.len() && steps(#[trigger] banlist[k]).len() <= steps(rel).len()
                && forall|i: int|
                0 <= i < steps(banlist[k]).len() ==> #[trigger] steps(rel)[i] == steps(
                    banlist[k],
                )[i];
        assert(below(rel, banlist[k]));
    }
}

/// One more path given to a restore adds its copy, to its own place in the project, unless it is a
/// directory and some banned path stands at it or above it: then it is left out, and that is said.
/// Whatever lies above a banned path, or beside it, is copied without a word. The restore as a
/// whole is refused for a path that means nothing in the project, that the snapshot does not have,
/// or that would replace something without being asked to.
pub proof fn law_restores_leave_out_only_banned_directories(
    live: Seq<char>,
    id: u64,
    paths: Seq<Seq<char>>,
    facts: Seq<PathFacts>,
    banlist: Seq<Seq<char>>,
    overwrite: bool,
    p: Seq<char>,
    f: PathFacts,
)
    requires
        facts.len() == paths.len(),
        plain_banlist(banlist),
        plan_of(live, id, paths, facts, banlist, None, overwrite) is Ok,
    ensures
        ({
            let before = plan_of(live, id, paths, facts, banlist, None, overwrite)->Ok_0;
            let plan = plan_of(live, id, paths.push(p), facts.push(f), banlist, None, overwrite);
            let rel = given_path(live, p)->Ok_0;
            let left_out = at_or_below(rel, banlist) && f.in_snapshot == Some(true);
            &&& plan is Ok <==> given_path(live, p) is Ok && f.in_snapshot is Some && (left_out
                || !f.exists_there || overwrite)
            &&& plan is Ok && !left_out ==> {
                let c = plan->Ok_0.0;
                &&& c.len() == before.0.len() + 1
                &&& c.drop_last() == before.0
                &&& c.last().0 == rel
                &&& steps(c.last().1) == steps(live) + steps(rel)
                &&& c.last().2 == f.exists_there
            }
            &&& plan is Ok && left_out ==> plan->Ok_0.0 == before.0
            &&& plan is Ok && !at_or_below(rel, banlist) ==> plan->Ok_0.1 == before.1
            &&& plan is Ok && at_or_below(rel, banlist) ==> plan->Ok_0.1.len() == before.1.len() + 1
        }),
{
    let all = paths.push(p);
    let known = facts.push(f);
    assert(all.drop_last() =~= paths && all.last() == p);
    assert(known.drop_last() =~= facts && known.last() == f);
    let before = plan_of(live, id, paths, facts, banlist, None, overwrite)->Ok_0;
    if given_path(live, p) is Ok {
        let rel = given_path(live, p)->Ok_0;
        lemma_inside_banned(live, p, banlist);
        law_given_paths_stay_inside(live, p);
        let c = (rel, target_of(live, rel, None), f.exists_there);
        assert(before.0.push(c).drop_last() =~= before.0);
    }
}

/// A path in the project means the same to a restore whether it is given from the project or from
/// the root, and one whose steps do not begin with those of the project means nothing.
pub proof fn law_restores_take_either_spelling(
    base: Seq<Seq<char>>,
    v: Seq<Seq<char>>,
    other: Seq<Seq<char>>,
)
    requires
        are_steps(base) && !base.contains(".."@),
        are_steps(v) && !v.contains(".."@) && v.len() > 0,
        are_steps(other) && !other.contains(".."@),
        !(base.len() <= other.len() && other.take(base.len() as int) == base),
    ensures
        ({
            let live = "/"@ + joined(base, "/"@);
            &&& given_path(live, joined(v, "/"@)) == Ok::<Seq<char>, Seq<char>>(joined(v, "/"@))
            &&& given_path(live, "/"@ + joined(base + v, "/"@)) == Ok::<Seq<char>, Seq<char>>(
                joined(v, "/"@),
            )
            &&& given_path(live, live) == Ok::<Seq<char>, Seq<char>>(Seq::empty())
            &&& given_path(live, "/"@ + joined(other, "/"@)) is Err
        }),
{
    let live = "/"@ + joined(base, "/"@);
    lemma_spelled(v);
    lemma_rooted(base);
    lemma_rooted(base + v);
    lemma_rooted(other);
    lemma_walks_nowhere(base);
    lemma_walks_nowhere(other);
    assert(!(base + v).contains(".."@)) by {
        if (base + v).contains(".."@) {
            let i = (base + v).index_of(".."@);
            if i < base.len() {
                assert(base[i] == ".."@);
            } else {
                assert(v[i - base.len()] == ".."@);
            }
        }
    }
    lemma_walks_nowhere(base + v);
    assert((base + v).take(base.len() as int) =~= base);
    assert((base + v).skip(base.len() as int) =~= v);
    assert(base.take(base.len() as int) =~= base);
    assert(base.skip(base.len() as int) =~= Seq::<Seq<char>>::empty());
    assert(joined(Seq::<Seq<char>>::empty(), "/"@) =~= Seq::<char>::empty());
    reveal_strlit("/");
    assert(joined(v, "/"@).len() == 0 || joined(v, "/"@)[0] != '/');
}

/// A path from the root that is spelled by its steps is absolute and has just these steps.
proof fn lemma_rooted(v: Seq<Seq<char>>)
    requires
        are_steps(v),
    ensures
        absolute("/"@ + joined(v, "/"@)),
        steps("/"@ + joined(v, "/"@)) == v,
{
    reveal_strlit("/");
    let none = Seq::<char>::empty();
    lemma_steps_add(none, joined(v, "/"@));
    lemma_joined_steps(v);
    lemma_joined_steps(Seq::empty());
    assert(joined(Seq::empty(), "/"@) =~= none);
    assert(none + "/"@ + joined(v, "/"@) =~= "/"@ + joined(v, "/"@));
    assert(Seq::<Seq<char>>::empty() + v =~= v);
}

/// Steps none of which leads up are walked as they are.
proof fn lemma_walks_nowhere(v: Seq<Seq<char>>)
    requires
        !v.contains(".."@),
    ensures
        walked(v) == v,
    decreases v.len(),
{
    if v.len() > 0 {
        let rest = v.drop_last();
        assert(!rest.contains(".."@)) by {
            if rest.contains(".."@) {
                let i = rest.index_of(".."@);
                assert(v[i] == ".."@);
            }
        }
        lemma_walks_nowhere(rest);
        assert(v.last() == v[v.len() - 1]);
        assert(rest.push(v.last()) =~= v);
    }
}

/// How a whole rollback ends: the old tree is moved back where the new one could not be made, and
/// whatever else fails stops it there; that the old tree could not be deleted does not.
pub proof fn law_rollbacks_end_by_their_steps(oks: Seq<bool>)
    requires
        oks.len() == 8,
    ensures
        ({
            let first = oks[0] && oks[1] && oks[2];
            &&& rollback_run(oks) == RollbackStep::MoveBack <==> first && !oks[3]
            &&& rollback_run(oks) == RollbackStep::Done <==> first && oks[3] && oks[4] && oks[5]
                && oks[7]
            &&& rollback_run(oks) == RollbackStep::Fail <==> !first || (oks[3] && !(oks[4] && oks[5]
                && oks[7]))
            &&& rollback_run(oks.take(6)) == RollbackStep::DeleteAside <==> first && oks[3] && oks[4]
                && oks[5]
        }),
{
    reveal_with_fuel(rollback_run, 9);
    assert(oks.drop_last() =~= oks.take(7));
    assert(oks.take(7).drop_last() =~= oks.take(6));
    assert(oks.take(6).drop_last() =~= oks.take(5));
    assert(oks.take(5).drop_last() =~= oks.take(4));
    assert(oks.take(4).drop_last() =~= oks.take(3));
    assert(oks.take(3).drop_last() =~= oks.take(2));
    assert(oks.take(2).drop_last() =~= oks.take(1));
    assert(oks.take(1).drop_last() =~= oks.take(0));
    assert(oks.take(0).len() == 0);
}

/// A nested subvolume is left behind just where it was neither moved nor dropped, and the old tree
/// goes with what is nested in it only where something was dropped and nothing is left behind.
pub proof fn law_nothing_nested_is_forgotten(
    nested: Seq<Seq<char>>,
    moved: Seq<Seq<char>>,
    dropped: Seq<Seq<char>>,
    x: Seq<char>,
)
    ensures
        stranded(nested, moved, dropped).contains(x) <==> nested.contains(x) && !moved.contains(x)
            && !dropped.contains(x),
        goes_with_nested(stranded(nested, moved, dropped), dropped) <==> dropped.len() > 0
            && stranded(nested, moved, dropped).len() == 0,
    decreases nested.len(),
{
    if nested.len() > 0 {
        let t = nested.drop_last();
        law_nothing_nested_is_forgotten(t, moved, dropped, x);
        lemma_last_or_before(nested, x);
        let r = stranded(nested, moved, dropped);
        if r != stranded(t, moved, dropped) {
            lemma_last_or_before(r, x);
            assert(r.drop_last() =~= stranded(t, moved, dropped));
        }
    }
}

/// A restore into the project takes a snapshot before it just where it replaces anything.
pub proof fn law_snapshots_precede_what_is_replaced(
    live: Seq<char>,
    id: u64,
    paths: Seq<Seq<char>>,
    facts: Seq<PathFacts>,
    banlist: Seq<Seq<char>>,
    overwrite: bool,
)
    requires
        facts.len() == paths.len(),
        plan_of(live, id, paths, facts, banlist, None, overwrite) is Ok,
    ensures
        ({
            let copies = plan_of(live, id, paths, facts, banlist, None, overwrite)->Ok_0.0;
            replaces_something(copies, live) <==> exists|i: int|
                0 <= i < copies.len() && (#[trigger] copies[i]).2
        }),
{
    law_restores_stay_inside(live, id, paths, facts, banlist, overwrite);
    let copies = plan_of(live, id, paths, facts, banlist, None, overwrite)->Ok_0.0;
    if exists|i: int| 0 <= i < copies.len() && (#[trigger] copies[i]).2 {
        let i = choose|i: int| 0 <= i < copies.len() && (#[trigger] copies[i]).2;
        assert(below(copies[i].1, live));
    }
}

/// What is restored elsewhere goes there under its own name, whatever it was in.
pub proof fn law_restores_elsewhere_keep_the_name(
    live: Seq<char>,
    rel: Seq<char>,
    d: Seq<char>,
)
    requires
        steps(rel).len() > 0,
        steps(rel).last() != ".."@,
    ensures
        steps(target_of(live, rel, Some(d))) == steps(d).push(steps(rel).last()),
        !absolute(rel) ==> steps(target_of(live, rel, None)) == steps(live) + steps(rel),
{
    let n = steps(rel).last();
    lemma_steps_are_steps(rel);
    assert(real_step(steps(rel)[steps(rel).len() - 1]));
    let v = seq![n];
    assert(are_steps(v)) by {
        assert forall|i: int| 0 <= i < v.len() implies real_step(#[trigger] v[i])
            && !v[i].contains('/') by {}
    }
    lemma_spelled(v);
    assert(joined(v, "/"@) == n);
    law_paths_are_joined_step_by_step(d, n);
    law_paths_are_joined_step_by_step(live, rel);
    assert(steps(d) + v =~= steps(d).push(n));
}

/// A path is banned where its steps are those of a banned one.
pub proof fn law_banned_paths_have_the_same_steps(rel: Seq<char>, banlist: Seq<Seq<char>>)
    requires
        plain_banlist(banlist),
        !absolute(rel) && !leading_dot(rel),
    ensures
        is_banned_path(rel, banlist) <==> exists|k: int|
            0 <= k < banlist.len() && steps(#[trigger] banlist[k]) == steps(rel),
{
    if is_banned_path(rel, banlist) {
        let k = choose|k: int| 0 <= k < banlist.len() && same_path(#[trigger] banlist[k], rel);
        assert(steps(banlist[k]) == steps(rel));
    }
    if exists|k: int| 0 <= k < banlist.len() && steps(#[trigger] banlist[k]) == steps(rel) {
        let k = choose|k: int| 0 <= k < banlist.len() && steps(#[trigger] banlist[k]) == steps(rel);
        assert(same_path(banlist[k], rel));
    }
}

/// A project that is made anew remembers the subvolume that it had, once, and nothing where it
/// still is that one.
pub proof fn law_earlier_identities_are_remembered_once(r: ProjectRecord, uuid: Uuid)
    ensures
        uuid@ == r.uuid@ ==> history_after(r, uuid) == r.uuid_history@,
        (exists|i: int| 0 <= i < r.uuid_history@.len() && #[trigger] r.uuid_history@[i]@ == r.uuid@)
            ==> history_after(r, uuid) == r.uuid_history@,
        uuid@ != r.uuid@ && (forall|i: int|
            0 <= i < r.uuid_history@.len() ==> #[trigger] r.uuid_history@[i]@ != r.uuid@)
            ==> history_after(r, uuid) == r.uuid_history@.push(r.uuid),
{
}

/// A project is rolled back only where its subvolume is there, and not while someone writes to it
/// unless that is forced.
pub proof fn law_rollbacks_wait_for_writers(is_subvolume: bool, written: bool, force: bool)
    ensures
        may_roll_back(true, false, force),
        may_roll_back(true, written, true),
        !may_roll_back(false, written, force),
        !may_roll_back(is_subvolume, true, false),
{
}

/// A nested subvolume goes only where it is a build directory and these are to go. Every other one
/// moves over, unless something but an empty directory stands in its way.
pub proof fn law_only_build_directories_are_dropped(
    banned: bool,
    drop_build: bool,
    at: Placeholder,
)
    ensures
        nested_decided(banned, drop_build, at) is Drop <==> banned && drop_build,
        !(banned && drop_build) ==> (nested_decided(banned, drop_build, at) is Leave
            <==> at is Other),
        nested_decided(banned, drop_build, at) is Replace ==> at is EmptyDir,
        nested_decided(banned, drop_build, at) is Move ==> at is Missing,
{
}

/// What is left behind is listed in the order of the nested subvolumes.
pub proof fn law_left_subvolumes_keep_their_order(
    nested: Seq<Seq<char>>,
    moved: Seq<Seq<char>>,
    dropped: Seq<Seq<char>>,
    x: Seq<char>,
)
    ensures
        moved.contains(x) || dropped.contains(x) ==> stranded(nested.push(x), moved, dropped)
            == stranded(nested, moved, dropped),
        !moved.contains(x) && !dropped.contains(x) ==> stranded(nested.push(x), moved, dropped)
            == stranded(nested, moved, dropped).push(x),
{
    assert(nested.push(x).drop_last() =~= nested);
}

} // verus!
