//! `adopt` and `convert`.

use vstd::prelude::*;

use crate::btrfs::SubvolInfo;
use crate::config::effective::EffectiveConfig;
use crate::config::schema::RootCfg;
use crate::error::BpmError;
use crate::mechanics::adopt::{AdoptOpts, AdoptReport};
use crate::mechanics::observe::note_tool_change;
#[allow(unused_imports)]
use crate::mechanics::observe::tool_changed;
use crate::project::{resolve_path, Candidate, Discovery};
#[allow(unused_imports)]
use crate::project::holds;
use crate::store::ProjectState;
use crate::util::relpath::safe_relative;
#[allow(unused_imports)]
use crate::util::relpath::{rel_texts, relative, steps};
use crate::util::text::{cat2, cat3, cat4, cat5, contains, dec_u64, join};
#[allow(unused_imports)]
use crate::util::text::{dec, has_text, joined, texts};
use crate::util::time::Timestamp;

verus! {

/// Position `i` is the first root that holds a path.
pub open spec fn holds_first(roots: Seq<RootCfg>, p: Seq<char>, i: int) -> bool {
    0 <= i < roots.len() && holds(roots[i].path@, p) && forall|j: int|
        0 <= j < i ==> !holds((#[trigger] roots[j]).path@, p)
}

/// What a directory to adopt is: the position of its root and its name. Where `p` is a path, `abs`
/// is that path without symbolic links; `dirs` says of each root whether it has a directory of
/// that name.
pub fn target(p: &str, abs: Option<&str>, roots: &Vec<RootCfg>, dirs: &Vec<bool>) -> (r: Result<
    (usize, String),
    BpmError,
>)
    requires
        dirs@.len() == roots@.len(),
    ensures
        match r {
            Ok((i, name)) => i < roots@.len() && if has_text(p@, "/"@) {
                abs is Some && holds_first(roots@, abs->0@, i as int) && name@ == steps(
                    abs->0@,
                )[steps(roots@[i as int].path@).len() as int]
            } else {
                name@ == p@ && (roots@.len() == 1 || (dirs@[i as int] && forall|j: int|
                    0 <= j < i ==> !#[trigger] dirs@[j]))
            },
            Err(e) => e is Usage && if has_text(p@, "/"@) {
                (abs is Some ==> forall|j: int|
                    0 <= j < roots@.len() ==> !holds((#[trigger] roots@[j]).path@, abs->0@))
                    && e->Usage_0@ == p@ + " is not inside a configured root"@
            } else {
                roots@.len() != 1 && (forall|j: int|
                    0 <= j < dirs@.len() ==> !#[trigger] dirs@[j]) && e->Usage_0@ == p@
                    + " not found in any root; pass --root"@
            },
        },
{
    if contains(p, "/") {
        return resolve_path(roots, p, abs);
    }
    if roots.len() == 1 {
        return Ok((0, p.to_owned()));
    }
    let mut i: usize = 0;
    while i < dirs.len()
        invariant
            i <= dirs@.len(),
            dirs@.len() == roots@.len(),
            roots@.len() != 1,
            !has_text(p@, "/"@),
            forall|j: int| 0 <= j < i ==> !#[trigger] dirs@[j],
        decreases dirs@.len() - i,
    {
        if dirs[i] {
            return Ok((i, p.to_owned()));
        }
        i += 1;
    }
    Err(BpmError::Usage(cat2(p, " not found in any root; pass --root")))
}

/// The names of directories.
pub open spec fn candidate_names(c: Seq<Candidate>) -> Seq<Seq<char>> {
    Seq::new(c.len(), |i: int| c[i].name@)
}

/// Adds the names of directories to a list.
fn push_names(out: &mut Vec<String>, c: &Vec<Candidate>)
    ensures
        texts(final(out)@) == texts(old(out)@) + candidate_names(c@),
{
    let ghost start = texts(out@);
    let ghost all = candidate_names(c@);
    let mut i: usize = 0;
    assert(start =~= start + all.take(0));
    while i < c.len()
        invariant
            i <= c@.len(),
            all == candidate_names(c@),
            texts(out@) == start + all.take(i as int),
        decreases c@.len() - i,
    {
        let ghost before = texts(out@);
        out.push(c[i].name.clone());
        assert(texts(out@) =~= before.push(all[i as int]));
        assert(start + all.take(i + 1) =~= before.push(all[i as int]));
        i += 1;
    }
    assert(all.take(i as int) =~= all);
}

/// Everything in a root that can be adopted: plain directories, then subvolumes that no record
/// knows.
pub fn all_of(d: &Discovery) -> (r: Vec<String>)
    ensures
        texts(r@) == candidate_names(d.unadopted@) + candidate_names(d.foreign_subvols@),
{
    let mut out: Vec<String> = Vec::new();
    assert(texts(out@) =~= Seq::<Seq<char>>::empty());
    push_names(&mut out, &d.unadopted);
    push_names(&mut out, &d.foreign_subvols);
    assert(texts(out@) =~= candidate_names(d.unadopted@) + candidate_names(d.foreign_subvols@));
    out
}

/// Whether there is anything to adopt.
pub fn check_todo(count: usize) -> (r: Result<(), BpmError>)
    ensures
        match r {
            Ok(_) => count > 0,
            Err(e) => count == 0 && e is Usage && e->Usage_0@
                == "nothing to adopt (name projects or pass --all)"@,
        },
{
    if count == 0 {
        return Err(
            BpmError::Usage("nothing to adopt (name projects or pass --all)".to_owned()),
        );
    }
    Ok(())
}

/// How directories are adopted on request.
pub fn options(no_keep_build: bool, force: bool, verify_paths: bool) -> (r: AdoptOpts)
    ensures
        r.keep_build == if no_keep_build {
            Some(false)
        } else {
            None
        },
        r.force == force,
        r.verify_paths == verify_paths,
        !r.require_unused,
{
    AdoptOpts {
        keep_build: if no_keep_build {
            Some(false)
        } else {
            None
        },
        force,
        verify_paths,
        require_unused: false,
    }
}

/// The line of an adoption; `size` is its size as people read it.
pub open spec fn adopt_line(r: AdoptReport, size: Seq<char>) -> Seq<char> {
    r.name@ + ": "@ + (if r.converted {
        "converted to subvolume"@
    } else {
        "registered"@
    }) + " ("@ + dec(r.files as nat) + " files, "@ + size + "), nested: ["@ + joined(
        texts(r.nested@),
        ", "@,
    ) + "], snapshot #"@ + dec(r.snapshot as nat) + ", stage "@ + r.stage@
}

/// The line of an adoption; `size` is its size as people read it.
pub fn run(r: &AdoptReport, size: &str) -> (t: String)
    ensures
        t@ == adopt_line(*r, size@),
{
    let how = if r.converted {
        "converted to subvolume"
    } else {
        "registered"
    };
    let mut m = cat5(r.name.as_str(), ": ", how, " (", dec_u64(r.files).as_str());
    m.append(" files, ");
    m.append(size);
    m.append("), nested: [");
    m.append(join(&r.nested, ", ").as_str());
    m.append("], snapshot #");
    m.append(dec_u64(r.snapshot).as_str());
    m.append(", stage ");
    m.append(r.stage.as_str());
    m
}

/// The path that is converted.
pub fn convert_path(path: &str) -> (r: Result<String, BpmError>)
    ensures
        match r {
            Ok(p) => relative(path@) == Some(p@),
            Err(e) => relative(path@) is None && e is Usage && e->Usage_0@
                == "path must be relative to the project"@,
        },
{
    match safe_relative(path) {
        Some(p) => Ok(p),
        None => Err(BpmError::Usage("path must be relative to the project".to_owned())),
    }
}

/// The warning about a path that is not banned.
pub fn convert_warning(eff: &EffectiveConfig, rel: &str, name: &str) -> (r: Option<String>)
    ensures
        match r {
            Some(m) => !rel_texts(eff.banlist@).contains(rel@) && m@ == rel@
                + " is not in the banlist of "@ + name@
                + "; it will be excluded from snapshots anyway"@,
            None => rel_texts(eff.banlist@).contains(rel@),
        },
{
    if eff.is_banned(rel) {
        return None;
    }
    Some(
        cat4(
            rel,
            " is not in the banlist of ",
            name,
            "; it will be excluded from snapshots anyway",
        ),
    )
}

/// The state after a conversion: the change is not activity, and the path no longer waits.
pub fn convert(
    st: &mut ProjectState,
    rel: &str,
    before: &SubvolInfo,
    after: &SubvolInfo,
    now: Timestamp,
)
    ensures
        final(st).pending_convert@ == old(st).pending_convert@.remove(rel@),
        final(st).banlist_seen@ == old(st).banlist_seen@.insert(rel@, ()),
        *final(st) == (ProjectState {
            pending_convert: final(st).pending_convert,
            banlist_seen: final(st).banlist_seen,
            ..tool_changed(*old(st), *before, *after, now)
        }),
{
    note_tool_change(st, before, after, now);
    st.pending_convert.remove(rel);
    st.banlist_seen.insert(rel.to_owned(), ());
}

/// What is printed of a conversion.
pub fn converted_text(name: &str, rel: &str) -> (r: String)
    ensures
        r@ == name@ + ": "@ + rel@ + " is now a nested subvolume"@,
{
    cat2(cat3(name, ": ", rel).as_str(), " is now a nested subvolume")
}

} // verus!
