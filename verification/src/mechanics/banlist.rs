//! Keep banned directories (build output, caches) as nested subvolumes so snapshots skip them.

use vstd::prelude::*;

use crate::config::effective::EffectiveConfig;
use crate::config::schema::Precreate;
use crate::error::BpmError;
use crate::outside;
use crate::store::ProjectState;
use crate::util::relpath::{rel_has, RelPath};
#[allow(unused_imports)]
use crate::util::relpath::{rel_texts, relative};
use crate::util::strmap::StrMap;
use crate::util::text::{cat2, cat3, cat4, cat5};
use crate::util::time::Timestamp;

verus! {

/// What was done about a banned path.
#[derive(Clone, Debug, PartialEq, Eq)]
pub enum BanAction {
    Created(String),
    Recreated(String),
    PendingConvert(String),
    NotADirectory(String),
}

impl BanAction {
    /// Whether the live tree was changed.
    pub fn modified_live(&self) -> (r: bool)
        ensures
            r == (self is Created || self is Recreated),
    {
        matches!(self, BanAction::Created(_) | BanAction::Recreated(_))
    }
}

/// What stands at a banned path.
pub enum BanFact {
    /// The path leads out of the project, with the reason.
    Unsafe(String),
    Missing { parent_is_dir: bool },
    NotADirectory,
    Subvolume,
    EmptyDirectory,
    Directory,
}

/// What is to be done about a banned path.
pub enum BanStep {
    Nothing,
    /// Report this, with a warning where it is the first time.
    Report(BanAction, Option<String>),
    /// Create a subvolume there.
    Create,
    /// Remove the empty directory and create a subvolume in its place.
    Recreate,
}

/// Forgets pending conversions of paths that are no longer banned.
pub fn forget_unbanned(st: &mut ProjectState, eff: &EffectiveConfig)
    ensures
        *final(st) == (ProjectState { pending_convert: final(st).pending_convert, ..*old(st) }),
        final(st).pending_convert@ == old(st).pending_convert@.restrict(
            rel_texts(eff.banlist@).to_set(),
        ),
{
    let ghost all = st.pending_convert@;
    let ghost banned = rel_texts(eff.banlist@);
    let mut kept: StrMap<Timestamp> = StrMap::new();
    let mut i: usize = 0;
    {
        let e = st.pending_convert.entries();
        let ghost p = e@;
        while i < e.len()
            invariant
                i <= e@.len(),
                e@ == p,
                banned == rel_texts(eff.banlist@),
                forall|j: int|
                    0 <= j < p.len() ==> all.contains_key((#[trigger] p[j]).0@) && all[p[j].0@]
                        == p[j].1,
                forall|k: Seq<char>| #[trigger]
                    kept@.contains_key(k) ==> banned.contains(k) && all.contains_key(k) && kept@[k]
                        == all[k],
                forall|j: int|
                    0 <= j < i && banned.contains((#[trigger] p[j]).0@) ==> kept@.contains_key(
                        p[j].0@,
                    ),
            decreases e@.len() - i,
        {
            if eff.is_banned(e[i].0.as_str()) {
                kept.insert(e[i].0.clone(), e[i].1);
            }
            i += 1;
        }
        assert(kept@ =~= all.restrict(banned.to_set())) by {
            assert forall|k: Seq<char>| all.contains_key(k) && banned.contains(k) implies
                kept@.contains_key(k) by {
                let j = choose|j: int| 0 <= j < p.len() && p[j].0@ == k;
                assert(banned.contains(p[j].0@));
            }
        }
    }
    st.pending_convert = kept;
}

/// A missing banned directory is created ahead of time.
pub open spec fn wanted(eff: EffectiveConfig, st: ProjectState, rel: Seq<char>) -> bool {
    !rel_texts(eff.never_precreate@).contains(rel) && match eff.policy.banlist_precreate {
        Precreate::All => true,
        Precreate::Never => false,
        Precreate::Primary => rel_texts(eff.primary_banlist@).contains(rel)
            || st.banlist_seen@.contains_key(rel),
    }
}

/// The state after a step, over what of it may change.
pub open spec fn ban_state(
    st: ProjectState,
    f: ProjectState,
    pending: Map<Seq<char>, Timestamp>,
    seen: Map<Seq<char>, ()>,
    warned: Map<Seq<char>, Timestamp>,
) -> bool {
    &&& f == (ProjectState {
        pending_convert: f.pending_convert,
        banlist_seen: f.banlist_seen,
        warned: f.warned,
        ..st
    })
    &&& f.pending_convert@ == pending
    &&& f.banlist_seen@ == seen
    &&& f.warned@ == warned
}

/// An instant under a key, unless there is one already.
pub open spec fn noted_at(m: Map<Seq<char>, Timestamp>, k: Seq<char>, t: Timestamp) -> Map<
    Seq<char>,
    Timestamp,
> {
    if m.contains_key(k) {
        m
    } else {
        m.insert(k, t)
    }
}

pub open spec fn unsafe_key(rel: Seq<char>) -> Seq<char> {
    "banlist-unsafe:"@ + rel
}

pub open spec fn not_dir_key(rel: Seq<char>) -> Seq<char> {
    "banlist-not-dir:"@ + rel
}

fn note_once(m: &mut StrMap<Timestamp>, key: String, now: Timestamp) -> (r: bool)
    ensures
        r == !old(m)@.contains_key(key@),
        final(m)@ == noted_at(old(m)@, key@, now),
{
    if m.has(key.as_str()) {
        return false;
    }
    m.insert(key, now);
    true
}

/// A step that reports `a`, and warns where `first`.
pub open spec fn reports(s: BanStep, a: BanAction, first: bool, text: Seq<char>) -> bool {
    s is Report && s->Report_0 == a && match s->Report_1 {
        Some(w) => first && w@ == text,
        None => !first,
    }
}

/// What follows from what stands at a banned path, and what the state says after it.
pub open spec fn ban_decided(
    st: ProjectState,
    f: ProjectState,
    eff: EffectiveConfig,
    rel: RelPath,
    fact: BanFact,
    allow_create: bool,
    now: Timestamp,
    s: BanStep,
) -> bool {
    let r = rel.text@;
    let pending = st.pending_convert@;
    let seen = st.banlist_seen@;
    let warned = st.warned@;
    match fact {
        BanFact::Unsafe(e) => reports(
            s,
            BanAction::NotADirectory(rel.text),
            !warned.contains_key(unsafe_key(r)),
            eff.name@ + ": banned path "@ + r + " left alone: "@ + e@,
        ) && ban_state(st, f, pending.remove(r), seen, noted_at(warned, unsafe_key(r), now)),
        BanFact::Missing { parent_is_dir } => (s == if wanted(eff, st, r) && allow_create
            && parent_is_dir {
            BanStep::Create
        } else {
            BanStep::Nothing
        }) && ban_state(st, f, pending.remove(r), seen, warned),
        BanFact::NotADirectory => reports(
            s,
            BanAction::NotADirectory(rel.text),
            !warned.contains_key(not_dir_key(r)),
            eff.name@ + ": banned path "@ + r + " is not a directory; left alone"@,
        ) && ban_state(st, f, pending, seen, noted_at(warned, not_dir_key(r), now)),
        BanFact::Subvolume => s is Nothing && ban_state(
            st,
            f,
            pending.remove(r),
            seen.insert(r, ()),
            warned,
        ),
        BanFact::EmptyDirectory => s is Recreate && ban_state(
            st,
            f,
            pending,
            seen.insert(r, ()),
            warned,
        ),
        BanFact::Directory => s == BanStep::Report(
            BanAction::PendingConvert(rel.text),
            None,
        ) && ban_state(st, f, noted_at(pending, r, now), seen.insert(r, ()), warned),
    }
}

/// Cheap, every-tick enforcement of one banned path. Non-empty plain directories are only marked
/// for conversion.
pub fn enforce_cheap(
    st: &mut ProjectState,
    eff: &EffectiveConfig,
    rel: &RelPath,
    fact: &BanFact,
    allow_create: bool,
    now: Timestamp,
) -> (r: BanStep)
    ensures
        ban_decided(*old(st), *final(st), *eff, *rel, *fact, allow_create, now, r),
{
    let p = rel.as_str();
    match fact {
        BanFact::Unsafe(e) => {
            let first = note_once(&mut st.warned, cat2("banlist-unsafe:", p), now);
            st.pending_convert.remove(p);
            let warn = if first {
                Some(cat5(eff.name.as_str(), ": banned path ", p, " left alone: ", e.as_str()))
            } else {
                None
            };
            BanStep::Report(BanAction::NotADirectory(rel.text.clone()), warn)
        },
        BanFact::Missing { parent_is_dir } => {
            let want = !rel_has(&eff.never_precreate, p) && match eff.policy.banlist_precreate {
                Precreate::All => true,
                Precreate::Never => false,
                Precreate::Primary => rel_has(&eff.primary_banlist, p) || st.banlist_seen.has(p),
            };
            st.pending_convert.remove(p);
            if want && allow_create && *parent_is_dir {
                BanStep::Create
            } else {
                BanStep::Nothing
            }
        },
        BanFact::NotADirectory => {
            let first = note_once(&mut st.warned, cat2("banlist-not-dir:", p), now);
            let warn = if first {
                Some(
                    cat4(
                        eff.name.as_str(),
                        ": banned path ",
                        p,
                        " is not a directory; left alone",
                    ),
                )
            } else {
                None
            };
            BanStep::Report(BanAction::NotADirectory(rel.text.clone()), warn)
        },
        BanFact::Subvolume => {
            st.banlist_seen.insert(rel.text.clone(), ());
            st.pending_convert.remove(p);
            BanStep::Nothing
        },
        BanFact::EmptyDirectory => {
            st.banlist_seen.insert(rel.text.clone(), ());
            BanStep::Recreate
        },
        BanFact::Directory => {
            st.banlist_seen.insert(rel.text.clone(), ());
            note_once(&mut st.pending_convert, rel.text.clone(), now);
            BanStep::Report(BanAction::PendingConvert(rel.text.clone()), None)
        },
    }
}

/// A subvolume was created at a banned path.
pub fn note_created(st: &mut ProjectState, rel: &RelPath) -> (r: BanAction)
    ensures
        r == BanAction::Created(rel.text),
        ban_state(
            *old(st),
            *final(st),
            old(st).pending_convert@,
            old(st).banlist_seen@.insert(rel.text@, ()),
            old(st).warned@,
        ),
{
    st.banlist_seen.insert(rel.text.clone(), ());
    BanAction::Created(rel.text.clone())
}

/// An empty directory was replaced by a subvolume, or could not be removed.
pub fn note_recreated(st: &mut ProjectState, rel: &RelPath, removed: bool, now: Timestamp) -> (r:
    BanAction)
    ensures
        removed ==> r == BanAction::Recreated(rel.text) && ban_state(
            *old(st),
            *final(st),
            old(st).pending_convert@.remove(rel.text@),
            old(st).banlist_seen@,
            old(st).warned@,
        ),
        !removed ==> r == BanAction::PendingConvert(rel.text) && ban_state(
            *old(st),
            *final(st),
            noted_at(old(st).pending_convert@, rel.text@, now),
            old(st).banlist_seen@,
            old(st).warned@,
        ),
{
    if removed {
        st.pending_convert.remove(rel.as_str());
        BanAction::Recreated(rel.text.clone())
    } else {
        note_once(&mut st.pending_convert, rel.text.clone(), now);
        BanAction::PendingConvert(rel.text.clone())
    }
}

/// A directory with something in it is never touched without a conversion: enforcement only
/// marks it, and creates nothing where something stands.
pub proof fn law_contents_are_left_alone(
    st: ProjectState,
    f: ProjectState,
    eff: EffectiveConfig,
    rel: RelPath,
    fact: BanFact,
    allow_create: bool,
    now: Timestamp,
    s: BanStep,
)
    requires
        ban_decided(st, f, eff, rel, fact, allow_create, now, s),
    ensures
        s is Create ==> fact is Missing && allow_create,
        s is Recreate ==> fact is EmptyDirectory,
        fact is Directory ==> f.pending_convert@.contains_key(rel.text@),
{
}

/// What is known of a directory that is to be converted. Each field is read when asked for.
pub struct ConvertFacts {
    pub full: String,
    /// The first thing in the way that an interrupted conversion left behind.
    pub leftover: Option<String>,
    pub is_dir: bool,
    pub is_subvolume: bool,
    /// Who writes there, in words.
    pub writers: Option<String>,
}

/// What comes of a conversion.
pub enum ConvertStart {
    /// It is a subvolume already.
    Done,
    /// Nothing is done in a dry run.
    Pretend,
    Go,
    Fail(String),
    Refuse(BpmError),
}

/// Why a conversion does not start, in the order in which it is asked.
pub open spec fn convert_decided(f: ConvertFacts, force: bool, dry_run: bool, r: ConvertStart) -> bool {
    if f.leftover is Some {
        r is Fail && r->Fail_0@ == "leftover "@ + f.leftover->0@
            + " from an interrupted conversion; run `bpm doctor --fix`"@
    } else if !f.is_dir {
        r is Fail && r->Fail_0@ == f.full@ + " is not a directory"@
    } else if f.is_subvolume {
        r is Done
    } else if f.writers is Some && !force {
        r is Refuse && r->Refuse_0 is Refused && r->Refuse_0->Refused_0@
            == "files open for writing under "@ + f.full@ + ": "@ + f.writers->0@
    } else if dry_run {
        r is Pretend
    } else {
        r is Go
    }
}

/// Whether a non-empty plain banned directory is turned into a nested subvolume now.
pub fn convert(f: &ConvertFacts, force: bool, dry_run: bool) -> (r: ConvertStart)
    ensures
        convert_decided(*f, force, dry_run, r),
{
    if let Some(l) = &f.leftover {
        return ConvertStart::Fail(
            cat3(
                "leftover ",
                l.as_str(),
                " from an interrupted conversion; run `bpm doctor --fix`",
            ),
        );
    }
    if !f.is_dir {
        return ConvertStart::Fail(cat2(f.full.as_str(), " is not a directory"));
    }
    if f.is_subvolume {
        return ConvertStart::Done;
    }
    if let Some(w) = &f.writers {
        if !force {
            return ConvertStart::Refuse(
                BpmError::Refused(
                    cat4("files open for writing under ", f.full.as_str(), ": ", w.as_str()),
                ),
            );
        }
    }
    if dry_run {
        ConvertStart::Pretend
    } else {
        ConvertStart::Go
    }
}

/// The path to convert, where it is one below the project.
pub fn convert_path(rel: &str) -> (r: Result<RelPath, BpmError>)
    ensures
        match r {
            Ok(p) => relative(rel@) == Some(p.text@),
            Err(e) => relative(rel@) is None && e is Refused && e->Refused_0@
                == "invalid relative path "@ + outside::quoted(rel@),
        },
{
    match RelPath::parse(rel) {
        Some(p) => Ok(p),
        None => Err(
            BpmError::Refused(cat2("invalid relative path ", outside::quote(rel).as_str())),
        ),
    }
}

/// The steps of a conversion, and its ends.
#[derive(Clone, Copy, Debug, PartialEq, Eq, Structural)]
pub enum ConvertStep {
    CreateSubvolume,
    CopyOwner,
    CopyContents,
    /// Count what was copied, so that the original can be compared with it.
    CountCopy,
    /// Exchange the new subvolume with the directory.
    Exchange,
    /// Give the directory its name for cleanup.
    SetAside,
    /// Delete the directory if nothing in it is newer than the copy, otherwise keep it.
    Retire,
    Done,
    /// Failed with the new subvolume to delete.
    DeleteSubvolume,
    /// Failed with whatever is there left as it is.
    Fail,
}

/// The step after one that went well or did not.
pub open spec fn after_convert(s: ConvertStep, ok: bool, keep_contents: bool) -> ConvertStep {
    match s {
        ConvertStep::CreateSubvolume => if ok {
            ConvertStep::CopyOwner
        } else {
            ConvertStep::Fail
        },
        ConvertStep::CopyOwner => if !ok {
            ConvertStep::Fail
        } else if keep_contents {
            ConvertStep::CopyContents
        } else {
            ConvertStep::Exchange
        },
        ConvertStep::CopyContents => if ok {
            ConvertStep::CountCopy
        } else {
            ConvertStep::DeleteSubvolume
        },
        ConvertStep::CountCopy => if ok {
            ConvertStep::Exchange
        } else {
            ConvertStep::Fail
        },
        ConvertStep::Exchange => if ok {
            ConvertStep::SetAside
        } else {
            ConvertStep::Fail
        },
        ConvertStep::SetAside => if ok {
            ConvertStep::Retire
        } else {
            ConvertStep::Fail
        },
        ConvertStep::Retire => if ok {
            ConvertStep::Done
        } else {
            ConvertStep::Fail
        },
        end => end,
    }
}

/// The step after one that went well or did not.
pub fn convert_next(s: ConvertStep, ok: bool, keep_contents: bool) -> (r: ConvertStep)
    ensures
        r == after_convert(s, ok, keep_contents),
{
    match s {
        ConvertStep::CreateSubvolume if ok => ConvertStep::CopyOwner,
        ConvertStep::CopyOwner if ok => if keep_contents {
            ConvertStep::CopyContents
        } else {
            ConvertStep::Exchange
        },
        ConvertStep::CopyContents => if ok {
            ConvertStep::CountCopy
        } else {
            ConvertStep::DeleteSubvolume
        },
        ConvertStep::CountCopy if ok => ConvertStep::Exchange,
        ConvertStep::Exchange if ok => ConvertStep::SetAside,
        ConvertStep::SetAside if ok => ConvertStep::Retire,
        ConvertStep::Retire if ok => ConvertStep::Done,
        ConvertStep::Done => ConvertStep::Done,
        ConvertStep::DeleteSubvolume => ConvertStep::DeleteSubvolume,
        _ => ConvertStep::Fail,
    }
}

/// Where a conversion ends up when its steps go as `oks` says.
pub open spec fn convert_run(oks: Seq<bool>, keep_contents: bool) -> ConvertStep
    decreases oks.len(),
{
    if oks.len() == 0 {
        ConvertStep::CreateSubvolume
    } else {
        after_convert(convert_run(oks.drop_last(), keep_contents), oks.last(), keep_contents)
    }
}

/// The directory is taken from its place only after everything in it was copied and counted,
/// where its contents are to be kept.
pub proof fn law_exchange_after_copy(oks: Seq<bool>, keep_contents: bool)
    ensures
        ({
            let s = convert_run(oks, keep_contents);
            (s == ConvertStep::Exchange || s == ConvertStep::SetAside || s == ConvertStep::Retire
                || s == ConvertStep::Done) && keep_contents ==> oks.len() >= 4 && oks[0] && oks[1]
                && oks[2] && oks[3]
        }),
    decreases oks.len(),
{
    if oks.len() > 0 {
        let rest = oks.drop_last();
        law_exchange_after_copy(rest, keep_contents);
        lemma_convert_start(oks, keep_contents);
        assert(forall|i: int| 0 <= i < rest.len() ==> rest[i] == oks[i]);
    }
}

proof fn lemma_convert_start(oks: Seq<bool>, keep_contents: bool)
    ensures
        ({
            let s = convert_run(oks, keep_contents);
            &&& s == ConvertStep::CreateSubvolume ==> oks.len() == 0
            &&& s == ConvertStep::CopyOwner ==> oks.len() == 1 && oks[0]
            &&& s == ConvertStep::CopyContents ==> oks.len() == 2 && oks[0] && oks[1]
            &&& s == ConvertStep::CountCopy ==> oks.len() == 3 && oks[0] && oks[1] && oks[2]
            &&& (s == ConvertStep::Exchange && keep_contents) ==> oks.len() == 4 && oks[0] && oks[1]
                && oks[2] && oks[3]
        }),
    decreases oks.len(),
{
    if oks.len() > 0 {
        let rest = oks.drop_last();
        lemma_convert_start(rest, keep_contents);
        assert(forall|i: int| 0 <= i < rest.len() ==> rest[i] == oks[i]);
        assert(oks[oks.len() - 1] == oks.last());
    }
}

/// Which banned directories are created ahead of time: none that is excepted, all or none where
/// the policy says so, and otherwise the primary ones and those that were seen before.
pub proof fn law_what_is_created_ahead(eff: EffectiveConfig, st: ProjectState, rel: Seq<char>)
    ensures
        rel_texts(eff.never_precreate@).contains(rel) ==> !wanted(eff, st, rel),
        eff.policy.banlist_precreate is Never ==> !wanted(eff, st, rel),
        !rel_texts(eff.never_precreate@).contains(rel) ==> {
            &&& eff.policy.banlist_precreate is All ==> wanted(eff, st, rel)
            &&& eff.policy.banlist_precreate is Primary ==> (wanted(eff, st, rel) <==> (rel_texts(
                eff.primary_banlist@,
            ).contains(rel) || st.banlist_seen@.contains_key(rel)))
        },
{
}

/// Enforcement creates what is missing, wanted and has its parent; it replaces an empty directory
/// and leaves a subvolume alone. A directory with contents waits for its conversion since it was
/// first seen, and one that is gone or converted waits no longer. Everything that stands there as
/// a directory has been seen from then on, and a warning is given once.
pub proof fn law_enforcement_follows_what_stands_there(
    st: ProjectState,
    f: ProjectState,
    eff: EffectiveConfig,
    rel: RelPath,
    fact: BanFact,
    allow_create: bool,
    now: Timestamp,
    s: BanStep,
)
    requires
        ban_decided(st, f, eff, rel, fact, allow_create, now, s),
    ensures
        ({
            let r = rel.text@;
            &&& s is Create <==> (fact matches BanFact::Missing { parent_is_dir } && parent_is_dir)
                && allow_create && wanted(eff, st, r)
            &&& s is Recreate <==> fact is EmptyDirectory
            &&& fact is Subvolume ==> s is Nothing
            &&& fact is Directory ==> s is Report && s->Report_0 is PendingConvert && s->Report_1 is None
            &&& fact is NotADirectory || fact is Unsafe ==> s is Report && s->Report_0
                == BanAction::NotADirectory(rel.text)
            &&& fact is Directory ==> f.pending_convert@.contains_key(r) && f.pending_convert@[r]
                == if st.pending_convert@.contains_key(r) {
                st.pending_convert@[r]
            } else {
                now
            }
            &&& fact is Subvolume || fact is Missing || fact is Unsafe
                ==> !f.pending_convert@.contains_key(r)
            &&& f.banlist_seen@.contains_key(r) <==> st.banlist_seen@.contains_key(r)
                || fact is Subvolume || fact is EmptyDirectory || fact is Directory
            &&& s is Report && s->Report_1 is Some ==> !(f.warned@ =~= st.warned@)
            &&& forall|k: Seq<char>|
                k != r ==> (#[trigger] f.pending_convert@.contains_key(k)
                    <==> st.pending_convert@.contains_key(k)) && (
                #[trigger] f.banlist_seen@.contains_key(k) <==> st.banlist_seen@.contains_key(k))
            &&& forall|k: Seq<char>| #[trigger]
                st.warned@.contains_key(k) ==> f.warned@.contains_key(k) && f.warned@[k]
                    == st.warned@[k]
            &&& f == ProjectState {
                pending_convert: f.pending_convert,
                banlist_seen: f.banlist_seen,
                warned: f.warned,
                ..st
            }
        }),
{
    let r = rel.text@;
    if s is Report && s->Report_1 is Some {
        if fact is Unsafe {
            assert(f.warned@.contains_key(unsafe_key(r)));
        } else {
            assert(f.warned@.contains_key(not_dir_key(r)));
        }
    }
}

/// A conversion goes ahead for a plain directory that nobody writes to, unless that is forced,
/// and only where nothing of an earlier one is in the way.
pub proof fn law_conversions_go_ahead(f: ConvertFacts, force: bool, dry_run: bool, r: ConvertStart)
    requires
        convert_decided(f, force, dry_run, r),
    ensures
        r is Go <==> f.leftover is None && f.is_dir && !f.is_subvolume && (f.writers is None
            || force) && !dry_run,
        r is Pretend <==> f.leftover is None && f.is_dir && !f.is_subvolume && (f.writers is None
            || force) && dry_run,
        r is Refuse <==> f.leftover is None && f.is_dir && !f.is_subvolume && f.writers is Some
            && !force,
        r is Done <==> f.leftover is None && f.is_dir && f.is_subvolume,
        r is Fail <==> f.leftover is Some || !f.is_dir,
{
}

/// How a conversion ends: a copy that fails is thrown away again, anything else that fails stops
/// there, and where the contents are not kept they are not copied.
pub proof fn law_conversions_end_by_their_steps(oks: Seq<bool>)
    requires
        oks.len() == 7,
    ensures
        convert_run(oks, true) == ConvertStep::Done <==> oks[0] && oks[1] && oks[2] && oks[3]
            && oks[4] && oks[5] && oks[6],
        convert_run(oks, true) == ConvertStep::DeleteSubvolume <==> oks[0] && oks[1] && !oks[2],
        convert_run(oks, true) == ConvertStep::Fail <==> !(oks[0] && oks[1]) || (oks[2] && !(oks[3]
            && oks[4] && oks[5] && oks[6])),
        convert_run(oks.take(5), false) == ConvertStep::Done <==> oks[0] && oks[1] && oks[2]
            && oks[3] && oks[4],
        convert_run(oks.take(5), false) == ConvertStep::Fail <==> !(oks[0] && oks[1] && oks[2]
            && oks[3] && oks[4]),
{
    reveal_with_fuel(convert_run, 8);
    assert(oks.drop_last() =~= oks.take(6));
    assert(oks.take(6).drop_last() =~= oks.take(5));
    assert(oks.take(5).drop_last() =~= oks.take(4));
    assert(oks.take(4).drop_last() =~= oks.take(3));
    assert(oks.take(3).drop_last() =~= oks.take(2));
    assert(oks.take(2).drop_last() =~= oks.take(1));
    assert(oks.take(1).drop_last() =~= oks.take(0));
    assert(oks.take(0).len() == 0);
}

} // verus!
