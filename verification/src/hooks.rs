//! User hooks: which executables run on an event, with what environment, and what their
//! failure means.

use vstd::prelude::*;

use crate::cli::show_dur;
use crate::error::BpmError;
use crate::outside;
use crate::store::{SnapshotKind, Stage};
#[allow(unused_imports)]
use crate::store::meta::{kind_name, stage_name};
use crate::util::strmap::StrMap;
use crate::util::text::{
    cat2, cat4, cat5, chars_of, dec_i32, dec_u64, list_has, starts_with, str_eq, trim,
};
#[allow(unused_imports)]
use crate::util::text::{dec, dec_int, starts, texts, trimmed};
use crate::util::time::Duration;

verus! {

#[derive(Clone, Copy, Debug, PartialEq, Eq, Structural)]
pub enum HookEvent {
    PreSnapshot,
    PostSnapshot,
    PreDelete,
    PostDelete,
    PreAdopt,
    PostAdopt,
    StageChange,
    PreRecompress,
    PostRecompress,
    PreArchive,
    PostArchive,
    PreRollback,
    PostRollback,
    OnFreeze,
    OnShrinkDetected,
    OnOrphaned,
}

/// The name of an event.
pub open spec fn event_name(e: HookEvent) -> Seq<char> {
    match e {
        HookEvent::PreSnapshot => "pre-snapshot"@,
        HookEvent::PostSnapshot => "post-snapshot"@,
        HookEvent::PreDelete => "pre-delete"@,
        HookEvent::PostDelete => "post-delete"@,
        HookEvent::PreAdopt => "pre-adopt"@,
        HookEvent::PostAdopt => "post-adopt"@,
        HookEvent::StageChange => "stage-change"@,
        HookEvent::PreRecompress => "pre-recompress"@,
        HookEvent::PostRecompress => "post-recompress"@,
        HookEvent::PreArchive => "pre-archive"@,
        HookEvent::PostArchive => "post-archive"@,
        HookEvent::PreRollback => "pre-rollback"@,
        HookEvent::PostRollback => "post-rollback"@,
        HookEvent::OnFreeze => "on-freeze"@,
        HookEvent::OnShrinkDetected => "on-shrink-detected"@,
        HookEvent::OnOrphaned => "on-orphaned"@,
    }
}

/// The events before something happens: a failing hook prevents it.
pub open spec fn vetoes(e: HookEvent) -> bool {
    e == HookEvent::PreSnapshot || e == HookEvent::PreDelete || e == HookEvent::PreAdopt || e
        == HookEvent::PreRecompress || e == HookEvent::PreArchive || e == HookEvent::PreRollback
}

/// Every event, in the order in which they are listed.
pub open spec fn event_list() -> Seq<HookEvent> {
    seq![
        HookEvent::PreSnapshot,
        HookEvent::PostSnapshot,
        HookEvent::PreDelete,
        HookEvent::PostDelete,
        HookEvent::PreAdopt,
        HookEvent::PostAdopt,
        HookEvent::StageChange,
        HookEvent::PreRecompress,
        HookEvent::PostRecompress,
        HookEvent::PreArchive,
        HookEvent::PostArchive,
        HookEvent::PreRollback,
        HookEvent::PostRollback,
        HookEvent::OnFreeze,
        HookEvent::OnShrinkDetected,
        HookEvent::OnOrphaned,
    ]
}

/// Every event, in the order in which they are listed.
pub fn all_events() -> (r: [HookEvent; 16])
    ensures
        r@ == event_list(),
        forall|e: HookEvent| #[trigger] r@.contains(e),
{
    let all = [
        HookEvent::PreSnapshot,
        HookEvent::PostSnapshot,
        HookEvent::PreDelete,
        HookEvent::PostDelete,
        HookEvent::PreAdopt,
        HookEvent::PostAdopt,
        HookEvent::StageChange,
        HookEvent::PreRecompress,
        HookEvent::PostRecompress,
        HookEvent::PreArchive,
        HookEvent::PostArchive,
        HookEvent::PreRollback,
        HookEvent::PostRollback,
        HookEvent::OnFreeze,
        HookEvent::OnShrinkDetected,
        HookEvent::OnOrphaned,
    ];
    assert forall|e: HookEvent| #[trigger] all@.contains(e) by {
        match e {
            HookEvent::PreSnapshot => assert(all@[0] == e),
            HookEvent::PostSnapshot => assert(all@[1] == e),
            HookEvent::PreDelete => assert(all@[2] == e),
            HookEvent::PostDelete => assert(all@[3] == e),
            HookEvent::PreAdopt => assert(all@[4] == e),
            HookEvent::PostAdopt => assert(all@[5] == e),
            HookEvent::StageChange => assert(all@[6] == e),
            HookEvent::PreRecompress => assert(all@[7] == e),
            HookEvent::PostRecompress => assert(all@[8] == e),
            HookEvent::PreArchive => assert(all@[9] == e),
            HookEvent::PostArchive => assert(all@[10] == e),
            HookEvent::PreRollback => assert(all@[11] == e),
            HookEvent::PostRollback => assert(all@[12] == e),
            HookEvent::OnFreeze => assert(all@[13] == e),
            HookEvent::OnShrinkDetected => assert(all@[14] == e),
            HookEvent::OnOrphaned => assert(all@[15] == e),
        }
    }
    assert(all@ =~= event_list());
    all
}

impl HookEvent {
    pub fn as_str(self) -> (r: &'static str)
        ensures
            r@ == event_name(self),
    {
        match self {
            HookEvent::PreSnapshot => "pre-snapshot",
            HookEvent::PostSnapshot => "post-snapshot",
            HookEvent::PreDelete => "pre-delete",
            HookEvent::PostDelete => "post-delete",
            HookEvent::PreAdopt => "pre-adopt",
            HookEvent::PostAdopt => "post-adopt",
            HookEvent::StageChange => "stage-change",
            HookEvent::PreRecompress => "pre-recompress",
            HookEvent::PostRecompress => "post-recompress",
            HookEvent::PreArchive => "pre-archive",
            HookEvent::PostArchive => "post-archive",
            HookEvent::PreRollback => "pre-rollback",
            HookEvent::PostRollback => "post-rollback",
            HookEvent::OnFreeze => "on-freeze",
            HookEvent::OnShrinkDetected => "on-shrink-detected",
            HookEvent::OnOrphaned => "on-orphaned",
        }
    }

    /// The event with the name `s`.
    pub fn parse(s: &str) -> (r: Option<HookEvent>)
        ensures
            match r {
                Some(e) => event_name(e) == s@,
                None => forall|e: HookEvent| event_name(e) != s@,
            },
    {
        let all = all_events();
        let mut i: usize = 0;
        while i < 16
            invariant
                i <= 16,
                forall|k: int| 0 <= k < i ==> event_name(#[trigger] all@[k]) != s@,
            decreases 16 - i,
        {
            if str_eq(all[i].as_str(), s) {
                return Some(all[i]);
            }
            i += 1;
        }
        assert forall|e: HookEvent| event_name(e) != s@ by {
            assert(all@.contains(e));
        }
        None
    }

    /// Whether a failing hook prevents what is about to happen.
    pub fn can_veto(self) -> (r: bool)
        ensures
            r == vetoes(self),
            r == starts(event_name(self), "pre-"@),
    {
        proof {
            lemma_pre_names(self);
        }
        starts_with(self.as_str(), "pre-")
    }
}

proof fn lemma_pre_names(e: HookEvent)
    ensures
        starts(event_name(e), "pre-"@) == vetoes(e),
{
    reveal_strlit("pre-");
    reveal_strlit("pre-snapshot");
    reveal_strlit("post-snapshot");
    reveal_strlit("pre-delete");
    reveal_strlit("post-delete");
    reveal_strlit("pre-adopt");
    reveal_strlit("post-adopt");
    reveal_strlit("stage-change");
    reveal_strlit("pre-recompress");
    reveal_strlit("post-recompress");
    reveal_strlit("pre-archive");
    reveal_strlit("post-archive");
    reveal_strlit("pre-rollback");
    reveal_strlit("post-rollback");
    reveal_strlit("on-freeze");
    reveal_strlit("on-shrink-detected");
    reveal_strlit("on-orphaned");
    let n = event_name(e);
    if vetoes(e) {
        assert(n.take(4) =~= "pre-"@);
    } else {
        assert(n.take(4)[0] == n[0]);
        assert(n.take(4)[1] == n[1]);
        assert("pre-"@[1] == 'r');
    }
}

/// No two events have the same name: reading the name of an event gives the event.
pub proof fn law_event_names_distinct(a: HookEvent, b: HookEvent)
    requires
        event_name(a) == event_name(b),
    ensures
        a == b,
{
    reveal_strlit("pre-snapshot");
    reveal_strlit("post-snapshot");
    reveal_strlit("pre-delete");
    reveal_strlit("post-delete");
    reveal_strlit("pre-adopt");
    reveal_strlit("post-adopt");
    reveal_strlit("stage-change");
    reveal_strlit("pre-recompress");
    reveal_strlit("post-recompress");
    reveal_strlit("pre-archive");
    reveal_strlit("post-archive");
    reveal_strlit("pre-rollback");
    reveal_strlit("post-rollback");
    reveal_strlit("on-freeze");
    reveal_strlit("on-shrink-detected");
    reveal_strlit("on-orphaned");
    let x = event_name(a);
    let y = event_name(b);
    assert(x.len() == y.len());
    assert(x[0] == y[0] && x[1] == y[1] && x[4] == y[4] && x[5] == y[5] && x[6] == y[6]);
}

/// What an event is about.
pub struct HookCtx {
    pub project: Option<String>,
    pub project_path: Option<String>,
    pub owner: Option<(u32, u32)>,
    pub root: Option<String>,
    pub snapshot: Option<(u64, String, SnapshotKind)>,
    pub stage: Option<(Stage, Stage)>,
    pub reason: String,
    pub extra: Vec<(String, String)>,
}

/// What a hook directory holds under one name.
pub struct HookFile {
    pub name: String,
    pub path: String,
    /// What the file system says of it, or why it does not.
    pub stat: Result<HookStat, String>,
}

#[derive(Clone, Copy, Debug, PartialEq, Eq, Structural)]
pub struct HookStat {
    pub is_file: bool,
    pub mode: u32,
    pub uid: u32,
}

#[derive(Clone, Copy, Debug, PartialEq, Eq, Structural)]
pub enum HookScope {
    Global,
    Project,
}

pub open spec fn scope_name(s: HookScope) -> Seq<char> {
    match s {
        HookScope::Global => "global"@,
        HookScope::Project => "project"@,
    }
}

impl HookScope {
    pub fn as_str(self) -> (r: &'static str)
        ensures
            r@ == scope_name(self),
    {
        match self {
            HookScope::Global => "global",
            HookScope::Project => "project",
        }
    }
}

/// A hook and whether it runs.
pub struct HookListing {
    pub event: String,
    pub path: String,
    pub scope: HookScope,
    pub will_run: bool,
    pub skip_reason: Option<String>,
}

/// Why a file does not run as a hook of a user, in the order in which it is asked.
pub open spec fn file_fault(stat: Result<HookStat, String>, uid: u32) -> Option<Seq<char>> {
    match stat {
        Err(e) => Some(e@),
        Ok(s) => if !s.is_file {
            Some("not a regular file"@)
        } else if s.mode & 0o111 == 0 {
            Some("not executable"@)
        } else if s.mode & 0o022 != 0 {
            Some("writable by group or others"@)
        } else if s.mode & 0o6000 != 0 {
            Some("setuid/setgid"@)
        } else if s.uid != uid {
            Some(
                "owned by uid "@ + dec(s.uid as nat) + " (expected "@ + dec(uid as nat) + ")"@,
            )
        } else {
            None
        },
    }
}

pub open spec fn fault_is(r: Result<(), String>, want: Option<Seq<char>>) -> bool {
    match r {
        Ok(_) => want is None,
        Err(m) => want == Some(m@),
    }
}

/// Whether a file runs as a hook of a user.
pub fn check_file(stat: &Result<HookStat, String>, expected_uid: u32) -> (r: Result<(), String>)
    ensures
        fault_is(r, file_fault(*stat, expected_uid)),
{
    match stat {
        Err(e) => Err(e.clone()),
        Ok(s) => {
            if !s.is_file {
                return Err("not a regular file".to_owned());
            }
            if s.mode & 0o111 == 0 {
                return Err("not executable".to_owned());
            }
            if s.mode & 0o022 != 0 {
                return Err("writable by group or others".to_owned());
            }
            if s.mode & 0o6000 != 0 {
                return Err("setuid/setgid".to_owned());
            }
            if s.uid != expected_uid {
                return Err(
                    cat5(
                        "owned by uid ",
                        dec_u64(s.uid as u64).as_str(),
                        " (expected ",
                        dec_u64(expected_uid as u64).as_str(),
                        ")",
                    ),
                );
            }
            Ok(())
        },
    }
}

/// Why the hooks of a project do not run.
pub open spec fn project_fault(
    mode: Seq<char>,
    allow: Seq<Seq<char>>,
    project: Seq<char>,
) -> Option<Seq<char>> {
    if mode == "on"@ {
        None
    } else if mode == "allowlist"@ {
        if allow.contains(project) {
            None
        } else {
            Some("project not in global.project_hooks_allow"@)
        }
    } else {
        Some("global.project_hooks = off"@)
    }
}

/// Whether the hooks of a project run.
pub fn project_hooks_allowed(mode: &str, allow: &Vec<String>, project: &str) -> (r: Result<
    (),
    String,
>)
    ensures
        fault_is(r, project_fault(mode@, texts(allow@), project@)),
{
    if str_eq(mode, "on") {
        Ok(())
    } else if str_eq(mode, "allowlist") {
        if list_has(allow, project) {
            Ok(())
        } else {
            Err("project not in global.project_hooks_allow".to_owned())
        }
    } else {
        Err("global.project_hooks = off".to_owned())
    }
}

/// The listing of one hook.
pub open spec fn listed(
    l: HookListing,
    event: HookEvent,
    f: HookFile,
    scope: HookScope,
    fault: Option<Seq<char>>,
) -> bool {
    &&& l.event@ == event_name(event)
    &&& l.path@ == f.path@
    &&& l.scope == scope
    &&& l.will_run == (fault is None)
    &&& match l.skip_reason {
        Some(m) => fault == Some(m@),
        None => fault is None,
    }
}

/// The positions among the first `n` files whose name is not hidden.
pub open spec fn visible_upto(f: Seq<HookFile>, n: int) -> Seq<int>
    decreases n,
{
    if n <= 0 {
        Seq::empty()
    } else {
        let rest = visible_upto(f, n - 1);
        if f[n - 1].name@.len() > 0 && f[n - 1].name@[0] == '.' {
            rest
        } else {
            rest.push(n - 1)
        }
    }
}

/// Why a hook of a project does not run: its project's hooks do not, or its file does not.
pub open spec fn project_file_fault(
    mode: Seq<char>,
    allow: Seq<Seq<char>>,
    project: Seq<char>,
    stat: Result<HookStat, String>,
    uid: u32,
) -> Option<Seq<char>> {
    match project_fault(mode, allow, project) {
        Some(m) => Some(m),
        None => file_fault(stat, uid),
    }
}

/// The hooks of the machine and of a project on an event. `owner` names the project with the
/// user that its hooks have to belong to.
pub fn list(
    event: HookEvent,
    global: &Vec<HookFile>,
    root_uid: u32,
    project: &Vec<HookFile>,
    owner: Option<(&str, u32)>,
    mode: &str,
    allow: &Vec<String>,
) -> (r: Vec<HookListing>)
    ensures
        ({
            let g = visible_upto(global@, global@.len() as int);
            let p = if owner is Some {
                visible_upto(project@, project@.len() as int)
            } else {
                Seq::empty()
            };
            &&& r@.len() == g.len() + p.len()
            &&& forall|k: int|
                0 <= k < g.len() ==> listed(
                    #[trigger] r@[k],
                    event,
                    global@[g[k]],
                    HookScope::Global,
                    file_fault(global@[g[k]].stat, root_uid),
                )
            &&& forall|k: int|
                g.len() <= k < r@.len() ==> listed(
                    #[trigger] r@[k],
                    event,
                    project@[p[k - g.len()]],
                    HookScope::Project,
                    project_file_fault(
                        mode@,
                        texts(allow@),
                        (owner->0).0@,
                        project@[p[k - g.len()]].stat,
                        (owner->0).1,
                    ),
                )
        }),
{
    let mut out: Vec<HookListing> = Vec::new();
    let mut i: usize = 0;
    while i < global.len()
        invariant
            i <= global@.len(),
            out@.len() == visible_upto(global@, i as int).len(),
            forall|k: int|
                0 <= k < out@.len() ==> listed(
                    #[trigger] out@[k],
                    event,
                    global@[visible_upto(global@, i as int)[k]],
                    HookScope::Global,
                    file_fault(global@[visible_upto(global@, i as int)[k]].stat, root_uid),
                ),
        decreases global@.len() - i,
    {
        let f = &global[i];
        let v = chars_of(f.name.as_str());
        if !(v.len() > 0 && v[0] == '.') {
            let res = check_file(&f.stat, root_uid);
            let (will_run, skip_reason) = match res {
                Ok(_) => (true, None),
                Err(m) => (false, Some(m)),
            };
            out.push(
                HookListing {
                    event: event.as_str().to_owned(),
                    path: f.path.clone(),
                    scope: HookScope::Global,
                    will_run,
                    skip_reason,
                },
            );
        }
        i += 1;
    }
    let ghost g = visible_upto(global@, global@.len() as int);
    if let Some((name, uid)) = owner {
        let mut i: usize = 0;
        while i < project.len()
            invariant
                i <= project@.len(),
                owner == Some((name, uid)),
                g == visible_upto(global@, global@.len() as int),
                out@.len() == g.len() + visible_upto(project@, i as int).len(),
                forall|k: int|
                    0 <= k < g.len() ==> listed(
                        #[trigger] out@[k],
                        event,
                        global@[g[k]],
                        HookScope::Global,
                        file_fault(global@[g[k]].stat, root_uid),
                    ),
                forall|k: int|
                    g.len() <= k < out@.len() ==> listed(
                        #[trigger] out@[k],
                        event,
                        project@[visible_upto(project@, i as int)[k - g.len()]],
                        HookScope::Project,
                        project_file_fault(
                            mode@,
                            texts(allow@),
                            name@,
                            project@[visible_upto(project@, i as int)[k - g.len()]].stat,
                            uid,
                        ),
                    ),
            decreases project@.len() - i,
        {
            let f = &project[i];
            let v = chars_of(f.name.as_str());
            if !(v.len() > 0 && v[0] == '.') {
                let res = match project_hooks_allowed(mode, allow, name) {
                    Err(m) => Err(m),
                    Ok(_) => check_file(&f.stat, uid),
                };
                let (will_run, skip_reason) = match res {
                    Ok(_) => (true, None),
                    Err(m) => (false, Some(m)),
                };
                out.push(
                    HookListing {
                        event: event.as_str().to_owned(),
                        path: f.path.clone(),
                        scope: HookScope::Project,
                        will_run,
                        skip_reason,
                    },
                );
            }
            i += 1;
        }
    }
    out
}

/// The value of the last pair with a name.
pub open spec fn last_value(p: Seq<(Seq<char>, Seq<char>)>, k: Seq<char>) -> Option<Seq<char>>
    decreases p.len(),
{
    if p.len() == 0 {
        None
    } else if p.last().0 == k {
        Some(p.last().1)
    } else {
        last_value(p.drop_last(), k)
    }
}

/// A map holds for each name the value of the last pair with it.
pub open spec fn holds_pairs(m: Map<Seq<char>, String>, p: Seq<(Seq<char>, Seq<char>)>) -> bool {
    forall|k: Seq<char>|
        {
            &&& #[trigger] m.contains_key(k) <==> last_value(p, k) is Some
            &&& m.contains_key(k) ==> last_value(p, k) == Some(m[k]@)
        }
}

fn put(
    env: &mut StrMap<String>,
    k: &str,
    v: &str,
    Ghost(p): Ghost<Seq<(Seq<char>, Seq<char>)>>,
)
    requires
        holds_pairs(old(env)@, p),
    ensures
        holds_pairs(final(env)@, p.push((k@, v@))),
{
    let ghost before = env@;
    env.insert(k.to_owned(), v.to_owned());
    proof {
        let q = p.push((k@, v@));
        assert(q.drop_last() =~= p);
        assert forall|n: Seq<char>|
            {
                &&& #[trigger] env@.contains_key(n) <==> last_value(q, n) is Some
                &&& env@.contains_key(n) ==> last_value(q, n) == Some(env@[n]@)
            } by {
            assert(before.contains_key(n) <==> last_value(p, n) is Some);
        }
    }
}

pub open spec fn opt_or_empty(s: Option<String>) -> Seq<char> {
    match s {
        Some(x) => x@,
        None => Seq::empty(),
    }
}

pub open spec fn pair_views(v: Seq<(String, String)>) -> Seq<(Seq<char>, Seq<char>)> {
    Seq::new(v.len(), |i: int| (v[i].0@, v[i].1@))
}

/// The environment of a hook, name by name; later ones replace earlier ones.
pub open spec fn env_pairs(
    event: HookEvent,
    h: HookCtx,
    scope: HookScope,
    dry_run: bool,
    user: Seq<char>,
) -> Seq<(Seq<char>, Seq<char>)> {
    seq![
        ("BPM_EVENT"@, event_name(event)),
        ("BPM_HOOK_SCOPE"@, scope_name(scope)),
        (
            "BPM_DRY_RUN"@,
            if dry_run {
                "1"@
            } else {
                "0"@
            },
        ),
        ("BPM_INVOKER"@, user),
        ("BPM_REASON"@, h.reason@),
        ("BPM_PROJECT"@, opt_or_empty(h.project)),
        ("BPM_PROJECT_PATH"@, opt_or_empty(h.project_path)),
        ("BPM_ROOT"@, opt_or_empty(h.root)),
    ] + (match h.snapshot {
        Some(s) => seq![
            ("BPM_SNAPSHOT_ID"@, dec(s.0 as nat)),
            ("BPM_SNAPSHOT_PATH"@, s.1@),
            ("BPM_SNAPSHOT_KIND"@, kind_name(s.2)),
        ],
        None => seq![],
    }) + (match h.stage {
        Some(s) => seq![
            ("BPM_STAGE_FROM"@, stage_name(s.0)),
            ("BPM_STAGE_TO"@, stage_name(s.1)),
        ],
        None => seq![],
    }) + pair_views(h.extra@)
}

fn text_or_empty(s: &Option<String>) -> (r: String)
    ensures
        r@ == opt_or_empty(*s),
{
    match s {
        Some(x) => x.clone(),
        None => String::new(),
    }
}

/// The environment of a hook.
pub fn env_for(
    event: HookEvent,
    h: &HookCtx,
    scope: HookScope,
    dry_run: bool,
    user: &str,
) -> (env: StrMap<String>)
    ensures
        holds_pairs(env@, env_pairs(event, *h, scope, dry_run, user@)),
{
    let mut env: StrMap<String> = StrMap::new();
    let ghost p0 = Seq::<(Seq<char>, Seq<char>)>::empty();
    assert(holds_pairs(env@, p0));
    put(&mut env, "BPM_EVENT", event.as_str(), Ghost(p0));
    let ghost p1 = p0.push(("BPM_EVENT"@, event_name(event)));
    put(&mut env, "BPM_HOOK_SCOPE", scope.as_str(), Ghost(p1));
    let ghost p2 = p1.push(("BPM_HOOK_SCOPE"@, scope_name(scope)));
    let dry = if dry_run {
        "1"
    } else {
        "0"
    };
    put(&mut env, "BPM_DRY_RUN", dry, Ghost(p2));
    let ghost p3 = p2.push(("BPM_DRY_RUN"@, dry@));
    put(&mut env, "BPM_INVOKER", user, Ghost(p3));
    let ghost p4 = p3.push(("BPM_INVOKER"@, user@));
    put(&mut env, "BPM_REASON", h.reason.as_str(), Ghost(p4));
    let ghost p5 = p4.push(("BPM_REASON"@, h.reason@));
    put(&mut env, "BPM_PROJECT", text_or_empty(&h.project).as_str(), Ghost(p5));
    let ghost p6 = p5.push(("BPM_PROJECT"@, opt_or_empty(h.project)));
    put(&mut env, "BPM_PROJECT_PATH", text_or_empty(&h.project_path).as_str(), Ghost(p6));
    let ghost p7 = p6.push(("BPM_PROJECT_PATH"@, opt_or_empty(h.project_path)));
    put(&mut env, "BPM_ROOT", text_or_empty(&h.root).as_str(), Ghost(p7));
    let ghost mut p = p7.push(("BPM_ROOT"@, opt_or_empty(h.root)));
    let ghost base = p;
    if let Some((id, path, kind)) = &h.snapshot {
        put(&mut env, "BPM_SNAPSHOT_ID", dec_u64(*id).as_str(), Ghost(p));
        proof {
            p = p.push(("BPM_SNAPSHOT_ID"@, dec(*id as nat)));
        }
        put(&mut env, "BPM_SNAPSHOT_PATH", path.as_str(), Ghost(p));
        proof {
            p = p.push(("BPM_SNAPSHOT_PATH"@, path@));
        }
        put(&mut env, "BPM_SNAPSHOT_KIND", kind.as_str(), Ghost(p));
        proof {
            p = p.push(("BPM_SNAPSHOT_KIND"@, kind_name(*kind)));
        }
    }
    if let Some((from, to)) = h.stage {
        put(&mut env, "BPM_STAGE_FROM", from.as_str(), Ghost(p));
        proof {
            p = p.push(("BPM_STAGE_FROM"@, stage_name(from)));
        }
        put(&mut env, "BPM_STAGE_TO", to.as_str(), Ghost(p));
        proof {
            p = p.push(("BPM_STAGE_TO"@, stage_name(to)));
        }
    }
    let ghost fixed = p;
    let ghost more = pair_views(h.extra@);
    let mut i: usize = 0;
    assert(fixed + more.take(0) =~= fixed);
    while i < h.extra.len()
        invariant
            i <= h.extra@.len(),
            more == pair_views(h.extra@),
            p == fixed + more.take(i as int),
            holds_pairs(env@, p),
        decreases h.extra@.len() - i,
    {
        put(&mut env, h.extra[i].0.as_str(), h.extra[i].1.as_str(), Ghost(p));
        proof {
            p = p.push(more[i as int]);
            assert(p =~= fixed + more.take(i + 1));
        }
        i += 1;
    }
    proof {
        assert(more.take(more.len() as int) =~= more);
        assert(p =~= env_pairs(event, *h, scope, dry_run, user@));
    }
    env
}

/// How a hook ended.
#[derive(Clone, Copy, Debug, PartialEq, Eq, Structural)]
pub enum HookExit {
    TimedOut,
    Code(i32),
    Signal,
}

/// What the end of a hook means: why it counts as failed.
pub open spec fn exit_fault(exit: HookExit, timeout: Duration, stderr: Seq<char>) -> Option<
    Seq<char>,
> {
    match exit {
        HookExit::TimedOut => Some(
            "timed out after "@ + outside::duration_written(timeout.ns as nat),
        ),
        HookExit::Code(c) => if c == 0 {
            None
        } else {
            Some("exit "@ + dec_int(c as int) + ": "@ + trimmed(stderr))
        },
        HookExit::Signal => Some("exit signal: "@ + trimmed(stderr)),
    }
}

/// As whom a hook runs: one of a project as the owner of the project, others as root.
pub fn runs_as(scope: HookScope, owner: Option<(u32, u32)>) -> (r: Option<(u32, u32)>)
    ensures
        r == if scope == HookScope::Project {
            owner
        } else {
            None
        },
{
    match scope {
        HookScope::Project => owner,
        HookScope::Global => None,
    }
}

/// Where a hook runs: in the directory of the project, or else in that of the root, or else in
/// that of the file system.
pub fn hook_cwd(project_dir: Option<&str>, root: Option<&str>) -> (r: String)
    ensures
        r@ == match (project_dir, root) {
            (Some(p), _) => p@,
            (None, Some(d)) => d@,
            (None, None) => "/"@,
        },
{
    match (project_dir, root) {
        (Some(p), _) => p.to_owned(),
        (None, Some(d)) => d.to_owned(),
        (None, None) => "/".to_owned(),
    }
}

/// The home of a hook, by as whom it runs.
pub fn hook_home(run_as: Option<(u32, u32)>) -> (r: String)
    ensures
        r@ == if run_as is Some {
            "/tmp"@
        } else {
            "/root"@
        },
{
    match run_as {
        Some(_) => "/tmp".to_owned(),
        None => "/root".to_owned(),
    }
}

/// What is done about a hook that was started.
#[derive(Clone, Copy, Debug, PartialEq, Eq, Structural)]
pub enum WaitStep {
    /// It ended in time.
    Done,
    /// Look again after this long.
    Sleep(Duration),
    /// Ask it to stop: its time is over.
    Stop,
    /// Kill what is left of it: it timed out.
    Kill,
}

/// How long a hook has to stop after it was asked to.
pub const STOP_GRACE_NS: u128 = 5_000_000_000;

/// What is done about a hook that was started.
pub open spec fn next_wait(
    ended: bool,
    waited: Duration,
    timeout: Duration,
    stopping: Option<Duration>,
) -> WaitStep {
    match stopping {
        None => if ended {
            WaitStep::Done
        } else if waited.ns > timeout.ns {
            WaitStep::Stop
        } else {
            WaitStep::Sleep(Duration { ns: 20_000_000 })
        },
        Some(grace) => if ended || grace.ns >= STOP_GRACE_NS {
            WaitStep::Kill
        } else {
            WaitStep::Sleep(Duration { ns: 50_000_000 })
        },
    }
}

/// What is done about a hook that was started `waited` ago; `stopping` is how long ago it was
/// asked to stop. Once it was asked to, it counts as timed out, however it ends.
pub fn wait_step(ended: bool, waited: Duration, timeout: Duration, stopping: Option<Duration>) -> (r:
    WaitStep)
    ensures
        match stopping {
            None => r == if ended {
                WaitStep::Done
            } else if waited.ns > timeout.ns {
                WaitStep::Stop
            } else {
                WaitStep::Sleep(Duration { ns: 20_000_000 })
            },
            Some(grace) => r == if ended || grace.ns >= STOP_GRACE_NS {
                WaitStep::Kill
            } else {
                WaitStep::Sleep(Duration { ns: 50_000_000 })
            },
        },
        r == next_wait(ended, waited, timeout, stopping),
{
    match stopping {
        None => if ended {
            WaitStep::Done
        } else if waited.ns > timeout.ns {
            WaitStep::Stop
        } else {
            WaitStep::Sleep(Duration { ns: 20_000_000 })
        },
        Some(grace) => if ended || grace.ns >= STOP_GRACE_NS {
            WaitStep::Kill
        } else {
            WaitStep::Sleep(Duration { ns: 50_000_000 })
        },
    }
}

/// What the end of a hook means.
pub fn hook_outcome(exit: HookExit, timeout: Duration, stderr: &str) -> (r: Result<(), String>)
    requires
        timeout.ns / 1_000_000_000 <= u64::MAX,
    ensures
        fault_is(r, exit_fault(exit, timeout, stderr@)),
{
    match exit {
        HookExit::TimedOut => Err(cat2("timed out after ", show_dur(timeout).as_str())),
        HookExit::Code(c) => if c == 0 {
            Ok(())
        } else {
            Err(cat4("exit ", dec_i32(c).as_str(), ": ", trim(stderr).as_str()))
        },
        HookExit::Signal => Err(cat2("exit signal: ", trim(stderr).as_str())),
    }
}

/// What to do about one listed hook.
#[derive(Clone, Copy, Debug, PartialEq, Eq, Structural)]
pub enum HookStep {
    Run,
    /// Not run; said aloud.
    SkipWarn,
    /// Not run; not worth a word.
    SkipQuiet,
}

/// What to do about one listed hook: a skipped one is worth a word unless the project's hooks
/// are off altogether.
pub fn hook_step(l: &HookListing, mode: &str) -> (r: HookStep)
    ensures
        r == if l.will_run {
            HookStep::Run
        } else if l.scope == HookScope::Global || mode@ != "off"@ {
            HookStep::SkipWarn
        } else {
            HookStep::SkipQuiet
        },
{
    if l.will_run {
        HookStep::Run
    } else if l.scope == HookScope::Global || !str_eq(mode, "off") {
        HookStep::SkipWarn
    } else {
        HookStep::SkipQuiet
    }
}

/// What the failure of a hook means: an event before something happens is vetoed, any other
/// goes on.
pub fn hook_failed(event: HookEvent, path: &str, detail: &str) -> (r: Result<(), BpmError>)
    ensures
        match r {
            Ok(_) => !vetoes(event),
            Err(e) => vetoes(event) && e is HookVeto && e->hook@ == path@ && e->detail@ == detail@,
        },
{
    if event.can_veto() {
        Err(BpmError::HookVeto { hook: path.to_owned(), detail: detail.to_owned() })
    } else {
        Ok(())
    }
}

/// A file runs as a hook where it is a regular file that can be executed, that neither its group
/// nor others can write to, that does not change whom it runs as, and that belongs to the user.
pub proof fn law_hooks_run_only_from_safe_files(stat: Result<HookStat, String>, uid: u32)
    ensures
        file_fault(stat, uid) is None <==> (stat matches Ok(s) && s.is_file && s.uid == uid && (
        s.mode & 0o100 != 0 || s.mode & 0o010 != 0 || s.mode & 0o001 != 0) && s.mode & 0o020 == 0
            && s.mode & 0o002 == 0 && s.mode & 0o4000 == 0 && s.mode & 0o2000 == 0),
{
    if stat is Ok {
        let m: u32 = stat->Ok_0.mode;
        assert((m & 0o111 == 0) <==> (m & 0o100 == 0 && m & 0o010 == 0 && m & 0o001 == 0))
            by (bit_vector);
        assert((m & 0o022 == 0) <==> (m & 0o020 == 0 && m & 0o002 == 0)) by (bit_vector);
        assert((m & 0o6000 == 0) <==> (m & 0o4000 == 0 && m & 0o2000 == 0)) by (bit_vector);
    }
}

/// The hooks of a project run where they are switched on for all, or for a list that the project
/// is on; a hook of a project runs where its file does as well.
pub proof fn law_project_hooks_run_where_allowed(
    mode: Seq<char>,
    allow: Seq<Seq<char>>,
    project: Seq<char>,
    stat: Result<HookStat, String>,
    uid: u32,
)
    ensures
        project_fault(mode, allow, project) is None <==> mode == "on"@ || (mode == "allowlist"@
            && allow.contains(project)),
        project_file_fault(mode, allow, project, stat, uid) is None <==> project_fault(
            mode,
            allow,
            project,
        ) is None && file_fault(stat, uid) is None,
{
}

/// Hooks are the files whose names do not begin with a dot, each once and in their order.
pub proof fn law_hidden_files_are_no_hooks(f: Seq<HookFile>, n: int)
    requires
        0 <= n <= f.len(),
    ensures
        forall|i: int|
            #![trigger f[i]]
            visible_upto(f, n).contains(i) <==> 0 <= i < n && (f[i].name@.len() > 0
                ==> f[i].name@[0] != '.'),
        forall|j: int, k: int|
            0 <= j < k < visible_upto(f, n).len() ==> #[trigger] visible_upto(f, n)[j]
                < #[trigger] visible_upto(f, n)[k],
    decreases n,
{
    if n > 0 {
        law_hidden_files_are_no_hooks(f, n - 1);
        let q = visible_upto(f, n - 1);
        let p = visible_upto(f, n);
        assert forall|i: int|
            #![trigger f[i]]
            p.contains(i) <==> 0 <= i < n && (f[i].name@.len() > 0 ==> f[i].name@[0] != '.') by {
            if q.contains(i) {
                let j = choose|j: int| 0 <= j < q.len() && q[j] == i;
                assert(p[j] == i);
            }
            if p.contains(i) {
                let j = choose|j: int| 0 <= j < p.len() && p[j] == i;
                if j < q.len() {
                    assert(q[j] == i);
                }
            }
            if i == n - 1 && (f[i].name@.len() > 0 ==> f[i].name@[0] != '.') {
                assert(p[q.len() as int] == i);
            }
        }
        assert forall|j: int, k: int| 0 <= j < k < p.len() implies #[trigger] p[j]
            < #[trigger] p[k] by {
            if k == q.len() {
                assert(q.contains(q[j]));
                let w = f[q[j]];
            }
        }
    } else {
        assert(visible_upto(f, n).len() == 0);
    }
}

/// A hook that is told a name twice sees the later value.
pub proof fn law_later_values_win(
    p: Seq<(Seq<char>, Seq<char>)>,
    k: Seq<char>,
    v: Seq<char>,
    other: Seq<char>,
)
    ensures
        last_value(Seq::empty(), k) is None,
        last_value(p.push((k, v)), k) == Some(v),
        other != k ==> last_value(p.push((k, v)), other) == last_value(p, other),
{
    assert(p.push((k, v)).drop_last() =~= p);
}

/// A hook is told the snapshot and the change of stage that it is about, the stage that is left
/// first, and whatever else comes with the event last.
pub proof fn law_hooks_are_told_what_it_is_about(
    event: HookEvent,
    h: HookCtx,
    scope: HookScope,
    dry_run: bool,
    user: Seq<char>,
)
    ensures
        ({
            let e = env_pairs(event, h, scope, dry_run, user);
            let n: int = if h.snapshot is Some {
                11
            } else {
                8
            };
            let m = if h.stage is Some {
                n + 2
            } else {
                n
            };
            &&& e.len() == m + h.extra@.len()
            &&& e[0] == ("BPM_EVENT"@, event_name(event))
            &&& e[2].1 == if dry_run {
                "1"@
            } else {
                "0"@
            }
            &&& h.project matches Some(p) ==> e[5] == ("BPM_PROJECT"@, p@)
            &&& h.project_path matches Some(p) ==> e[6] == ("BPM_PROJECT_PATH"@, p@)
            &&& h.snapshot matches Some(s) ==> e[8] == ("BPM_SNAPSHOT_ID"@, dec(s.0 as nat)) && e[9]
                == ("BPM_SNAPSHOT_PATH"@, s.1@)
            &&& h.stage matches Some(s) ==> e[n] == ("BPM_STAGE_FROM"@, stage_name(s.0)) && e[n + 1]
                == ("BPM_STAGE_TO"@, stage_name(s.1))
            &&& forall|i: int|
                0 <= i < h.extra@.len() ==> e[m + i] == (
                    (#[trigger] h.extra@[i]).0@,
                    h.extra@[i].1@,
                )
        }),
{
}

/// A hook went well where it ended by itself with zero.
pub proof fn law_only_zero_is_success(exit: HookExit, timeout: Duration, stderr: Seq<char>)
    ensures
        exit_fault(exit, timeout, stderr) is None <==> (exit matches HookExit::Code(c) && c == 0),
{
}

/// A hook that ends by itself is done, however long it took. One that does not is asked to stop
/// once its time is over, and killed no sooner than five seconds after that unless it ends.
pub proof fn law_hooks_are_asked_to_stop_before_they_are_killed(
    ended: bool,
    waited: Duration,
    timeout: Duration,
    grace: Duration,
)
    ensures
        next_wait(true, waited, timeout, None) is Done,
        next_wait(false, waited, timeout, None) is Stop <==> timeout.ns < waited.ns,
        next_wait(false, waited, timeout, None) is Sleep <==> waited.ns <= timeout.ns,
        next_wait(ended, waited, timeout, Some(grace)) is Kill <==> ended || grace.ns >= 5
            * 1_000_000_000,
        next_wait(ended, waited, timeout, Some(grace)) is Kill || next_wait(
            ended,
            waited,
            timeout,
            Some(grace),
        ) is Sleep,
{
}

} // verus!
