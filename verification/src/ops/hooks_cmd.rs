//! `hooks list|run`.

use vstd::prelude::*;

use crate::error::BpmError;
use crate::hooks::{all_events, HookCtx, HookEvent, HookListing};
#[allow(unused_imports)]
use crate::hooks::{event_list, event_name, scope_name};
use crate::outside;
use crate::output::Table;
#[allow(unused_imports)]
use crate::output::{row_texts, table_text};
use crate::project::ProjectRef;
use crate::util::text::{cat2, cat4, cat5, join};
#[allow(unused_imports)]
use crate::util::text::{joined, texts};

verus! {

/// The row of a hook.
pub open spec fn hook_row(l: HookListing) -> Seq<Seq<char>> {
    seq![
        l.event@,
        scope_name(l.scope),
        if l.will_run {
            "yes"@
        } else {
            "no: "@ + (match l.skip_reason {
                Some(s) => s@,
                None => Seq::empty(),
            })
        },
        l.path@,
    ]
}

/// The rows of all hooks.
pub open spec fn hook_rows(l: Seq<HookListing>) -> Seq<Seq<Seq<char>>> {
    Seq::new(l.len(), |i: int| hook_row(l[i]))
}

/// The names of events.
pub open spec fn event_names(e: Seq<HookEvent>) -> Seq<Seq<char>> {
    Seq::new(e.len(), |i: int| event_name(e[i]))
}

/// The names of every event, in the order in which they are listed.
pub fn all_names() -> (r: Vec<String>)
    ensures
        texts(r@) == event_names(event_list()),
{
    let all = all_events();
    let ghost names = event_names(all@);
    let mut out: Vec<String> = Vec::new();
    let mut i: usize = 0;
    assert(texts(out@) =~= names.take(0));
    while i < 16
        invariant
            i <= 16,
            names == event_names(all@),
            texts(out@) == names.take(i as int),
        decreases 16 - i,
    {
        let ghost before = texts(out@);
        out.push(all[i].as_str().to_owned());
        assert(texts(out@) =~= before.push(names[i as int]));
        assert(names.take(i + 1) =~= before.push(names[i as int]));
        i += 1;
    }
    assert(names.take(i as int) =~= names);
    out
}

/// What is printed of the hooks.
pub open spec fn hooks_text(l: Seq<HookListing>, hooks_dir: Seq<char>) -> Seq<char> {
    if l.len() == 0 {
        "no hooks installed (global dir "@ + hooks_dir + "; events: "@ + joined(
            event_names(event_list()),
            ", "@,
        ) + ")"@
    } else {
        table_text(seq!["EVENT"@, "SCOPE"@, "RUNS"@, "PATH"@], hook_rows(l))
    }
}

/// What is printed of the hooks.
pub fn list_text(l: &Vec<HookListing>, hooks_dir: &str) -> (r: String)
    ensures
        r@ == hooks_text(l@, hooks_dir@),
{
    if l.len() == 0 {
        return cat5(
            "no hooks installed (global dir ",
            hooks_dir,
            "; events: ",
            join(&all_names(), ", ").as_str(),
            ")",
        );
    }
    let mut t = Table::new(&["EVENT", "SCOPE", "RUNS", "PATH"]);
    assert(texts(t.headers@) =~= seq!["EVENT"@, "SCOPE"@, "RUNS"@, "PATH"@]);
    let ghost rows = hook_rows(l@);
    let mut i: usize = 0;
    assert(row_texts(t.rows@) =~= rows.take(0));
    while i < l.len()
        invariant
            i <= l@.len(),
            rows == hook_rows(l@),
            texts(t.headers@) == seq!["EVENT"@, "SCOPE"@, "RUNS"@, "PATH"@],
            row_texts(t.rows@) == rows.take(i as int),
        decreases l@.len() - i,
    {
        let ghost before = row_texts(t.rows@);
        let x = &l[i];
        let runs = if x.will_run {
            "yes".to_owned()
        } else {
            let why = match &x.skip_reason {
                Some(s) => s.clone(),
                None => String::new(),
            };
            cat2("no: ", why.as_str())
        };
        let mut cells: Vec<String> = Vec::new();
        cells.push(x.event.clone());
        cells.push(x.scope.as_str().to_owned());
        cells.push(runs);
        cells.push(x.path.clone());
        assert(runs@ =~= hook_row(*x)[2]);
        assert(texts(cells@) =~= rows[i as int]);
        t.row(cells);
        assert(row_texts(t.rows@) =~= before.push(rows[i as int]));
        assert(rows.take(i + 1) =~= before.push(rows[i as int]));
        i += 1;
    }
    assert(rows.take(i as int) =~= rows);
    t.render()
}

/// The event that is run by hand.
pub fn parse_event(s: &str) -> (r: Result<HookEvent, BpmError>)
    ensures
        match r {
            Ok(e) => event_name(e) == s@,
            Err(e) => (forall|x: HookEvent| event_name(x) != s@) && e is Usage && e->Usage_0@
                == "unknown event "@ + outside::quoted(s@),
        },
{
    match HookEvent::parse(s) {
        Some(e) => Ok(e),
        None => Err(BpmError::Usage(cat2("unknown event ", outside::quote(s).as_str()))),
    }
}

/// What hooks are told that are run by hand.
pub fn run_hook(pref: &ProjectRef) -> (r: HookCtx)
    ensures
        r.project is Some && r.project->0@ == pref.unit.name@,
        r.project_path is Some && r.project_path->0@ == pref.record.path@,
        r.owner == Some((pref.record.owner_uid, pref.record.owner_gid)),
        r.root is Some && r.root->0@ == pref.root.path@,
        r.snapshot is None && r.stage is None,
        r.reason@ == "bpm hooks run"@,
        r.extra@.len() == 0,
{
    HookCtx {
        project: Some(pref.unit.name.clone()),
        project_path: Some(pref.record.path.clone()),
        owner: Some((pref.record.owner_uid, pref.record.owner_gid)),
        root: Some(pref.root.path.clone()),
        snapshot: None,
        stage: None,
        reason: "bpm hooks run".to_owned(),
        extra: Vec::new(),
    }
}

/// What is printed of hooks that were run by hand.
pub fn ran_text(event: HookEvent, name: &str) -> (r: String)
    ensures
        r@ == event_name(event) + " hooks for "@ + name@ + " ran successfully"@,
{
    cat4(event.as_str(), " hooks for ", name, " ran successfully")
}

} // verus!
