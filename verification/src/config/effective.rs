//! The configuration of one project: every layer over the one below it.

use vstd::prelude::*;

use crate::config::merge::{deep_merge, detect_profiles, find_profile, policy_part, Builtin};
#[allow(unused_imports)]
use crate::config::merge::{
    config_wf, detected, leaf_name, noted, policy_names, profile_named,
};
use crate::config::schema::{Config, Policy, ProfileSel, ProjectOverride, RootCfg};
#[allow(unused_imports)]
use crate::config::schema::{selected, ProfileCfg};
use crate::config::value::{copy_table, copy_value, find_name, Table, Value};
#[allow(unused_imports)]
use crate::config::value::{
    distinct, has_name, lemma_entry, lemma_push_entry, model, overlaid, position, table_model,
    table_wf, wf, Model,
};
use crate::outside;
use crate::util::relpath::{rel_has, safe_relative, RelPath};
#[allow(unused_imports)]
use crate::util::relpath::{rel_texts, relative};
use crate::util::strmap::StrMap;
use crate::util::text::{cat2, cat3, cat4, copy_list, list_has, str_eq};
#[allow(unused_imports)]
use crate::util::text::{lemma_either_has, lemma_last_or_before, texts};

verus! {

/// The texts among the items of a list.
pub open spec fn texts_in(l: Seq<Model>) -> Seq<Seq<char>>
    decreases l.len(),
{
    if l.len() == 0 {
        Seq::empty()
    } else {
        match l.last() {
            Model::Text(s) => texts_in(l.drop_last()).push(s),
            _ => texts_in(l.drop_last()),
        }
    }
}

/// The texts of the list under a name; none where there is no list.
pub open spec fn texts_under(m: Map<Seq<char>, Model>, key: Seq<char>) -> Seq<Seq<char>> {
    if m.contains_key(key) {
        match m[key] {
            Model::List(l) => texts_in(l),
            _ => Seq::empty(),
        }
    } else {
        Seq::empty()
    }
}

/// The texts of the list under a name.
fn str_list(t: &Table, key: &str) -> (r: Vec<String>)
    requires
        table_wf(*t),
    ensures
        texts(r@) == texts_under(table_model(*t), key@),
{
    let mut out: Vec<String> = Vec::new();
    assert(texts(out@) =~= Seq::<Seq<char>>::empty());
    match find_name(t, key) {
        None => out,
        Some(p) => {
            proof {
                lemma_entry(*t, p as int);
            }
            match &t.entries[p].1 {
                Value::List(l) => {
                    let ghost items = model(t.entries@[p as int].1)->List_0;
                    let mut i: usize = 0;
                    assert(items.take(0) =~= Seq::<Model>::empty());
                    while i < l.len()
                        invariant
                            i <= l@.len(),
                            items.len() == l@.len(),
                            forall|k: int| 0 <= k < l@.len() ==> #[trigger] items[k] == model(l@[k]),
                            texts(out@) == texts_in(items.take(i as int)),
                        decreases l@.len() - i,
                    {
                        assert(items.take(i + 1).drop_last() =~= items.take(i as int));
                        assert(items.take(i + 1).last() == model(l@[i as int]));
                        if let Value::Text(s) = &l[i] {
                            let ghost before = texts(out@);
                            out.push(s.clone());
                            assert(texts(out@) =~= before.push(s@));
                        }
                        i += 1;
                    }
                    assert(items.take(items.len() as int) =~= items);
                    out
                },
                _ => out,
            }
        },
    }
}

/// The settings that a file in a project may not make: it is written by whatever works in the
/// project, and these decide whether deletions are noticed and how long history is kept.
pub open spec fn protected_key(k: Seq<char>) -> bool {
    k == "shrink_guard"@ || k == "thin"@
}

/// The names of a table without the protected ones.
pub open spec fn unprotected(m: Map<Seq<char>, Model>) -> Map<Seq<char>, Model> {
    m.remove("shrink_guard"@).remove("thin"@)
}

/// The protected settings that a table makes.
pub open spec fn ignored_names(m: Map<Seq<char>, Model>) -> Seq<Seq<char>> {
    (if m.contains_key("shrink_guard"@) {
        seq!["policy.shrink_guard"@]
    } else {
        seq![]
    }) + (if m.contains_key("thin"@) {
        seq!["policy.thin"@]
    } else {
        seq![]
    })
}

/// Takes a name out of a table; whether it was there.
fn remove_name(t: Table, key: &str) -> (r: (Table, bool))
    requires
        table_wf(t),
    ensures
        table_wf(r.0),
        table_model(r.0) == table_model(t).remove(key@),
        r.1 == table_model(t).contains_key(key@),
{
    let mut t = t;
    let ghost whole = t;
    match find_name(&t, key) {
        None => {
            assert(table_model(t) =~= table_model(t).remove(key@));
            (t, false)
        },
        Some(p) => {
            t.entries.remove(p);
            proof {
                let e = whole.entries@;
                let f = t.entries@;
                lemma_entry(whole, p as int);
                assert(f =~= e.remove(p as int));
                assert forall|a: int, b: int| 0 <= a < b < f.len() implies (#[trigger] f[a]).0@ != (
                #[trigger] f[b]).0@ by {
                    let x = if a < p {
                        a
                    } else {
                        a + 1
                    };
                    let y = if b < p {
                        b
                    } else {
                        b + 1
                    };
                    assert(f[a] == e[x] && f[b] == e[y]);
                }
                assert forall|x: int| 0 <= x < f.len() implies wf((#[trigger] f[x]).1) by {
                    assert(f[x] == e[if x < p {
                        x
                    } else {
                        x + 1
                    }]);
                }
                assert forall|n: Seq<char>| has_name(f, n) <==> (has_name(e, n) && n != key@) by {
                    if has_name(f, n) {
                        let x = position(f, n);
                        let y = if x < p {
                            x
                        } else {
                            x + 1
                        };
                        assert(e[y].0@ == n);
                        assert(e[y].0@ != e[p as int].0@);
                    }
                    if has_name(e, n) && n != key@ {
                        let y = position(e, n);
                        assert(f[if y < p {
                            y
                        } else {
                            y - 1
                        }].0@ == n);
                    }
                }
                assert forall|n: Seq<char>| has_name(f, n) implies table_model(t)[n]
                    == table_model(whole)[n] by {
                    let x = position(f, n);
                    let y = if x < p {
                        x
                    } else {
                        x + 1
                    };
                    lemma_entry(t, x);
                    lemma_entry(whole, y);
                    assert(e[y].0@ == n);
                }
                assert(table_model(t) =~= table_model(whole).remove(key@));
            }
            (t, true)
        },
    }
}

/// The policy that a file in a project may set, and which of its settings are ignored.
fn project_file_policy(t: &Table) -> (r: (Table, Vec<String>))
    requires
        table_wf(*t),
    ensures
        table_wf(r.0),
        table_model(r.0) == unprotected(table_model(*t)),
        texts(r.1@) == ignored_names(table_model(*t)),
{
    let mut ignored: Vec<String> = Vec::new();
    let (a, had_guard) = remove_name(copy_table(t), "shrink_guard");
    if had_guard {
        ignored.push("policy.shrink_guard".to_owned());
    }
    proof {
        reveal_strlit("thin");
        reveal_strlit("shrink_guard");
        assert("thin"@.len() != "shrink_guard"@.len());
    }
    let (b, had_thin) = remove_name(a, "thin");
    if had_thin {
        ignored.push("policy.thin".to_owned());
    }
    assert(texts(ignored@) =~= ignored_names(table_model(*t)));
    (b, ignored)
}

/// The profile selection that a value of a configuration file is.
pub open spec fn selection_value(v: Model) -> Option<Option<Seq<Seq<char>>>> {
    match v {
        Model::Text(s) => Some(
            if s == "auto"@ {
                None
            } else {
                Some(seq![s])
            },
        ),
        Model::List(l) => if texts_in(l).len() == l.len() {
            Some(Some(texts_in(l)))
        } else {
            None
        },
        _ => None,
    }
}

/// The profile names that are selected: by the file in the project before the configuration of
/// the project before the defaults. None where they are found by looking.
pub open spec fn chosen_profiles(
    file: Option<&ProjectOverride>,
    over: Option<&ProjectOverride>,
    defaults: Map<Seq<char>, Model>,
) -> Option<Seq<Seq<char>>> {
    if file is Some && file->0.profile is Some {
        selected(file->0.profile->0)
    } else if over is Some && over->0.profile is Some {
        selected(over->0.profile->0)
    } else if defaults.contains_key("profile"@) && selection_value(defaults["profile"@]) is Some {
        selection_value(defaults["profile"@])->0
    } else {
        None
    }
}

proof fn lemma_texts_in_len(l: Seq<Model>)
    ensures
        texts_in(l).len() <= l.len(),
        texts_in(l).len() == l.len() ==> forall|i: int| 0 <= i < l.len() ==> (#[trigger] l[i]) is Text,
        (forall|i: int| 0 <= i < l.len() ==> (#[trigger] l[i]) is Text) ==> texts_in(l).len()
            == l.len(),
    decreases l.len(),
{
    if l.len() > 0 {
        lemma_texts_in_len(l.drop_last());
        assert(forall|i: int| 0 <= i < l.len() - 1 ==> l.drop_last()[i] == l[i]);
        if texts_in(l).len() == l.len() {
            assert forall|i: int| 0 <= i < l.len() implies (#[trigger] l[i]) is Text by {
                if i < l.len() - 1 {
                    assert(l.drop_last()[i] is Text);
                }
            }
        }
        if forall|i: int| 0 <= i < l.len() ==> (#[trigger] l[i]) is Text {
            assert(l.last() is Text);
        }
    }
}

/// The profile names that the defaults select.
fn default_selection(t: &Table) -> (r: Option<Vec<String>>)
    requires
        table_wf(*t),
    ensures
        match r {
            Some(v) => chosen_profiles(None, None, table_model(*t)) == Some(texts(v@)),
            None => chosen_profiles(None, None, table_model(*t)) is None,
        },
{
    match find_name(t, "profile") {
        None => None,
        Some(p) => {
            proof {
                lemma_entry(*t, p as int);
            }
            match &t.entries[p].1 {
                Value::Text(s) => if str_eq(s.as_str(), "auto") {
                    None
                } else {
                    let v = vec![s.clone()];
                    assert(texts(v@) =~= seq![s@]);
                    Some(v)
                },
                Value::List(l) => {
                    let ghost items = model(t.entries@[p as int].1)->List_0;
                    assert(items.len() == l@.len());
                    assert(forall|k: int|
                        0 <= k < l@.len() ==> #[trigger] items[k] == model(l@[k]));
                    let v = str_list(t, "profile");
                    assert(texts(v@).len() == v@.len());
                    if v.len() == l.len() {
                        Some(v)
                    } else {
                        None
                    }
                },
                _ => None,
            }
        },
    }
}

/// One layer of policy and where it comes from.
pub struct Layer {
    pub table: Table,
    pub origin: String,
}

pub open spec fn layer_view(l: Layer) -> (Map<Seq<char>, Model>, Seq<char>) {
    (table_model(l.table), l.origin@)
}

pub open spec fn layer_views(v: Seq<Layer>) -> Seq<(Map<Seq<char>, Model>, Seq<char>)> {
    Seq::new(v.len(), |i: int| layer_view(v[i]))
}

/// The layers of the given profiles.
pub open spec fn profile_layers(b: Builtin, c: Config, names: Seq<Seq<char>>) -> Seq<
    (Map<Seq<char>, Model>, Seq<char>),
> {
    Seq::new(
        names.len(),
        |i: int|
            (table_model(profile_named(b, c, names[i])->0.policy), "profiles."@ + names[i]),
    )
}

/// All layers of a project, the lowest first.
pub open spec fn layers_of(
    b: Builtin,
    c: Config,
    root: RootCfg,
    name: Seq<char>,
    names: Seq<Seq<char>>,
    over: Option<&ProjectOverride>,
    file: Option<&ProjectOverride>,
) -> Seq<(Map<Seq<char>, Model>, Seq<char>)> {
    seq![
        (table_model(b.policy), "builtin"@),
        (policy_names(table_model(c.defaults)), "defaults"@),
    ] + profile_layers(b, c, names) + seq![
        (table_model(root.policy), "root("@ + root.path@ + ")"@),
    ] + (match over {
        Some(o) => seq![(table_model(o.policy), "projects."@ + name)],
        None => seq![],
    }) + (match file {
        Some(f) => seq![(unprotected(table_model(f.policy)), ".bpm.toml"@)],
        None => seq![],
    })
}

/// Every layer over the ones before it.
pub open spec fn stacked(l: Seq<(Map<Seq<char>, Model>, Seq<char>)>) -> Model
    decreases l.len(),
{
    if l.len() == 0 {
        Model::Table(Map::empty())
    } else {
        overlaid(stacked(l.drop_last()), Model::Table(l.last().0))
    }
}

/// Where the plain value with a dotted name comes from: the highest layer that has it.
pub open spec fn origin_at(l: Seq<(Map<Seq<char>, Model>, Seq<char>)>, n: Seq<char>) -> Option<
    Seq<char>,
>
    decreases l.len(),
{
    if l.len() == 0 {
        None
    } else if leaf_name(Seq::empty(), Model::Table(l.last().0), n) {
        Some(l.last().1)
    } else {
        origin_at(l.drop_last(), n)
    }
}

/// The origins say of each dotted name the highest layer that has it.
pub open spec fn origins_right(
    o: Map<Seq<char>, String>,
    l: Seq<(Map<Seq<char>, Model>, Seq<char>)>,
) -> bool {
    forall|n: Seq<char>|
        {
            &&& #[trigger] o.contains_key(n) <==> origin_at(l, n) is Some
            &&& o.contains_key(n) ==> origin_at(l, n) == Some(o[n]@)
        }
}

/// Puts every layer over the ones before it.
pub fn stack(layers: &Vec<Layer>) -> (r: (Table, StrMap<String>))
    requires
        forall|i: int| 0 <= i < layers@.len() ==> table_wf((#[trigger] layers@[i]).table),
    ensures
        table_wf(r.0),
        Model::Table(table_model(r.0)) == stacked(layer_views(layers@)),
        origins_right(r.1@, layer_views(layers@)),
{
    let mut table = Table { entries: Vec::new() };
    let mut origins: StrMap<String> = StrMap::new();
    let ghost all = layer_views(layers@);
    let mut i: usize = 0;
    assert(table_model(table) =~= Map::<Seq<char>, Model>::empty());
    assert(all.take(0) =~= Seq::empty());
    while i < layers.len()
        invariant
            i <= layers@.len(),
            all == layer_views(layers@),
            forall|i: int| 0 <= i < layers@.len() ==> table_wf((#[trigger] layers@[i]).table),
            table_wf(table),
            Model::Table(table_model(table)) == stacked(all.take(i as int)),
            origins_right(origins@, all.take(i as int)),
        decreases layers@.len() - i,
    {
        let ghost before = origins@;
        let l = &layers[i];
        assert(all.take(i + 1).drop_last() =~= all.take(i as int));
        assert(all.take(i + 1).last() == layer_view(layers@[i as int]));
        deep_merge(&mut table, &l.table, l.origin.as_str(), "", &mut origins);
        proof {
            reveal_strlit("");
            assert(""@ =~= Seq::<char>::empty());
            let m = Model::Table(table_model(l.table));
            assert forall|n: Seq<char>|
                {
                    &&& #[trigger] origins@.contains_key(n) <==> origin_at(
                        all.take(i + 1),
                        n,
                    ) is Some
                    &&& origins@.contains_key(n) ==> origin_at(all.take(i + 1), n) == Some(
                        origins@[n]@,
                    )
                } by {
                assert(before.contains_key(n) <==> origin_at(all.take(i as int), n) is Some);
                if before.contains_key(n) {
                    assert(origin_at(all.take(i as int), n) == Some(before[n]@));
                }
            }
        }
        i += 1;
    }
    assert(all.take(all.len() as int) =~= all);
    (table, origins)
}

fn append_all(out: &mut Vec<String>, v: &Vec<String>)
    ensures
        texts(final(out)@) == texts(old(out)@) + texts(v@),
{
    let ghost first = texts(out@);
    let mut i: usize = 0;
    assert(first + texts(v@).take(0) =~= first);
    while i < v.len()
        invariant
            i <= v@.len(),
            texts(out@) == first + texts(v@).take(i as int),
        decreases v@.len() - i,
    {
        let ghost before = texts(out@);
        out.push(v[i].clone());
        assert(texts(out@) =~= before.push(v@[i as int]@));
        assert(first + texts(v@).take(i + 1) =~= (first + texts(v@).take(i as int)).push(
            texts(v@)[i as int],
        ));
        i += 1;
    }
    assert(texts(v@).take(v@.len() as int) =~= texts(v@));
}

/// The paths of a list that lead below the project, in their one spelling.
pub open spec fn normalized(l: Seq<Seq<char>>) -> Seq<Seq<char>>
    decreases l.len(),
{
    if l.len() == 0 {
        Seq::empty()
    } else {
        match relative(l.last()) {
            Some(p) => normalized(l.drop_last()).push(p),
            None => normalized(l.drop_last()),
        }
    }
}

fn normalize_all(v: &Vec<String>) -> (r: Vec<String>)
    ensures
        texts(r@) == normalized(texts(v@)),
{
    let mut out: Vec<String> = Vec::new();
    let ghost all = texts(v@);
    let mut i: usize = 0;
    assert(texts(out@) =~= normalized(all.take(0)));
    while i < v.len()
        invariant
            i <= v@.len(),
            all == texts(v@),
            texts(out@) == normalized(all.take(i as int)),
        decreases v@.len() - i,
    {
        assert(all.take(i + 1).drop_last() =~= all.take(i as int));
        assert(all.take(i + 1).last() == v@[i as int]@);
        if let Some(p) = safe_relative(v[i].as_str()) {
            let ghost before = texts(out@);
            let ghost x = p@;
            out.push(p);
            assert(texts(out@) =~= before.push(x));
        }
        i += 1;
    }
    assert(all.take(all.len() as int) =~= all);
    out
}

/// Each text of a list where it occurs first, without those in `removed`.
pub open spec fn unique_without(l: Seq<Seq<char>>, removed: Seq<Seq<char>>) -> Seq<Seq<char>>
    decreases l.len(),
{
    if l.len() == 0 {
        Seq::empty()
    } else {
        let u = unique_without(l.drop_last(), removed);
        if removed.contains(l.last()) || u.contains(l.last()) {
            u
        } else {
            u.push(l.last())
        }
    }
}

fn rel_list(v: &Vec<String>, removed: &Vec<String>) -> (r: Vec<RelPath>)
    ensures
        rel_texts(r@) == unique_without(texts(v@), texts(removed@)),
{
    let mut out: Vec<RelPath> = Vec::new();
    let ghost all = texts(v@);
    let ghost gone = texts(removed@);
    let mut i: usize = 0;
    assert(rel_texts(out@) =~= unique_without(all.take(0), gone));
    while i < v.len()
        invariant
            i <= v@.len(),
            all == texts(v@),
            gone == texts(removed@),
            rel_texts(out@) == unique_without(all.take(i as int), gone),
        decreases v@.len() - i,
    {
        assert(all.take(i + 1).drop_last() =~= all.take(i as int));
        assert(all.take(i + 1).last() == v@[i as int]@);
        if !list_has(removed, v[i].as_str()) && !rel_has(&out, v[i].as_str()) {
            let ghost before = rel_texts(out@);
            out.push(RelPath { text: v[i].clone() });
            assert(rel_texts(out@) =~= before.push(v@[i as int]@));
        }
        i += 1;
    }
    assert(all.take(all.len() as int) =~= all);
    out
}

/// The texts of a list that are in another one.
pub open spec fn those_in(l: Seq<Seq<char>>, other: Seq<Seq<char>>) -> Seq<Seq<char>>
    decreases l.len(),
{
    if l.len() == 0 {
        Seq::empty()
    } else if other.contains(l.last()) {
        those_in(l.drop_last(), other).push(l.last())
    } else {
        those_in(l.drop_last(), other)
    }
}

fn rel_list_in(v: &Vec<String>, other: &Vec<RelPath>) -> (r: Vec<RelPath>)
    ensures
        rel_texts(r@) == those_in(texts(v@), rel_texts(other@)),
{
    let mut out: Vec<RelPath> = Vec::new();
    let ghost all = texts(v@);
    let ghost o = rel_texts(other@);
    let mut i: usize = 0;
    assert(rel_texts(out@) =~= those_in(all.take(0), o));
    while i < v.len()
        invariant
            i <= v@.len(),
            all == texts(v@),
            o == rel_texts(other@),
            rel_texts(out@) == those_in(all.take(i as int), o),
        decreases v@.len() - i,
    {
        assert(all.take(i + 1).drop_last() =~= all.take(i as int));
        assert(all.take(i + 1).last() == v@[i as int]@);
        if rel_has(other, v[i].as_str()) {
            let ghost before = rel_texts(out@);
            out.push(RelPath { text: v[i].clone() });
            assert(rel_texts(out@) =~= before.push(v@[i as int]@));
        }
        i += 1;
    }
    assert(all.take(all.len() as int) =~= all);
    out
}

/// The banned paths of the given profiles, and the first one of each.
pub open spec fn profile_banlists(b: Builtin, c: Config, names: Seq<Seq<char>>) -> Seq<Seq<char>>
    decreases names.len(),
{
    if names.len() == 0 {
        Seq::empty()
    } else {
        profile_banlists(b, c, names.drop_last()) + texts(
            profile_named(b, c, names.last())->0.banlist@,
        )
    }
}

pub open spec fn profile_firsts(b: Builtin, c: Config, names: Seq<Seq<char>>) -> Seq<Seq<char>>
    decreases names.len(),
{
    if names.len() == 0 {
        Seq::empty()
    } else {
        let l = texts(profile_named(b, c, names.last())->0.banlist@);
        let rest = profile_firsts(b, c, names.drop_last());
        if l.len() > 0 {
            rest.push(l[0])
        } else {
            rest
        }
    }
}

pub open spec fn added(o: Option<&ProjectOverride>) -> Seq<Seq<char>> {
    match o {
        Some(x) => texts(x.banlist_add@),
        None => Seq::empty(),
    }
}

pub open spec fn taken_away(o: Option<&ProjectOverride>) -> Seq<Seq<char>> {
    match o {
        Some(x) => texts(x.banlist_remove@),
        None => Seq::empty(),
    }
}

pub open spec fn sentinels_of(o: Option<&ProjectOverride>) -> Seq<Seq<char>> {
    match o {
        Some(x) => texts(x.sentinels_add@),
        None => Seq::empty(),
    }
}

/// Everything about a project that its layers decide before the policy is read.
pub struct Merged {
    pub name: String,
    pub path: String,
    pub managed: bool,
    pub profiles: Vec<String>,
    pub banlist: Vec<RelPath>,
    pub primary_banlist: Vec<RelPath>,
    pub sentinels_add: Vec<String>,
    pub table: Table,
    pub origins: StrMap<String>,
    pub ignored_project_keys: Vec<String>,
}

/// What the layers give for a project with the profiles `names`.
pub open spec fn merged_right(
    m: Merged,
    b: Builtin,
    c: Config,
    root: RootCfg,
    name: Seq<char>,
    path: Seq<char>,
    names: Seq<Seq<char>>,
    over: Option<&ProjectOverride>,
    file: Option<&ProjectOverride>,
) -> bool {
    let layers = layers_of(b, c, root, name, names, over, file);
    let raw = texts_under(table_model(c.defaults), "banlist"@) + profile_banlists(b, c, names)
        + texts(root.banlist_add@) + added(over) + added(file);
    let ban = unique_without(normalized(raw), normalized(taken_away(over) + taken_away(file)));
    &&& m.name@ == name
    &&& m.path@ == path
    &&& texts(m.profiles@) == names
    &&& table_wf(m.table)
    &&& Model::Table(table_model(m.table)) == stacked(layers)
    &&& origins_right(m.origins@, layers)
    &&& rel_texts(m.banlist@) == ban
    &&& rel_texts(m.primary_banlist@) == those_in(
        normalized(profile_firsts(b, c, names) + added(over) + added(file)),
        ban,
    )
    &&& texts(m.sentinels_add@) == normalized(
        texts_under(table_model(c.defaults), "sentinels_add"@) + sentinels_of(over) + sentinels_of(
            file,
        ),
    )
    &&& texts(m.ignored_project_keys@) == match file {
        Some(f) => ignored_names(table_model(f.policy)),
        None => Seq::empty(),
    }
    &&& m.managed == (if file is Some && file->0.managed is Some {
        file->0.managed->0
    } else if over is Some && over->0.managed is Some {
        over->0.managed->0
    } else {
        true
    })
}

/// Position `i` is the first of the names that no profile has.
pub open spec fn first_unknown(b: Builtin, c: Config, names: Seq<Seq<char>>, i: int) -> bool {
    &&& 0 <= i < names.len()
    &&& profile_named(b, c, names[i]) is None
    &&& forall|j: int| 0 <= j < i ==> profile_named(b, c, #[trigger] names[j]) is Some
}

/// Merges the layers of a project that has the profiles `names`.
fn merge_layers(
    b: &Builtin,
    c: &Config,
    root: &RootCfg,
    name: &str,
    path: &str,
    names: Vec<String>,
    over: Option<&ProjectOverride>,
    file: Option<&ProjectOverride>,
) -> (r: Result<Merged, String>)
    requires
        config_wf(*b, *c),
        table_wf(root.policy),
        over is Some ==> table_wf(over->0.policy),
        file is Some ==> table_wf(file->0.policy),
    ensures
        match r {
            Ok(m) => (forall|i: int|
                0 <= i < names@.len() ==> profile_named(
                    *b,
                    *c,
                    #[trigger] texts(names@)[i],
                ) is Some) && merged_right(
                m,
                *b,
                *c,
                *root,
                name@,
                path@,
                texts(names@),
                over,
                file,
            ),
            Err(e) => exists|i: int|
                first_unknown(*b, *c, texts(names@), i) && e@ == "project "@ + name@
                    + ": unknown profile "@ + outside::quoted(texts(names@)[i]),
        },
{
    let ghost all = texts(names@);
    let mut layers: Vec<Layer> = Vec::new();
    layers.push(Layer { table: copy_table(&b.policy), origin: "builtin".to_owned() });
    layers.push(Layer { table: policy_part(&c.defaults), origin: "defaults".to_owned() });
    let ghost base = seq![
        (table_model(b.policy), "builtin"@),
        (policy_names(table_model(c.defaults)), "defaults"@),
    ];
    let mut banlist = str_list(&c.defaults, "banlist");
    let ghost ban0 = texts(banlist@);
    let mut primary: Vec<String> = Vec::new();
    let mut i: usize = 0;
    proof {
        assert(layer_views(layers@) =~= base + profile_layers(*b, *c, all.take(0)));
        assert(texts(banlist@) =~= ban0 + profile_banlists(*b, *c, all.take(0)));
        assert(texts(primary@) =~= profile_firsts(*b, *c, all.take(0)));
    }
    while i < names.len()
        invariant
            i <= names@.len(),
            all == texts(names@),
            config_wf(*b, *c),
            forall|j: int| 0 <= j < i ==> profile_named(*b, *c, #[trigger] all[j]) is Some,
            forall|j: int| 0 <= j < layers@.len() ==> table_wf((#[trigger] layers@[j]).table),
            layer_views(layers@) == base + profile_layers(*b, *c, all.take(i as int)),
            texts(banlist@) == ban0 + profile_banlists(*b, *c, all.take(i as int)),
            texts(primary@) == profile_firsts(*b, *c, all.take(i as int)),
        decreases names@.len() - i,
    {
        let pname = names[i].as_str();
        assert(all[i as int] == pname@);
        match find_profile(b, c, pname) {
            None => {
                assert(first_unknown(*b, *c, all, i as int));
                return Err(
                    cat4(
                        "project ",
                        name,
                        ": unknown profile ",
                        outside::quote(pname).as_str(),
                    ),
                );
            },
            Some(p) => {
                let ghost ls = layer_views(layers@);
                let ghost bs = texts(banlist@);
                let ghost fs = texts(primary@);
                let ghost next = all.take(i + 1);
                assert(next.drop_last() =~= all.take(i as int));
                assert(next.last() == pname@);
                assert(table_wf(p.policy)) by {
                    if c.profiles@.contains_key(pname@) {
                        assert(table_wf(c.profiles@[pname@].policy));
                    } else {
                        assert(b.profiles@.contains_key(pname@));
                    }
                }
                append_all(&mut banlist, &p.banlist);
                assert(ban0 + profile_banlists(*b, *c, next) =~= bs + texts(p.banlist@));
                if p.banlist.len() > 0 {
                    primary.push(p.banlist[0].clone());
                    assert(texts(primary@) =~= fs.push(texts(p.banlist@)[0]));
                }
                let origin = cat2("profiles.", pname);
                let l = Layer { table: copy_table(&p.policy), origin };
                let ghost lv = layer_view(l);
                layers.push(l);
                proof {
                    assert(layer_views(layers@) =~= ls.push(lv));
                    assert(profile_layers(*b, *c, next) =~= profile_layers(
                        *b,
                        *c,
                        all.take(i as int),
                    ).push(lv));
                    assert(base + profile_layers(*b, *c, next) =~= ls.push(lv));
                }
            },
        }
        i += 1;
    }
    assert(all.take(all.len() as int) =~= all);
    append_all(&mut banlist, &root.banlist_add);
    let ghost ls1 = layer_views(layers@);
    let l = Layer {
        table: copy_table(&root.policy),
        origin: cat3("root(", root.path.as_str(), ")"),
    };
    let ghost lv = layer_view(l);
    layers.push(l);
    assert(layer_views(layers@) =~= ls1 + seq![lv]);
    let ghost ls2 = layer_views(layers@);
    let mut remove: Vec<String> = Vec::new();
    assert(texts(remove@) =~= Seq::<Seq<char>>::empty());
    let mut sentinels_add = str_list(&c.defaults, "sentinels_add");
    let mut ignored: Vec<String> = Vec::new();
    assert(texts(ignored@) =~= Seq::<Seq<char>>::empty());
    let ghost b1 = texts(banlist@);
    let ghost p1 = texts(primary@);
    let ghost s1 = texts(sentinels_add@);
    if let Some(o) = over {
        append_all(&mut banlist, &o.banlist_add);
        append_all(&mut primary, &o.banlist_add);
        append_all(&mut remove, &o.banlist_remove);
        append_all(&mut sentinels_add, &o.sentinels_add);
        let l = Layer { table: copy_table(&o.policy), origin: cat2("projects.", name) };
        let ghost lv = layer_view(l);
        layers.push(l);
        assert(layer_views(layers@) =~= ls2 + seq![lv]);
    }
    proof {
        assert(texts(banlist@) =~= b1 + added(over));
        assert(texts(primary@) =~= p1 + added(over));
        assert(texts(remove@) =~= taken_away(over));
        assert(texts(sentinels_add@) =~= s1 + sentinels_of(over));
    }
    let ghost ls3 = layer_views(layers@);
    let ghost b2 = texts(banlist@);
    let ghost p2 = texts(primary@);
    let ghost r2 = texts(remove@);
    let ghost s2 = texts(sentinels_add@);
    if let Some(f) = file {
        append_all(&mut banlist, &f.banlist_add);
        append_all(&mut primary, &f.banlist_add);
        append_all(&mut remove, &f.banlist_remove);
        append_all(&mut sentinels_add, &f.sentinels_add);
        let (t, ig) = project_file_policy(&f.policy);
        ignored = ig;
        let l = Layer { table: t, origin: ".bpm.toml".to_owned() };
        let ghost lv = layer_view(l);
        layers.push(l);
        assert(layer_views(layers@) =~= ls3 + seq![lv]);
    }
    proof {
        assert(texts(banlist@) =~= b2 + added(file));
        assert(texts(primary@) =~= p2 + added(file));
        assert(texts(remove@) =~= r2 + taken_away(file));
        assert(texts(sentinels_add@) =~= s2 + sentinels_of(file));
        assert(layer_views(layers@) =~= layers_of(*b, *c, *root, name@, all, over, file));
    }
    let (table, origins) = stack(&layers);
    let ban_norm = normalize_all(&banlist);
    let removed = normalize_all(&remove);
    let ban = rel_list(&ban_norm, &removed);
    let prim_norm = normalize_all(&primary);
    let prim = rel_list_in(&prim_norm, &ban);
    let sentinels = normalize_all(&sentinels_add);
    let from_over: bool = match over {
        Some(o) => match o.managed {
            Some(m) => m,
            None => true,
        },
        None => true,
    };
    let managed: bool = match file {
        Some(f) => match f.managed {
            Some(m) => m,
            None => from_over,
        },
        None => from_over,
    };
    Ok(
        Merged {
            name: name.to_owned(),
            path: path.to_owned(),
            managed,
            profiles: names,
            banlist: ban,
            primary_banlist: prim,
            sentinels_add: sentinels,
            table,
            origins,
            ignored_project_keys: ignored,
        },
    )
}

/// The configuration of one project.
pub struct EffectiveConfig {
    pub name: String,
    pub path: String,
    pub managed: bool,
    pub profiles: Vec<String>,
    pub banlist: Vec<RelPath>,
    /// Banned paths created ahead of time where only the primary ones are.
    pub primary_banlist: Vec<RelPath>,
    /// Banned paths that are never created ahead of time.
    pub never_precreate: Vec<RelPath>,
    pub sentinels: Vec<String>,
    pub policy: Policy,
    pub origins: StrMap<String>,
    /// Settings of the file in the project that were ignored.
    pub ignored_project_keys: Vec<String>,
}

/// The override of the project with a name.
pub open spec fn override_of<'a>(c: &'a Config, name: Seq<char>) -> Option<&'a ProjectOverride> {
    if c.projects@.contains_key(name) {
        Some(&c.projects@[name])
    } else {
        None
    }
}

/// The file in the project, unless such files are switched off.
pub open spec fn file_used(c: Config, file: Option<&ProjectOverride>) -> Option<&ProjectOverride> {
    if c.global.project_config {
        file
    } else {
        None
    }
}

/// Merges every layer that concerns a project: what the program brings, the defaults, the
/// profiles, the root, the project's own section and the file in the project. `present` are the
/// profile markers that were found in the project.
pub fn effective_for(
    b: &Builtin,
    c: &Config,
    root: &RootCfg,
    name: &str,
    path: &str,
    file: Option<&ProjectOverride>,
    present: &Vec<String>,
) -> (r: Result<Merged, String>)
    requires
        config_wf(*b, *c),
        table_wf(root.policy),
        file is Some ==> table_wf(file->0.policy),
    ensures
        ({
            let f = file_used(*c, file);
            let over = override_of(c, name@);
            exists|names: Seq<Seq<char>>|
                {
                    &&& match chosen_profiles(f, over, table_model(c.defaults)) {
                        Some(x) => names == x,
                        None => #[trigger] detected(*b, *c, texts(present@), names),
                    }
                    &&& match r {
                        Ok(m) => (forall|i: int|
                            0 <= i < names.len() ==> profile_named(
                                *b,
                                *c,
                                #[trigger] names[i],
                            ) is Some) && merged_right(
                            m,
                            *b,
                            *c,
                            *root,
                            name@,
                            path@,
                            names,
                            over,
                            f,
                        ),
                        Err(e) => exists|i: int|
                            first_unknown(*b, *c, names, i) && e@ == "project "@ + name@
                                + ": unknown profile "@ + outside::quoted(names[i]),
                    }
                }
        }),
{
    let over = c.projects.get(name);
    let f = if c.global.project_config {
        file
    } else {
        None
    };
    let from_file: Option<&ProfileSel> = match f {
        Some(x) => x.profile.as_ref(),
        None => None,
    };
    let from_over: Option<&ProfileSel> = match over {
        Some(x) => x.profile.as_ref(),
        None => None,
    };
    let chosen: Option<Vec<String>> = match from_file {
        Some(s) => s.names(),
        None => match from_over {
            Some(s) => s.names(),
            None => default_selection(&c.defaults),
        },
    };
    let names = match chosen {
        Some(v) => v,
        None => detect_profiles(b, c, present),
    };
    let ghost all = texts(names@);
    let ghost by_markers = detected(*b, *c, texts(present@), all);
    merge_layers(b, c, root, name, path, names, over, f)
}

/// `base` with every text of `more` that is not yet there.
pub open spec fn with_missing(base: Seq<Seq<char>>, more: Seq<Seq<char>>) -> Seq<Seq<char>>
    decreases more.len(),
{
    if more.len() == 0 {
        base
    } else {
        let b = with_missing(base, more.drop_last());
        if b.contains(more.last()) {
            b
        } else {
            b.push(more.last())
        }
    }
}

impl Merged {
    /// The configuration of the project, now that its policy has been read.
    pub fn finish(self, policy: Policy) -> (r: EffectiveConfig)
        ensures
            r.name == self.name,
            r.path == self.path,
            r.managed == self.managed,
            r.profiles == self.profiles,
            r.banlist == self.banlist,
            r.primary_banlist == self.primary_banlist,
            r.never_precreate@ == Seq::<RelPath>::empty(),
            texts(r.sentinels@) == with_missing(
                texts(policy.shrink_guard.sentinels@),
                texts(self.sentinels_add@),
            ),
            r.policy == policy,
            r.origins == self.origins,
            r.ignored_project_keys == self.ignored_project_keys,
    {
        let mut sentinels = copy_list(&policy.shrink_guard.sentinels);
        let ghost base = texts(sentinels@);
        let more = &self.sentinels_add;
        let ghost all = texts(more@);
        let mut i: usize = 0;
        while i < more.len()
            invariant
                i <= more@.len(),
                all == texts(more@),
                texts(sentinels@) == with_missing(base, all.take(i as int)),
            decreases more@.len() - i,
        {
            assert(all.take(i + 1).drop_last() =~= all.take(i as int));
            assert(all.take(i + 1).last() == more@[i as int]@);
            if !list_has(&sentinels, more[i].as_str()) {
                let ghost before = texts(sentinels@);
                sentinels.push(more[i].clone());
                assert(texts(sentinels@) =~= before.push(more@[i as int]@));
            }
            i += 1;
        }
        assert(all.take(all.len() as int) =~= all);
        EffectiveConfig {
            name: self.name,
            path: self.path,
            managed: self.managed,
            profiles: self.profiles,
            banlist: self.banlist,
            primary_banlist: self.primary_banlist,
            never_precreate: Vec::new(),
            sentinels,
            policy,
            origins: self.origins,
            ignored_project_keys: self.ignored_project_keys,
        }
    }
}

impl EffectiveConfig {
    /// The banned paths.
    pub fn banlist_paths(&self) -> (r: Vec<String>)
        ensures
            texts(r@) == rel_texts(self.banlist@),
    {
        let mut out: Vec<String> = Vec::new();
        let mut i: usize = 0;
        while i < self.banlist.len()
            invariant
                i <= self.banlist@.len(),
                texts(out@) == rel_texts(self.banlist@).take(i as int),
            decreases self.banlist@.len() - i,
        {
            let ghost before = texts(out@);
            out.push(self.banlist[i].text.clone());
            assert(texts(out@) =~= before.push(self.banlist@[i as int].text@));
            i += 1;
        }
        assert(texts(out@) =~= rel_texts(self.banlist@));
        out
    }

    /// Whether a path is banned.
    pub fn is_banned(&self, rel: &str) -> (r: bool)
        ensures
            r == rel_texts(self.banlist@).contains(rel@),
    {
        rel_has(&self.banlist, rel)
    }

    /// Paths excluded from stats walks: banned directories (even when still plain) and guard
    /// excludes.
    pub fn stats_exclude(&self) -> (r: Vec<String>)
        ensures
            texts(r@) == rel_texts(self.banlist@) + normalized(
                texts(self.policy.shrink_guard.exclude@),
            ),
    {
        let mut v = self.banlist_paths();
        let more = normalize_all(&self.policy.shrink_guard.exclude);
        append_all(&mut v, &more);
        v
    }
}

/// The value that a path of names leads to.
pub open spec fn at(m: Model, path: Seq<Seq<char>>) -> Option<Model>
    decreases path.len(),
{
    if path.len() == 0 {
        Some(m)
    } else {
        match m {
            Model::Table(t) => if t.contains_key(path[0]) {
                at(t[path[0]], path.skip(1))
            } else {
                None
            },
            _ => None,
        }
    }
}

/// `m` is a table that says nothing on a path.
pub open spec fn silent(m: Model, path: Seq<Seq<char>>) -> bool
    decreases path.len(),
{
    match m {
        Model::Table(t) => path.len() > 0 && (!t.contains_key(path[0]) || silent(
            t[path[0]],
            path.skip(1),
        )),
        _ => false,
    }
}

/// A plain value of a higher layer is the one that counts.
pub proof fn law_higher_layer_wins(b: Model, o: Model, path: Seq<Seq<char>>)
    requires
        at(o, path) is Some,
        !(at(o, path)->0 is Table),
    ensures
        at(overlaid(b, o), path) == at(o, path),
    decreases path.len(),
{
    if path.len() > 0 {
        match (b, o) {
            (Model::Table(x), Model::Table(y)) => {
                if x.contains_key(path[0]) {
                    law_higher_layer_wins(x[path[0]], y[path[0]], path.skip(1));
                }
            },
            _ => {},
        }
    }
}

/// Where a higher layer says nothing, the lower layers stand.
pub proof fn law_silence_changes_nothing(b: Model, o: Model, path: Seq<Seq<char>>)
    requires
        silent(o, path),
    ensures
        at(overlaid(b, o), path) == at(b, path),
    decreases path.len(),
{
    match (b, o) {
        (Model::Table(x), Model::Table(y)) => {
            if x.contains_key(path[0]) && y.contains_key(path[0]) {
                law_silence_changes_nothing(x[path[0]], y[path[0]], path.skip(1));
            } else if y.contains_key(path[0]) {
                lemma_silent_leads_nowhere(y[path[0]], path.skip(1));
            }
        },
        _ => {
            lemma_silent_leads_nowhere(o, path);
        },
    }
}

proof fn lemma_silent_leads_nowhere(o: Model, path: Seq<Seq<char>>)
    requires
        silent(o, path),
    ensures
        at(o, path) is None,
    decreases path.len(),
{
    match o {
        Model::Table(y) => {
            if y.contains_key(path[0]) {
                lemma_silent_leads_nowhere(y[path[0]], path.skip(1));
            }
        },
        _ => {},
    }
}

/// The file in a project changes nothing below a protected setting, whatever it holds: the
/// shrink guard and retention are what the layers without it make them.
pub proof fn law_project_file_cannot_weaken(
    lower: Seq<(Map<Seq<char>, Model>, Seq<char>)>,
    file: Map<Seq<char>, Model>,
    path: Seq<Seq<char>>,
)
    requires
        path.len() > 0,
        protected_key(path[0]),
    ensures
        at(stacked(lower.push((unprotected(file), ".bpm.toml"@))), path) == at(
            stacked(lower),
            path,
        ),
{
    let l = lower.push((unprotected(file), ".bpm.toml"@));
    assert(l.drop_last() =~= lower);
    let o = Model::Table(unprotected(file));
    assert(silent(o, path));
    law_silence_changes_nothing(stacked(lower), o, path);
}

/// A list without some texts holds each of the others once, and only those.
pub proof fn law_lists_hold_each_text_once(l: Seq<Seq<char>>, removed: Seq<Seq<char>>)
    ensures
        forall|x: Seq<char>| #[trigger]
            unique_without(l, removed).contains(x) <==> l.contains(x) && !removed.contains(x),
        unique_without(l, removed).no_duplicates(),
    decreases l.len(),
{
    if l.len() > 0 {
        let t = l.drop_last();
        law_lists_hold_each_text_once(t, removed);
        let u = unique_without(t, removed);
        let r = unique_without(l, removed);
        assert forall|x: Seq<char>| #[trigger] r.contains(x) <==> l.contains(x)
            && !removed.contains(x) by {
            lemma_last_or_before(l, x);
            assert(u.contains(x) <==> t.contains(x) && !removed.contains(x));
            if r != u {
                lemma_last_or_before(r, x);
                assert(r.drop_last() =~= u);
            }
        }
        if r != u {
            assert forall|i: int, j: int| 0 <= i < r.len() && 0 <= j < r.len() && i != j implies r[i]
                != r[j] by {
                if i < u.len() && j < u.len() {
                    assert(u[i] != u[j]);
                } else if i < u.len() {
                    assert(u.contains(u[i]));
                } else {
                    assert(u.contains(u[j]));
                }
            }
        }
    }
}

/// Of a list of paths those count that lead below the project.
pub proof fn law_only_paths_below_count(l: Seq<Seq<char>>, p: Seq<char>)
    ensures
        normalized(l).contains(p) <==> exists|i: int|
            0 <= i < l.len() && relative(#[trigger] l[i]) == Some(p),
    decreases l.len(),
{
    if l.len() > 0 {
        let t = l.drop_last();
        law_only_paths_below_count(t, p);
        if normalized(l) != normalized(t) {
            lemma_last_or_before(normalized(l), p);
            assert(normalized(l).drop_last() =~= normalized(t));
        }
        if exists|i: int| 0 <= i < t.len() && relative(#[trigger] t[i]) == Some(p) {
            let i = choose|i: int| 0 <= i < t.len() && relative(#[trigger] t[i]) == Some(p);
            assert(relative(l[i]) == Some(p));
        }
        if exists|i: int| 0 <= i < l.len() && relative(#[trigger] l[i]) == Some(p) {
            let i = choose|i: int| 0 <= i < l.len() && relative(#[trigger] l[i]) == Some(p);
            if i < t.len() {
                assert(relative(t[i]) == Some(p));
            }
        }
        if relative(l.last()) == Some(p) {
            assert(relative(l[l.len() - 1]) == Some(p));
            assert(normalized(l).last() == p);
            lemma_last_or_before(normalized(l), p);
        }
    }
}

/// One of the texts is the path `p`.
pub open spec fn names_path(l: Seq<Seq<char>>, p: Seq<char>) -> bool {
    exists|s: Seq<char>| #[trigger] l.contains(s) && relative(s) == Some(p)
}

/// A path is banned where the defaults, a profile, the root, the project's own section or the file
/// in the project bans it, unless one of the last two takes it away.
pub proof fn law_banned_is_what_someone_bans_and_nobody_takes_away(
    m: Merged,
    b: Builtin,
    c: Config,
    root: RootCfg,
    name: Seq<char>,
    path: Seq<char>,
    names: Seq<Seq<char>>,
    over: Option<&ProjectOverride>,
    file: Option<&ProjectOverride>,
    p: Seq<char>,
)
    requires
        merged_right(m, b, c, root, name, path, names, over, file),
    ensures
        rel_texts(m.banlist@).contains(p) <==> (names_path(
            texts_under(table_model(c.defaults), "banlist"@),
            p,
        ) || names_path(profile_banlists(b, c, names), p) || names_path(
            texts(root.banlist_add@),
            p,
        ) || (over matches Some(o) && names_path(texts(o.banlist_add@), p)) || (file matches Some(f)
            && names_path(texts(f.banlist_add@), p))) && !(over matches Some(o) && names_path(
            texts(o.banlist_remove@),
            p,
        )) && !(file matches Some(f) && names_path(texts(f.banlist_remove@), p)),
        rel_texts(m.banlist@).no_duplicates(),
        m.managed == match file {
            Some(f) if f.managed is Some => f.managed->0,
            _ => match over {
                Some(o) if o.managed is Some => o.managed->0,
                _ => true,
            },
        },
{
    let d = texts_under(table_model(c.defaults), "banlist"@);
    let r = profile_banlists(b, c, names);
    let t = texts(root.banlist_add@);
    let raw = d + r + t + added(over) + added(file);
    let gone = taken_away(over) + taken_away(file);
    law_lists_hold_each_text_once(normalized(raw), normalized(gone));
    law_only_paths_below_count(raw, p);
    law_only_paths_below_count(gone, p);
    lemma_names_path(raw, p);
    lemma_names_path(gone, p);
    lemma_either_names(d + r + t + added(over), added(file), p);
    lemma_either_names(d + r + t, added(over), p);
    lemma_either_names(d + r, t, p);
    lemma_either_names(d, r, p);
    lemma_either_names(taken_away(over), taken_away(file), p);
}

proof fn lemma_names_path(l: Seq<Seq<char>>, p: Seq<char>)
    ensures
        names_path(l, p) <==> exists|i: int| 0 <= i < l.len() && relative(#[trigger] l[i]) == Some(p),
{
    if names_path(l, p) {
        let s = choose|s: Seq<char>| #[trigger] l.contains(s) && relative(s) == Some(p);
        let i = choose|i: int| 0 <= i < l.len() && l[i] == s;
        assert(relative(l[i]) == Some(p));
    }
    if exists|i: int| 0 <= i < l.len() && relative(#[trigger] l[i]) == Some(p) {
        let i = choose|i: int| 0 <= i < l.len() && relative(#[trigger] l[i]) == Some(p);
        assert(l.contains(l[i]));
    }
}

proof fn lemma_either_names(a: Seq<Seq<char>>, b: Seq<Seq<char>>, p: Seq<char>)
    ensures
        names_path(a + b, p) <==> names_path(a, p) || names_path(b, p),
{
    if names_path(a + b, p) {
        let s = choose|s: Seq<char>| #[trigger] (a + b).contains(s) && relative(s) == Some(p);
        lemma_either_has(a, b, s);
    }
    if names_path(a, p) {
        let s = choose|s: Seq<char>| #[trigger] a.contains(s) && relative(s) == Some(p);
        lemma_either_has(a, b, s);
    }
    if names_path(b, p) {
        let s = choose|s: Seq<char>| #[trigger] b.contains(s) && relative(s) == Some(p);
        lemma_either_has(a, b, s);
    }
}

/// The profiles ban what each of them bans, in their order, and the first path of each is primary.
pub proof fn law_profiles_ban_one_after_the_other(
    b: Builtin,
    c: Config,
    names: Seq<Seq<char>>,
    n: Seq<char>,
    p: ProfileCfg,
)
    requires
        profile_named(b, c, n) == Some(p),
    ensures
        profile_banlists(b, c, names.push(n)) == profile_banlists(b, c, names) + texts(p.banlist@),
        p.banlist@.len() > 0 ==> profile_firsts(b, c, names.push(n)) == profile_firsts(
            b,
            c,
            names,
        ).push(p.banlist@[0]@),
        p.banlist@.len() == 0 ==> profile_firsts(b, c, names.push(n)) == profile_firsts(b, c, names),
        c.profiles@.contains_key(n) ==> p == c.profiles@[n],
        !c.profiles@.contains_key(n) ==> b.profiles@.contains_key(n) && p == b.profiles@[n],
{
    assert(names.push(n).drop_last() =~= names);
}

/// Only banned paths are primary ones.
pub proof fn law_those_in_both_lists(l: Seq<Seq<char>>, other: Seq<Seq<char>>, x: Seq<char>)
    ensures
        those_in(l, other).contains(x) <==> l.contains(x) && other.contains(x),
    decreases l.len(),
{
    if l.len() > 0 {
        law_those_in_both_lists(l.drop_last(), other, x);
        lemma_last_or_before(l, x);
        let r = those_in(l.drop_last(), other);
        if other.contains(l.last()) {
            lemma_last_or_before(those_in(l, other), x);
            assert(those_in(l, other).drop_last() =~= r);
        }
    }
}

/// What is added to a list comes after it, and only where it is not there yet.
pub proof fn law_added_texts_come_after(
    base: Seq<Seq<char>>,
    more: Seq<Seq<char>>,
    x: Seq<char>,
)
    ensures
        with_missing(base, more).contains(x) <==> base.contains(x) || more.contains(x),
        base.len() <= with_missing(base, more).len() && with_missing(base, more).take(
            base.len() as int,
        ) == base,
    decreases more.len(),
{
    if more.len() > 0 {
        let t = more.drop_last();
        law_added_texts_come_after(base, t, x);
        lemma_last_or_before(more, x);
        let b = with_missing(base, t);
        if !b.contains(more.last()) {
            lemma_last_or_before(with_missing(base, more), x);
            assert(with_missing(base, more).drop_last() =~= b);
            assert(with_missing(base, more).take(base.len() as int) =~= b.take(base.len() as int));
        }
    } else {
        assert(base.take(base.len() as int) =~= base);
    }
}

/// The profiles of a project are what the file in it says, else what its own section says, else
/// what the defaults say; `auto` says that they are looked for.
pub proof fn law_the_nearest_selection_counts(
    file: Option<&ProjectOverride>,
    over: Option<&ProjectOverride>,
    defaults: Map<Seq<char>, Model>,
)
    ensures
        ({
            let r = chosen_profiles(file, over, defaults);
            let in_file = file matches Some(f) && f.profile is Some;
            let in_over = over matches Some(o) && o.profile is Some;
            &&& in_file ==> r == selected(file->0.profile->0)
            &&& !in_file && in_over ==> r == selected(over->0.profile->0)
            &&& !in_file && !in_over && !defaults.contains_key("profile"@) ==> r is None
            &&& !in_file && !in_over && defaults.contains_key("profile"@) ==> match defaults["profile"@] {
                Model::Text(s) => if s == "auto"@ {
                    r is None
                } else {
                    r == Some(seq![s])
                },
                Model::List(l) => (forall|i: int| 0 <= i < l.len() ==> (#[trigger] l[i]) is Text)
                    ==> r is Some && r->0.len() == l.len() && forall|i: int|
                    0 <= i < l.len() ==> (#[trigger] l[i])->Text_0 == r->0[i],
                _ => r is None,
            }
        }),
{
    if defaults.contains_key("profile"@) && defaults["profile"@] is List {
        let l = defaults["profile"@]->List_0;
        if forall|i: int| 0 <= i < l.len() ==> (#[trigger] l[i]) is Text {
            lemma_all_texts(l);
        }
    }
}

proof fn lemma_all_texts(l: Seq<Model>)
    requires
        forall|i: int| 0 <= i < l.len() ==> (#[trigger] l[i]) is Text,
    ensures
        texts_in(l).len() == l.len(),
        forall|i: int| 0 <= i < l.len() ==> (#[trigger] l[i])->Text_0 == texts_in(l)[i],
    decreases l.len(),
{
    if l.len() > 0 {
        let t = l.drop_last();
        assert forall|i: int| 0 <= i < t.len() implies (#[trigger] t[i]) is Text by {
            assert(l[i] is Text);
        }
        lemma_all_texts(t);
        assert(l[l.len() - 1] is Text);
        assert forall|i: int| 0 <= i < l.len() implies (#[trigger] l[i])->Text_0 == texts_in(
            l,
        )[i] by {
            if i < t.len() {
                assert(t[i] == l[i]);
            }
        }
    }
}

/// A value comes from the highest layer that has it, and nowhere from where none has.
pub proof fn law_origins_are_the_highest_layer(
    l: Seq<(Map<Seq<char>, Model>, Seq<char>)>,
    top: (Map<Seq<char>, Model>, Seq<char>),
    n: Seq<char>,
)
    ensures
        origin_at(Seq::empty(), n) is None,
        leaf_name(Seq::empty(), Model::Table(top.0), n) ==> origin_at(l.push(top), n) == Some(top.1),
        !leaf_name(Seq::empty(), Model::Table(top.0), n) ==> origin_at(l.push(top), n) == origin_at(
            l,
            n,
        ),
        stacked(l.push(top)) == overlaid(stacked(l), Model::Table(top.0)),
{
    assert(l.push(top).drop_last() =~= l);
}

/// The file in a project goes over its own section, which goes over the root, the profiles in their
/// order, the defaults and what the program brings.
pub proof fn law_layers_lie_in_their_order(
    b: Builtin,
    c: Config,
    root: RootCfg,
    name: Seq<char>,
    names: Seq<Seq<char>>,
    over: ProjectOverride,
    file: ProjectOverride,
)
    ensures
        ({
            let l = layers_of(b, c, root, name, names, Some(&over), Some(&file));
            let n = names.len() as int;
            &&& l.len() == n + 5
            &&& l[0].0 == table_model(b.policy)
            &&& l[1].0 == policy_names(table_model(c.defaults))
            &&& forall|i: int|
                0 <= i < n ==> l[2 + i].0 == table_model(
                    profile_named(b, c, #[trigger] names[i])->0.policy,
                )
            &&& l[n + 2].0 == table_model(root.policy)
            &&& l[n + 3].0 == table_model(over.policy)
            &&& forall|k: Seq<char>|
                k != "shrink_guard"@ && k != "thin"@ ==> (#[trigger] l[n + 4].0.contains_key(k)
                    <==> table_model(file.policy).contains_key(k))
            &&& !l[n + 4].0.contains_key("shrink_guard"@) && !l[n + 4].0.contains_key("thin"@)
        }),
        layers_of(b, c, root, name, names, None, None).len() == names.len() + 3,
{
}

/// A file in a project is not read where such files are switched off.
pub proof fn law_project_files_can_be_switched_off(c: Config, file: Option<&ProjectOverride>)
    ensures
        !c.global.project_config ==> file_used(c, file) is None,
        c.global.project_config ==> file_used(c, file) == file,
{
}

/// Each protected setting that the file in a project makes is named, and no other.
pub proof fn law_ignored_settings_are_named(m: Map<Seq<char>, Model>)
    ensures
        ignored_names(m).len() == (if m.contains_key("shrink_guard"@) {
            1int
        } else {
            0
        }) + (if m.contains_key("thin"@) {
            1int
        } else {
            0
        }),
        ignored_names(m).contains("policy.thin"@) <==> m.contains_key("thin"@),
        ignored_names(m).contains("policy.shrink_guard"@) <==> m.contains_key("shrink_guard"@),
{
    reveal_strlit("policy.thin");
    reveal_strlit("policy.shrink_guard");
    assert("policy.thin"@.len() != "policy.shrink_guard"@.len());
    let r = ignored_names(m);
    if m.contains_key("shrink_guard"@) {
        assert(r[0] == "policy.shrink_guard"@);
    }
    if m.contains_key("thin"@) {
        assert(r[r.len() - 1] == "policy.thin"@);
    }
}

/// Lists are gone through from the front: of a text that occurs twice the first place counts, and
/// what is dropped leaves the order of the rest alone.
pub proof fn law_lists_keep_their_order(
    l: Seq<Seq<char>>,
    other: Seq<Seq<char>>,
    x: Seq<char>,
)
    ensures
        ({
            let u = unique_without(l, other);
            &&& other.contains(x) || u.contains(x) ==> unique_without(l.push(x), other) == u
            &&& !other.contains(x) && !u.contains(x) ==> unique_without(l.push(x), other) == u.push(x)
            &&& relative(x) is None ==> normalized(l.push(x)) == normalized(l)
            &&& relative(x) matches Some(p) ==> normalized(l.push(x)) == normalized(l).push(p)
            &&& other.contains(x) ==> those_in(l.push(x), other) == those_in(l, other).push(x)
            &&& !other.contains(x) ==> those_in(l.push(x), other) == those_in(l, other)
            &&& with_missing(other, l).contains(x) ==> with_missing(other, l.push(x))
                == with_missing(other, l)
            &&& !with_missing(other, l).contains(x) ==> with_missing(other, l.push(x))
                == with_missing(other, l).push(x)
        }),
{
    assert(l.push(x).drop_last() =~= l);
}

/// A primary path is a banned one that a profile names first, or that the project's own section or
/// the file in the project adds. Sentinels are those of the defaults, of that section and of that
/// file. What the file sets goes over all else, and is known to come from it.
pub proof fn law_projects_have_the_last_word(
    m: Merged,
    b: Builtin,
    c: Config,
    root: RootCfg,
    name: Seq<char>,
    path: Seq<char>,
    names: Seq<Seq<char>>,
    over: Option<&ProjectOverride>,
    file: Option<&ProjectOverride>,
    p: Seq<char>,
)
    requires
        merged_right(m, b, c, root, name, path, names, over, file),
    ensures
        m.name@ == name && m.path@ == path && texts(m.profiles@) == names,
        rel_texts(m.primary_banlist@).contains(p) <==> rel_texts(m.banlist@).contains(p) && (
        names_path(profile_firsts(b, c, names), p) || (over matches Some(o) && names_path(
            texts(o.banlist_add@),
            p,
        )) || (file matches Some(f) && names_path(texts(f.banlist_add@), p))),
        texts(m.sentinels_add@).contains(p) <==> names_path(
            texts_under(table_model(c.defaults), "sentinels_add"@),
            p,
        ) || (over matches Some(o) && names_path(texts(o.sentinels_add@), p)) || (
        file matches Some(f) && names_path(texts(f.sentinels_add@), p)),
        file matches Some(f) ==> (table_model(f.policy).contains_key(p) && p != "shrink_guard"@ && p
            != "thin"@ && !(table_model(f.policy)[p] is Table) ==> table_model(
            m.table,
        ).contains_key(p) && table_model(m.table)[p] == table_model(f.policy)[p]),
        file matches Some(f) ==> (leaf_name(
            Seq::empty(),
            Model::Table(unprotected(table_model(f.policy))),
            p,
        ) ==> m.origins@.contains_key(p) && m.origins@[p]@ == ".bpm.toml"@),
        m.ignored_project_keys@.len() > 0 ==> (file matches Some(f) && (table_model(
            f.policy,
        ).contains_key("shrink_guard"@) || table_model(f.policy).contains_key("thin"@))),
{
    let firsts = profile_firsts(b, c, names);
    let primary = firsts + added(over) + added(file);
    law_those_in_both_lists(normalized(primary), rel_texts(m.banlist@), p);
    law_only_paths_below_count(primary, p);
    lemma_names_path(primary, p);
    lemma_either_names(firsts + added(over), added(file), p);
    lemma_either_names(firsts, added(over), p);
    let d = texts_under(table_model(c.defaults), "sentinels_add"@);
    let all = d + sentinels_of(over) + sentinels_of(file);
    law_only_paths_below_count(all, p);
    lemma_names_path(all, p);
    lemma_either_names(d + sentinels_of(over), sentinels_of(file), p);
    lemma_either_names(d, sentinels_of(over), p);
    if file is Some {
        let f = file->0;
        let layers = layers_of(b, c, root, name, names, over, file);
        let top = (unprotected(table_model(f.policy)), ".bpm.toml"@);
        assert(layers.last() == top);
        law_origins_are_the_highest_layer(layers.drop_last(), top, p);
        assert(layers.drop_last().push(top) =~= layers);
        lemma_stacks_are_tables(layers.drop_last());
        if leaf_name(Seq::empty(), Model::Table(top.0), p) {
            assert(origin_at(layers, p) == Some(".bpm.toml"@));
            assert(m.origins@.contains_key(p));
        }
        if table_model(f.policy).contains_key(p) && p != "shrink_guard"@ && p != "thin"@ && !(
        table_model(f.policy)[p] is Table) {
            let below = stacked(layers.drop_last())->Table_0;
            assert(top.0.contains_key(p) && top.0[p] == table_model(f.policy)[p]);
            assert(overlaid(Model::Table(below), Model::Table(top.0))->Table_0.contains_key(p));
            if below.contains_key(p) {
                assert(overlaid(below[p], top.0[p]) == top.0[p]);
            }
        }
    }
    assert(texts(m.ignored_project_keys@).len() == m.ignored_project_keys@.len());
}

/// Layers that lie over each other make a table.
proof fn lemma_stacks_are_tables(l: Seq<(Map<Seq<char>, Model>, Seq<char>)>)
    ensures
        stacked(l) is Table,
    decreases l.len(),
{
    if l.len() > 0 {
        lemma_stacks_are_tables(l.drop_last());
    }
}

} // verus!
