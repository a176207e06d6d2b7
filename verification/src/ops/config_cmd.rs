//! `config`: the configuration as loaded, or that of a project with its origins.

use vstd::prelude::*;

use crate::config::effective::EffectiveConfig;
use crate::config::schema::RootCfg;
use crate::error::BpmError;
use crate::outside;
use crate::project::locate_path;
#[allow(unused_imports)]
use crate::project::holds;
use crate::util::paths::path_join;
#[allow(unused_imports)]
use crate::util::paths::joined_path;
use crate::util::relpath::RelPath;
#[allow(unused_imports)]
use crate::util::relpath::{rel_texts, steps};
use crate::util::strmap::StrMap;
use crate::util::text::{cat2, cat3, cat5, contains, join};
#[allow(unused_imports)]
use crate::util::text::{has_text, joined, occurs, texts};

verus! {

/// A setting as it is printed: a value as the file format writes it, or settings under names.
pub enum Setting {
    Value(String),
    Table(Vec<(String, Setting)>),
}

/// Where a setting comes from, as it is printed behind it.
pub open spec fn origin_text(
    origins: Map<Seq<char>, String>,
    key: Seq<char>,
    show: bool,
) -> Seq<char> {
    if show && origins.contains_key(key) {
        "  # "@ + origins[key]@
    } else {
        Seq::empty()
    }
}

/// The lines of the values among the first `n` settings.
pub open spec fn value_lines(
    t: Seq<(String, Setting)>,
    prefix: Seq<char>,
    origins: Map<Seq<char>, String>,
    show: bool,
    n: int,
) -> Seq<char>
    decreases n,
{
    if n <= 0 {
        Seq::empty()
    } else {
        value_lines(t, prefix, origins, show, n - 1) + (match t[n - 1].1 {
            Setting::Value(v) => t[n - 1].0@ + " = "@ + v@ + origin_text(
                origins,
                prefix + t[n - 1].0@,
                show,
            ) + "\n"@,
            Setting::Table(_) => Seq::empty(),
        })
    }
}

/// The sections of the tables among the first `n` settings.
pub open spec fn sections(
    t: Vec<(String, Setting)>,
    prefix: Seq<char>,
    origins: Map<Seq<char>, String>,
    show: bool,
    n: int,
) -> Seq<char>
    decreases t, n,
{
    if n <= 0 || n > t@.len() {
        Seq::empty()
    } else {
        sections(t, prefix, origins, show, n - 1) + (match t@[n - 1].1 {
            Setting::Value(_) => Seq::empty(),
            Setting::Table(s) => "\n["@ + prefix + t@[n - 1].0@ + "]\n"@ + rendered(
                s,
                prefix + t@[n - 1].0@ + "."@,
                origins,
                show,
            ),
        })
    }
}

/// Settings as text: the values first, then a section for each table.
pub open spec fn rendered(
    t: Vec<(String, Setting)>,
    prefix: Seq<char>,
    origins: Map<Seq<char>, String>,
    show: bool,
) -> Seq<char>
    decreases t, t@.len() + 1,
{
    value_lines(t@, prefix, origins, show, t@.len() as int) + sections(
        t,
        prefix,
        origins,
        show,
        t@.len() as int,
    )
}

/// The lines of the values of a table.
fn render_values(
    t: &Vec<(String, Setting)>,
    prefix: &str,
    origins: &StrMap<String>,
    show: bool,
) -> (r: String)
    ensures
        r@ == value_lines(t@, prefix@, origins@, show, t@.len() as int),
{
    let mut out = String::new();
    let mut i: usize = 0;
    while i < t.len()
        invariant
            i <= t@.len(),
            out@ == value_lines(t@, prefix@, origins@, show, i as int),
        decreases t@.len() - i,
    {
        let k = t[i].0.as_str();
        match &t[i].1 {
            Setting::Value(v) => {
                let mut line = cat3(k, " = ", v.as_str());
                let mut origin = String::new();
                if show {
                    match origins.get(cat2(prefix, k).as_str()) {
                        Some(o) => {
                            origin = cat2("  # ", o.as_str());
                        },
                        None => {},
                    }
                }
                assert(origin@ =~= origin_text(origins@, prefix@ + k@, show));
                line.append(origin.as_str());
                line.append("\n");
                out.append(line.as_str());
            },
            Setting::Table(_) => {
                assert(out@ =~= out@ + Seq::<char>::empty());
            },
        }
        i += 1;
    }
    out
}

/// Settings as text: the values first, then a section for each table.
pub fn render_table(
    t: &Vec<(String, Setting)>,
    prefix: &str,
    origins: &StrMap<String>,
    show: bool,
) -> (r: String)
    ensures
        r@ == rendered(*t, prefix@, origins@, show),
    decreases t,
{
    let mut out = render_values(t, prefix, origins, show);
    let ghost values = out@;
    let mut i: usize = 0;
    assert(out@ =~= values + sections(*t, prefix@, origins@, show, 0));
    while i < t.len()
        invariant
            i <= t@.len(),
            out@ == values + sections(*t, prefix@, origins@, show, i as int),
        decreases t@.len() - i,
    {
        let ghost before = out@;
        match &t[i].1 {
            Setting::Value(_) => {
                assert(out@ =~= values + sections(*t, prefix@, origins@, show, i + 1));
            },
            Setting::Table(s) => {
                let name = cat2(prefix, t[i].0.as_str());
                let mut b = cat3("\n[", name.as_str(), "]\n");
                let below = cat2(name.as_str(), ".");
                b.append(render_table(s, below.as_str(), origins, show).as_str());
                out.append(b.as_str());
                assert(b@ =~= "\n["@ + prefix@ + t@[i as int].0@ + "]\n"@ + rendered(
                    *s,
                    prefix@ + t@[i as int].0@ + "."@,
                    origins@,
                    show,
                ));
                assert(out@ =~= values + sections(*t, prefix@, origins@, show, i + 1));
            },
        }
        i += 1;
    }
    out
}

/// A list of texts as Rust writes it.
pub open spec fn quoted_list(v: Seq<Seq<char>>) -> Seq<char> {
    "["@ + joined(Seq::new(v.len(), |i: int| outside::quoted(v[i])), ", "@) + "]"@
}

/// A list of texts as Rust writes it.
pub fn show_list(v: &Vec<String>) -> (r: String)
    ensures
        r@ == quoted_list(texts(v@)),
{
    let ghost all = Seq::new(texts(v@).len(), |i: int| outside::quoted(texts(v@)[i]));
    let mut q: Vec<String> = Vec::new();
    let mut i: usize = 0;
    assert(texts(q@) =~= all.take(0));
    while i < v.len()
        invariant
            i <= v@.len(),
            all == Seq::new(texts(v@).len(), |i: int| outside::quoted(texts(v@)[i])),
            texts(q@) == all.take(i as int),
        decreases v@.len() - i,
    {
        let ghost before = texts(q@);
        q.push(outside::quote(v[i].as_str()));
        assert(texts(v@)[i as int] == v@[i as int]@);
        assert(texts(q@) =~= before.push(all[i as int]));
        assert(all.take(i + 1) =~= before.push(all[i as int]));
        i += 1;
    }
    assert(all.take(i as int) =~= all);
    cat3("[", join(&q, ", ").as_str(), "]")
}

/// The texts of paths.
fn path_texts(v: &Vec<RelPath>) -> (r: Vec<String>)
    ensures
        texts(r@) == rel_texts(v@),
{
    let mut out: Vec<String> = Vec::new();
    let mut i: usize = 0;
    assert(texts(out@) =~= rel_texts(v@).take(0));
    while i < v.len()
        invariant
            i <= v@.len(),
            texts(out@) == rel_texts(v@).take(i as int),
        decreases v@.len() - i,
    {
        let ghost before = texts(out@);
        out.push(v[i].text.clone());
        assert(texts(out@) =~= before.push(rel_texts(v@)[i as int]));
        assert(rel_texts(v@).take(i + 1) =~= before.push(rel_texts(v@)[i as int]));
        i += 1;
    }
    assert(rel_texts(v@).take(i as int) =~= rel_texts(v@));
    out
}

/// What is printed of the configuration of a project; `policy` are its settings.
pub open spec fn project_text(
    name: Seq<char>,
    path: Seq<char>,
    eff: EffectiveConfig,
    policy: Vec<(String, Setting)>,
    show: bool,
) -> Seq<char> {
    "# "@ + name + " ("@ + path + ")\nmanaged = "@ + (if eff.managed {
        "true"@
    } else {
        "false"@
    }) + "\nprofiles = "@ + quoted_list(texts(eff.profiles@)) + "\nbanlist = "@ + quoted_list(
        rel_texts(eff.banlist@),
    ) + "\nprimary_banlist = "@ + quoted_list(rel_texts(eff.primary_banlist@))
        + "\nnever_precreate = "@ + quoted_list(rel_texts(eff.never_precreate@))
        + "\nsentinels = "@ + quoted_list(texts(eff.sentinels@)) + "\n\n# policy\n"@ + rendered(
        policy,
        ""@,
        eff.origins@,
        show,
    )
}

/// What is printed of the configuration of a project; `policy` are its settings.
pub fn show_project(
    name: &str,
    path: &str,
    eff: &EffectiveConfig,
    policy: &Vec<(String, Setting)>,
    show: bool,
) -> (r: String)
    ensures
        r@ == project_text(name@, path@, *eff, *policy, show),
{
    let mut s = cat5("# ", name, " (", path, ")\nmanaged = ");
    if eff.managed {
        s.append("true");
    } else {
        s.append("false");
    }
    s.append("\nprofiles = ");
    s.append(show_list(&eff.profiles).as_str());
    s.append("\nbanlist = ");
    s.append(show_list(&path_texts(&eff.banlist)).as_str());
    s.append("\nprimary_banlist = ");
    s.append(show_list(&path_texts(&eff.primary_banlist)).as_str());
    s.append("\nnever_precreate = ");
    s.append(show_list(&path_texts(&eff.never_precreate)).as_str());
    s.append("\nsentinels = ");
    s.append(show_list(&eff.sentinels).as_str());
    s.append("\n\n# policy\n");
    s.append(render_table(policy, "", &eff.origins, show).as_str());
    s
}

/// What is printed of the configuration as loaded.
pub fn run(source: Option<&str>, settings: &str) -> (r: String)
    ensures
        r@ == "# source: "@ + (match source {
            Some(p) => p@,
            None => "embedded default (no config file)"@,
        }) + "\n"@ + settings@,
{
    let src = match source {
        Some(p) => p,
        None => "embedded default (no config file)",
    };
    let mut s = cat3("# source: ", src, "\n");
    s.append(settings);
    s
}

/// Where a project is looked for that the store does not know.
pub open spec fn candidate_path(spec: Seq<char>, roots: Seq<RootCfg>) -> Seq<char> {
    if has_text(spec, "/"@) || roots.len() == 0 {
        spec
    } else {
        joined_path(roots[0].path@, spec)
    }
}

/// Where a project is looked for that the store does not know.
pub fn candidate(spec: &str, roots: &Vec<RootCfg>) -> (r: String)
    ensures
        r@ == candidate_path(spec@, roots@),
{
    if contains(spec, "/") || roots.len() == 0 {
        return spec.to_owned();
    }
    path_join(roots[0].path.as_str(), spec)
}

/// Which directory of which root a place belongs to: its root, its name and its path.
pub fn locate(spec: &str, abs: &str, roots: &Vec<RootCfg>) -> (r: Result<
    (usize, String, String),
    BpmError,
>)
    ensures
        match r {
            Ok((i, name, path)) => i < roots@.len() && holds(roots@[i as int].path@, abs@) && (
            forall|j: int| 0 <= j < i ==> !holds((#[trigger] roots@[j]).path@, abs@)) && name@
                == steps(abs@)[steps(roots@[i as int].path@).len() as int] && path@ == joined_path(
                roots@[i as int].path@,
                name@,
            ),
            Err(e) => (forall|j: int|
                0 <= j < roots@.len() ==> !holds((#[trigger] roots@[j]).path@, abs@)) && e is Usage
                && e->Usage_0@ == spec@ + " is not inside a configured root"@,
        },
{
    match locate_path(roots, abs) {
        Some((i, name)) => {
            let path = path_join(roots[i].path.as_str(), name.as_str());
            Ok((i, name, path))
        },
        None => Err(BpmError::Usage(cat2(spec, " is not inside a configured root"))),
    }
}

/// What is named by a path is looked for there, and a bare name below the first root.
pub proof fn law_bare_names_are_looked_for_below_the_first_root(
    spec: Seq<char>,
    roots: Seq<RootCfg>,
)
    requires
        roots.len() > 0,
    ensures
        spec.contains('/') ==> candidate_path(spec, roots) == spec,
        !spec.contains('/') ==> candidate_path(spec, roots) == joined_path(roots[0].path@, spec),
        candidate_path(spec, Seq::empty()) == spec,
{
    reveal_strlit("/");
    if spec.contains('/') {
        let i = choose|i: int| 0 <= i < spec.len() && spec[i] == '/';
        assert(spec.subrange(i, i + 1) =~= "/"@);
        assert(occurs(spec, "/"@, i));
    }
    if has_text(spec, "/"@) {
        let i = choose|i: int| occurs(spec, "/"@, i);
        assert(spec.subrange(i, i + 1)[0] == '/');
        assert(spec[i] == '/');
    }
}

} // verus!
