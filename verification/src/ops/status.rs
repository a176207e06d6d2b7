//! `status`: all projects at a glance, or one in detail.

use vstd::prelude::*;

use crate::btrfs::SubvolInfo;
use crate::config::effective::EffectiveConfig;
use crate::output::Table;
#[allow(unused_imports)]
use crate::output::{row_texts, spaces, table_text};
use crate::policy::change::changed_since;
#[allow(unused_imports)]
use crate::policy::change::differs;
#[allow(unused_imports)]
use crate::store::meta::ErrorRecord;
use crate::project::ProjectRef;
use crate::store::meta::Stage;
#[allow(unused_imports)]
use crate::store::meta::{kind_name, stage_name};
use crate::store::{newest, ProjectState, SnapshotMeta};
#[allow(unused_imports)]
use crate::store::newest_index;
use crate::util::order::name_order;
#[allow(unused_imports)]
use crate::util::order::is_name_order;
#[allow(unused_imports)]
use crate::util::relpath::rel_texts;
use crate::util::strmap::StrMap;
use crate::util::text::{cat2, cat3, chars_of, copy_list, dec_u64, join, str_eq, string_of};
#[allow(unused_imports)]
use crate::util::text::{dec, joined, texts};
#[allow(unused_imports)]
use crate::util::time::{ago, local_time};
use crate::util::time::{age, fmt_age, fmt_local, Timestamp};

verus! {

/// What is known of a project of a root.
pub struct RowFacts {
    pub name: String,
    pub path: String,
    /// The name under which the store keeps it.
    pub unit: String,
    pub state: ProjectState,
    pub snaps: Vec<SnapshotMeta>,
    /// Nothing stands in its place.
    pub missing: bool,
    pub exclusive_bytes: Option<u64>,
    /// The size of its snapshots as people read it.
    pub exclusive: String,
}

/// A project in the overview.
pub struct ProjectRow {
    pub name: String,
    pub path: String,
    pub stage: String,
    pub idle: Option<String>,
    pub snapshots: usize,
    pub newest: Option<u64>,
    pub newest_age: Option<String>,
    pub frozen: Option<Vec<String>>,
    pub flags: Vec<String>,
    pub exclusive_bytes: Option<u64>,
    /// The size of its snapshots as people read it.
    pub exclusive: String,
}

/// The first `n` characters of a text.
pub open spec fn head(s: Seq<char>, n: int) -> Seq<char> {
    if s.len() <= n {
        s
    } else {
        s.take(n)
    }
}

/// The first `n` characters of a text.
fn first_chars(s: &str, n: usize) -> (r: String)
    ensures
        r@ == head(s@, n as int),
{
    let v = chars_of(s);
    if v.len() <= n {
        return s.to_owned();
    }
    let t = string_of(&v, 0, n);
    assert(t@ =~= s@.take(n as int));
    t
}

/// How many snapshots are held.
pub open spec fn held_count(s: Seq<SnapshotMeta>) -> nat
    decreases s.len(),
{
    if s.len() == 0 {
        0
    } else {
        held_count(s.drop_last()) + if s.last().hold {
            1nat
        } else {
            0nat
        }
    }
}

/// How many snapshots are held.
pub fn count_held(snaps: &Vec<SnapshotMeta>) -> (r: usize)
    ensures
        r == held_count(snaps@),
        r <= snaps@.len(),
{
    let mut n: usize = 0;
    let mut i: usize = 0;
    assert(snaps@.take(0) =~= Seq::<SnapshotMeta>::empty());
    while i < snaps.len()
        invariant
            i <= snaps@.len(),
            n <= i,
            n == held_count(snaps@.take(i as int)),
        decreases snaps@.len() - i,
    {
        assert(snaps@.take(i + 1).drop_last() =~= snaps@.take(i as int));
        if snaps[i].hold {
            n += 1;
        }
        i += 1;
    }
    assert(snaps@.take(i as int) =~= snaps@);
    n
}

/// One text, or none.
pub open spec fn only_if(b: bool, t: Seq<char>) -> Seq<Seq<char>> {
    if b {
        seq![t]
    } else {
        Seq::empty()
    }
}

/// What is to be said of the last error.
pub open spec fn error_flag(e: Option<ErrorRecord>) -> Seq<Seq<char>> {
    match e {
        Some(e) => seq!["ERROR("@ + head(e.message@, 60) + ")"@],
        None => Seq::empty(),
    }
}

/// What is to be said of a project.
pub open spec fn flags_of(f: RowFacts) -> Seq<Seq<char>> {
    only_if(f.missing && f.state.stage != Stage::Archived, "MISSING"@) + only_if(
        f.name@ != f.unit@,
        "RENAMED(store:"@ + f.unit@ + ")"@,
    ) + error_flag(f.state.last_error) + Seq::new(
        f.state.pending_convert.keys().len(),
        |i: int| "CONVERT("@ + f.state.pending_convert.keys()[i] + ")"@,
    ) + only_if(held_count(f.snaps@) > 0, "HELD("@ + dec(held_count(f.snaps@)) + ")"@)
}

/// What is to be said of a project.
pub fn flags(f: &RowFacts) -> (r: Vec<String>)
    ensures
        texts(r@) == flags_of(*f),
{
    let mut out: Vec<String> = Vec::new();
    let ghost a = only_if(f.missing && f.state.stage != Stage::Archived, "MISSING"@);
    if f.missing && f.state.stage != Stage::Archived {
        out.push("MISSING".to_owned());
    }
    assert(texts(out@) =~= a);
    let ghost b = only_if(f.name@ != f.unit@, "RENAMED(store:"@ + f.unit@ + ")"@);
    if !str_eq(f.name.as_str(), f.unit.as_str()) {
        out.push(cat3("RENAMED(store:", f.unit.as_str(), ")"));
    }
    assert(texts(out@) =~= a + b);
    let ghost c = error_flag(f.state.last_error);
    match &f.state.last_error {
        Some(e) => {
            out.push(cat3("ERROR(", first_chars(e.message.as_str(), 60).as_str(), ")"));
        },
        None => {},
    }
    assert(texts(out@) =~= a + b + c);
    let ghost keys = f.state.pending_convert.keys();
    let ghost d = Seq::new(keys.len(), |i: int| "CONVERT("@ + keys[i] + ")"@);
    let e = f.state.pending_convert.entries();
    let mut i: usize = 0;
    assert(texts(out@) =~= a + b + c + d.take(0));
    while i < e.len()
        invariant
            i <= e@.len(),
            e@ == f.state.pending_convert.pairs(),
            keys == f.state.pending_convert.keys(),
            d == Seq::new(keys.len(), |i: int| "CONVERT("@ + keys[i] + ")"@),
            texts(out@) == a + b + c + d.take(i as int),
        decreases e@.len() - i,
    {
        let ghost before = texts(out@);
        out.push(cat3("CONVERT(", e[i].0.as_str(), ")"));
        assert(keys[i as int] == e@[i as int].0@);
        assert(texts(out@) =~= before.push(d[i as int]));
        assert(a + b + c + d.take(i + 1) =~= before.push(d[i as int]));
        i += 1;
    }
    assert(d.take(i as int) =~= d);
    let n: usize = count_held(&f.snaps);
    if n > 0 {
        out.push(cat3("HELD(", dec_u64(n as u64).as_str(), ")"));
    }
    assert(texts(out@) =~= flags_of(*f));
    out
}

/// A text that is there or not.
pub open spec fn text_of(s: Option<String>) -> Option<Seq<char>> {
    match s {
        Some(t) => Some(t@),
        None => None,
    }
}

/// Texts that are there or not.
pub open spec fn texts_of(s: Option<Vec<String>>) -> Option<Seq<Seq<char>>> {
    match s {
        Some(t) => Some(texts(t@)),
        None => None,
    }
}

/// A row says of a project what is known of it at an instant.
pub open spec fn is_row(f: RowFacts, now: Timestamp, r: ProjectRow) -> bool {
    &&& r.name@ == f.name@
    &&& r.path@ == f.path@
    &&& r.stage@ == stage_name(f.state.stage)
    &&& text_of(r.idle) == match f.state.last_change_at {
        Some(t) => Some(ago(now, t)),
        None => None,
    }
    &&& r.snapshots == f.snaps@.len()
    &&& r.newest == match newest_index(f.snaps@) {
        Some(i) => Some(f.snaps@[i].id),
        None => None,
    }
    &&& text_of(r.newest_age) == match newest_index(f.snaps@) {
        Some(i) => Some(ago(now, f.snaps@[i].created)),
        None => None,
    }
    &&& texts_of(r.frozen) == match f.state.frozen {
        Some(z) => Some(texts(z.reasons@)),
        None => None,
    }
    &&& texts(r.flags@) == flags_of(f)
    &&& r.exclusive_bytes == if f.snaps@.len() > 0 {
        f.exclusive_bytes
    } else {
        None
    }
    &&& r.exclusive@ == f.exclusive@
}

/// The row of a project.
pub fn row(f: &RowFacts, now: Timestamp) -> (r: ProjectRow)
    ensures
        is_row(*f, now, r),
{
    let n = newest(&f.snaps);
    let (id, newest_age, exclusive_bytes) = match n {
        Some(m) => (Some(m.id), Some(fmt_age(age(now, m.created))), f.exclusive_bytes),
        None => (None, None, None),
    };
    ProjectRow {
        name: f.name.clone(),
        path: f.path.clone(),
        stage: f.state.stage.as_str().to_owned(),
        idle: match f.state.last_change_at {
            Some(t) => Some(fmt_age(age(now, t))),
            None => None,
        },
        snapshots: f.snaps.len(),
        newest: id,
        newest_age,
        frozen: match &f.state.frozen {
            Some(z) => Some(copy_list(&z.reasons)),
            None => None,
        },
        flags: flags(f),
        exclusive_bytes,
        exclusive: f.exclusive.clone(),
    }
}

/// The names of projects.
pub open spec fn fact_names(f: Seq<RowFacts>) -> Seq<Seq<char>> {
    Seq::new(f.len(), |i: int| f[i].name@)
}

/// The rows are those of the projects in the order `o`.
pub open spec fn rows_in(
    f: Seq<RowFacts>,
    now: Timestamp,
    o: Seq<usize>,
    r: Seq<ProjectRow>,
) -> bool {
    r.len() == o.len() && forall|i: int|
        0 <= i < r.len() ==> is_row(f[o[i] as int], now, #[trigger] r[i])
}

/// The rows of all projects, in order of their names.
pub fn rows(facts: &Vec<RowFacts>, now: Timestamp) -> (r: Vec<ProjectRow>)
    ensures
        exists|o: Seq<usize>|
            #[trigger] is_name_order(fact_names(facts@), o) && rows_in(facts@, now, o, r@),
{
    let mut names: Vec<String> = Vec::new();
    let ghost all = fact_names(facts@);
    let mut i: usize = 0;
    assert(texts(names@) =~= all.take(0));
    while i < facts.len()
        invariant
            i <= facts@.len(),
            all == fact_names(facts@),
            texts(names@) == all.take(i as int),
        decreases facts@.len() - i,
    {
        let ghost before = texts(names@);
        names.push(facts[i].name.clone());
        assert(texts(names@) =~= before.push(all[i as int]));
        assert(all.take(i + 1) =~= before.push(all[i as int]));
        i += 1;
    }
    assert(all.take(i as int) =~= all);
    let o = name_order(&names);
    let mut out: Vec<ProjectRow> = Vec::new();
    let mut k: usize = 0;
    while k < o.len()
        invariant
            k <= o@.len(),
            is_name_order(fact_names(facts@), o@),
            out@.len() == k,
            forall|j: int| 0 <= j < k ==> is_row(facts@[o@[j] as int], now, #[trigger] out@[j]),
        decreases o@.len() - k,
    {
        out.push(row(&facts[o[k]], now));
        k += 1;
    }
    assert(rows_in(facts@, now, o@, out@));
    out
}

/// A root in the overview.
pub struct RootReport {
    pub root: String,
    pub store: String,
    pub store_exists: bool,
    pub free_bytes: Option<u64>,
    pub projects: Vec<ProjectRow>,
    pub unadopted: Vec<String>,
    pub foreign_subvolumes: Vec<String>,
    pub ignored: Vec<String>,
    pub leftovers: Vec<String>,
    pub container_snapshots: usize,
    /// The free space as people read it.
    pub free: String,
}

/// The cells of a project.
pub open spec fn row_cells(p: ProjectRow) -> Seq<Seq<char>> {
    seq![
        p.name@,
        p.stage@,
        match p.idle {
            Some(t) => t@,
            None => "-"@,
        },
        dec(p.snapshots as nat),
        match p.newest {
            Some(id) => "#"@ + dec(id as nat) + " "@ + (match p.newest_age {
                Some(t) => t@,
                None => Seq::empty(),
            }) + " ago"@,
            None => "-"@,
        },
        joined(
            only_if(p.frozen is Some, "FROZEN"@) + texts(p.flags@) + only_if(
                p.exclusive_bytes is Some,
                "store-exclusive "@ + p.exclusive@,
            ),
            " "@,
        ),
    ]
}

/// The cells of a project.
pub fn cells(p: &ProjectRow) -> (r: Vec<String>)
    ensures
        texts(r@) == row_cells(*p),
{
    let mut flags: Vec<String> = Vec::new();
    if p.frozen.is_some() {
        flags.push("FROZEN".to_owned());
    }
    let ghost a = only_if(p.frozen is Some, "FROZEN"@);
    assert(texts(flags@) =~= a);
    let mut i: usize = 0;
    assert(a =~= a + texts(p.flags@).take(0));
    while i < p.flags.len()
        invariant
            i <= p.flags@.len(),
            texts(flags@) == a + texts(p.flags@).take(i as int),
        decreases p.flags@.len() - i,
    {
        let ghost before = texts(flags@);
        flags.push(p.flags[i].clone());
        assert(texts(flags@) =~= before.push(texts(p.flags@)[i as int]));
        assert(a + texts(p.flags@).take(i + 1) =~= before.push(texts(p.flags@)[i as int]));
        i += 1;
    }
    assert(texts(p.flags@).take(i as int) =~= texts(p.flags@));
    if p.exclusive_bytes.is_some() {
        flags.push(cat2("store-exclusive ", p.exclusive.as_str()));
    }
    assert(texts(flags@) =~= a + texts(p.flags@) + only_if(
        p.exclusive_bytes is Some,
        "store-exclusive "@ + p.exclusive@,
    ));
    let idle = match &p.idle {
        Some(t) => t.clone(),
        None => "-".to_owned(),
    };
    let newest = match p.newest {
        Some(id) => {
            let mut t = cat3("#", dec_u64(id).as_str(), " ");
            match &p.newest_age {
                Some(a) => {
                    t.append(a.as_str());
                },
                None => {},
            }
            t.append(" ago");
            t
        },
        None => "-".to_owned(),
    };
    let mut v: Vec<String> = Vec::new();
    v.push(p.name.clone());
    v.push(p.stage.clone());
    v.push(idle);
    v.push(dec_u64(p.snapshots as u64));
    v.push(newest);
    v.push(join(&flags, " "));
    assert(newest@ =~= row_cells(*p)[4]);
    assert(texts(v@) =~= row_cells(*p));
    v
}

/// How to go on with a frozen project.
pub open spec fn frozen_block(name: Seq<char>, reasons: Seq<Seq<char>>) -> Seq<char> {
    "\n"@ + name + " is FROZEN: "@ + joined(reasons, "; "@) + "\n  inspect: bpm list "@ + name
        + "; bpm diff "@ + name + " held\n  resolve: bpm rollback "@ + name
        + " held   or   bpm unfreeze "@ + name + "\n"@
}

/// How to go on with the frozen ones among the first `n` projects.
pub open spec fn frozen_blocks(p: Seq<ProjectRow>, n: int) -> Seq<char>
    decreases n,
{
    if n <= 0 {
        Seq::empty()
    } else {
        frozen_blocks(p, n - 1) + (match p[n - 1].frozen {
            Some(z) => frozen_block(p[n - 1].name@, texts(z@)),
            None => Seq::empty(),
        })
    }
}

/// A line that lists names, or nothing where there are none.
pub open spec fn names_line(title: Seq<char>, names: Seq<Seq<char>>) -> Seq<char> {
    if names.len() == 0 {
        Seq::empty()
    } else {
        title + joined(names, ", "@) + "\n"@
    }
}

/// A line that lists names, or nothing where there are none.
fn list_names(title: &str, names: &Vec<String>) -> (r: String)
    ensures
        r@ == names_line(title@, texts(names@)),
{
    if names.len() == 0 {
        return String::new();
    }
    cat3(title, join(names, ", ").as_str(), "\n")
}

/// The cells of all projects of a root.
pub open spec fn all_cells(r: RootReport) -> Seq<Seq<Seq<char>>> {
    Seq::new(r.projects@.len(), |i: int| row_cells(r.projects@[i]))
}

/// What is printed of a root.
pub open spec fn root_text(r: RootReport, unadopted: bool) -> Seq<char> {
    "root "@ + r.root@ + "  store "@ + r.store@ + (if r.store_exists {
        ""@
    } else {
        " (missing: run `bpm setup`)"@
    }) + "  free "@ + (if r.free_bytes is Some {
        r.free@
    } else {
        "?"@
    }) + "  container snapshots "@ + dec(r.container_snapshots as nat) + "\n"@ + (
    if r.projects@.len() == 0 {
        Seq::empty()
    } else {
        table_text(
            seq!["PROJECT"@, "STAGE"@, "IDLE"@, "SNAPS"@, "NEWEST"@, "FLAGS"@],
            all_cells(r),
        )
    }) + frozen_blocks(r.projects@, r.projects@.len() as int) + names_line(
        "\nunadopted (plain directories, not protected): "@,
        texts(r.unadopted@),
    ) + (if unadopted {
        names_line("subvolumes not managed by bpm: "@, texts(r.foreign_subvolumes@)) + names_line(
            "ignored: "@,
            texts(r.ignored@),
        )
    } else {
        Seq::empty()
    }) + names_line(
        "leftovers from interrupted operations (bpm doctor --fix): "@,
        texts(r.leftovers@),
    ) + "\n"@
}

/// The table of the projects of a root; nothing where there are none.
fn project_table(r: &RootReport) -> (t: String)
    ensures
        t@ == (if r.projects@.len() == 0 {
            Seq::empty()
        } else {
            table_text(
                seq!["PROJECT"@, "STAGE"@, "IDLE"@, "SNAPS"@, "NEWEST"@, "FLAGS"@],
                all_cells(*r),
            )
        }),
{
    let mut t = Table::new(&["PROJECT", "STAGE", "IDLE", "SNAPS", "NEWEST", "FLAGS"]);
    let ghost h = seq!["PROJECT"@, "STAGE"@, "IDLE"@, "SNAPS"@, "NEWEST"@, "FLAGS"@];
    assert(texts(t.headers@) =~= h);
    let ghost all = all_cells(*r);
    let mut i: usize = 0;
    assert(row_texts(t.rows@) =~= all.take(0));
    while i < r.projects.len()
        invariant
            i <= r.projects@.len(),
            all == all_cells(*r),
            texts(t.headers@) == h,
            row_texts(t.rows@) == all.take(i as int),
            t.rows@.len() == i,
        decreases r.projects@.len() - i,
    {
        let ghost before = row_texts(t.rows@);
        t.row(cells(&r.projects[i]));
        assert(row_texts(t.rows@) =~= before.push(all[i as int]));
        assert(all.take(i + 1) =~= before.push(all[i as int]));
        i += 1;
    }
    assert(all.take(i as int) =~= all);
    if t.is_empty() {
        return String::new();
    }
    t.render()
}

/// What is printed of a root.
pub fn show_root(r: &RootReport, unadopted: bool) -> (t: String)
    ensures
        t@ == root_text(*r, unadopted),
{
    let mut s = String::new();
    s.append("root ");
    s.append(r.root.as_str());
    s.append("  store ");
    s.append(r.store.as_str());
    if r.store_exists {
        s.append("");
    } else {
        s.append(" (missing: run `bpm setup`)");
    }
    s.append("  free ");
    if r.free_bytes.is_some() {
        s.append(r.free.as_str());
    } else {
        s.append("?");
    }
    s.append("  container snapshots ");
    s.append(dec_u64(r.container_snapshots as u64).as_str());
    s.append("\n");
    s.append(project_table(r).as_str());
    let ghost top = s@;
    let mut i: usize = 0;
    assert(top =~= top + frozen_blocks(r.projects@, 0));
    while i < r.projects.len()
        invariant
            i <= r.projects@.len(),
            s@ == top + frozen_blocks(r.projects@, i as int),
        decreases r.projects@.len() - i,
    {
        let p = &r.projects[i];
        let ghost before = s@;
        match &p.frozen {
            Some(z) => {
                let n = p.name.as_str();
                let mut b = cat3("\n", n, " is FROZEN: ");
                b.append(join(z, "; ").as_str());
                b.append("\n  inspect: bpm list ");
                b.append(n);
                b.append("; bpm diff ");
                b.append(n);
                b.append(" held\n  resolve: bpm rollback ");
                b.append(n);
                b.append(" held   or   bpm unfreeze ");
                b.append(n);
                b.append("\n");
                assert(b@ == frozen_block(p.name@, texts(z@)));
                s.append(b.as_str());
            },
            None => {},
        }
        assert(s@ =~= top + frozen_blocks(r.projects@, i + 1));
        i += 1;
    }
    s.append(
        list_names("\nunadopted (plain directories, not protected): ", &r.unadopted).as_str(),
    );
    let mut more = String::new();
    if unadopted {
        more.append(
            list_names("subvolumes not managed by bpm: ", &r.foreign_subvolumes).as_str(),
        );
        more.append(list_names("ignored: ", &r.ignored).as_str());
    }
    s.append(more.as_str());
    s.append(
        list_names(
            "leftovers from interrupted operations (bpm doctor --fix): ",
            &r.leftovers,
        ).as_str(),
    );
    s.append("\n");
    assert(s@ =~= root_text(*r, unadopted));
    s
}

/// What is printed of the first `n` roots.
pub open spec fn roots_text(r: Seq<RootReport>, unadopted: bool, n: int) -> Seq<char>
    decreases n,
{
    if n <= 0 {
        Seq::empty()
    } else {
        roots_text(r, unadopted, n - 1) + root_text(r[n - 1], unadopted)
    }
}

/// What is printed of all roots.
pub fn run(reports: &Vec<RootReport>, unadopted: bool) -> (t: String)
    ensures
        t@ == roots_text(reports@, unadopted, reports@.len() as int),
{
    let mut s = String::new();
    let mut i: usize = 0;
    while i < reports.len()
        invariant
            i <= reports@.len(),
            s@ == roots_text(reports@, unadopted, i as int),
        decreases reports@.len() - i,
    {
        s.append(show_root(&reports[i], unadopted).as_str());
        i += 1;
    }
    s
}

/// What stands at a banned path.
#[derive(Clone, Copy, Debug, PartialEq, Eq, Structural)]
pub enum PathState {
    Absent,
    NotDirectory,
    Nested,
    Plain,
}

/// What is said of a banned path.
pub open spec fn state_text(s: PathState) -> Seq<char> {
    match s {
        PathState::Absent => "absent"@,
        PathState::NotDirectory => "not a directory"@,
        PathState::Nested => "nested subvolume (excluded)"@,
        PathState::Plain => "PLAIN DIRECTORY (included in snapshots until converted)"@,
    }
}

impl PathState {
    /// What stands at a banned path: `is_dir` is nothing where there is nothing.
    pub fn of(is_dir: Option<bool>, is_subvolume: bool) -> (r: PathState)
        ensures
            r == match is_dir {
                None => PathState::Absent,
                Some(false) => PathState::NotDirectory,
                Some(true) => if is_subvolume {
                    PathState::Nested
                } else {
                    PathState::Plain
                },
            },
    {
        match is_dir {
            None => PathState::Absent,
            Some(false) => PathState::NotDirectory,
            Some(true) => if is_subvolume {
                PathState::Nested
            } else {
                PathState::Plain
            },
        }
    }

    /// What is said of it.
    pub fn as_str(self) -> (r: &'static str)
        ensures
            r@ == state_text(self),
    {
        match self {
            PathState::Absent => "absent",
            PathState::NotDirectory => "not a directory",
            PathState::Nested => "nested subvolume (excluded)",
            PathState::Plain => "PLAIN DIRECTORY (included in snapshots until converted)",
        }
    }
}

/// What stands at each banned path.
pub open spec fn state_map(b: Seq<Seq<char>>, s: Seq<PathState>, n: int) -> Map<Seq<char>, PathState>
    decreases n,
{
    if n <= 0 {
        Map::empty()
    } else {
        state_map(b, s, n - 1).insert(b[n - 1], s[n - 1])
    }
}

/// What stands at each banned path; `states` are in the order of the banned paths.
pub fn banlist_states(eff: &EffectiveConfig, states: &Vec<PathState>) -> (r: StrMap<PathState>)
    requires
        states@.len() == eff.banlist@.len(),
    ensures
        r@ == state_map(rel_texts(eff.banlist@), states@, states@.len() as int),
{
    let mut m: StrMap<PathState> = StrMap::new();
    let ghost b = rel_texts(eff.banlist@);
    let mut i: usize = 0;
    while i < states.len()
        invariant
            i <= states@.len(),
            states@.len() == eff.banlist@.len(),
            b == rel_texts(eff.banlist@),
            m@ == state_map(b, states@, i as int),
        decreases states@.len() - i,
    {
        m.insert(eff.banlist[i].text.clone(), states[i]);
        assert(b[i as int] == eff.banlist@[i as int].text@);
        i += 1;
    }
    m
}

/// The nested subvolumes among the first `n` that are not banned.
pub open spec fn not_banned(nested: Seq<Seq<char>>, banned: Seq<Seq<char>>, n: int) -> Seq<Seq<char>>
    decreases n,
{
    if n <= 0 {
        Seq::empty()
    } else if banned.contains(nested[n - 1]) {
        not_banned(nested, banned, n - 1)
    } else {
        not_banned(nested, banned, n - 1).push(nested[n - 1])
    }
}

/// The nested subvolumes that snapshots leave out though nobody said so.
pub fn unprotected_nested(eff: &EffectiveConfig, nested: &Vec<String>) -> (r: Vec<String>)
    ensures
        texts(r@) == not_banned(
            texts(nested@),
            rel_texts(eff.banlist@),
            nested@.len() as int,
        ),
{
    let mut out: Vec<String> = Vec::new();
    let ghost all = texts(nested@);
    let ghost b = rel_texts(eff.banlist@);
    let mut i: usize = 0;
    assert(texts(out@) =~= not_banned(all, b, 0));
    while i < nested.len()
        invariant
            i <= nested@.len(),
            all == texts(nested@),
            b == rel_texts(eff.banlist@),
            texts(out@) == not_banned(all, b, i as int),
        decreases nested@.len() - i,
    {
        let ghost before = texts(out@);
        assert(all[i as int] == nested@[i as int]@);
        if !eff.is_banned(nested[i].as_str()) {
            out.push(nested[i].clone());
            assert(texts(out@) =~= before.push(all[i as int]));
        }
        i += 1;
    }
    out
}

/// How many snapshots there are of each kind, by its name.
pub open spec fn kind_counts(s: Seq<SnapshotMeta>) -> Map<Seq<char>, usize>
    decreases s.len(),
{
    if s.len() == 0 {
        Map::empty()
    } else {
        let m = kind_counts(s.drop_last());
        let k = kind_name(s.last().kind);
        m.insert(
            k,
            if m.contains_key(k) {
                (m[k] + 1) as usize
            } else {
                1
            },
        )
    }
}

/// How many snapshots there are of each kind, by its name.
pub fn snapshots_by_kind(snaps: &Vec<SnapshotMeta>) -> (r: StrMap<usize>)
    ensures
        r@ == kind_counts(snaps@),
        forall|k: Seq<char>| #[trigger] r@.contains_key(k) ==> r@[k] <= snaps@.len(),
{
    let mut m: StrMap<usize> = StrMap::new();
    let mut i: usize = 0;
    assert(snaps@.take(0) =~= Seq::<SnapshotMeta>::empty());
    while i < snaps.len()
        invariant
            i <= snaps@.len(),
            m@ == kind_counts(snaps@.take(i as int)),
            forall|k: Seq<char>| #[trigger] m@.contains_key(k) ==> m@[k] <= i,
        decreases snaps@.len() - i,
    {
        assert(snaps@.take(i + 1).drop_last() =~= snaps@.take(i as int));
        let k = snaps[i].kind.as_str();
        let n: usize = match m.get(k) {
            Some(n) => *n + 1,
            None => 1,
        };
        m.insert(k.to_owned(), n);
        i += 1;
    }
    assert(snaps@.take(i as int) =~= snaps@);
    m
}

/// Everything about one project at an instant. The texts are its times and sizes as people read
/// them; each is used where the state has what it stands for.
pub struct Detail {
    pub now: Timestamp,
    pub name: String,
    pub path: String,
    pub state: ProjectState,
    pub profiles: Vec<String>,
    pub banlist: StrMap<PathState>,
    pub unprotected_nested: Vec<String>,
    pub snapshots: usize,
    pub snapshots_by_kind: StrMap<usize>,
    /// Nothing where the project is not there.
    pub live_ctransid: Option<u64>,
    /// Nothing where the project is not there.
    pub changed_since_newest: Option<bool>,
    pub stage_since: String,
    pub last_change: String,
    pub frozen_since: String,
    pub ref_bytes: String,
    pub recompressed: String,
    pub last_error: String,
}

/// Whether the project changed since its newest snapshot; nothing where it is not there.
pub fn live_changed(live: Option<&SubvolInfo>, snaps: &Vec<SnapshotMeta>) -> (r: Option<bool>)
    ensures
        match live {
            None => r is None,
            Some(l) => r == Some(
                differs(
                    *l,
                    match newest_index(snaps@) {
                        Some(i) => Some(&snaps@[i]),
                        None => None,
                    },
                ),
            ),
        },
{
    match live {
        Some(l) => Some(changed_since(l, newest(snaps))),
        None => None,
    }
}

/// An instant in a time zone; nothing where there is none.
pub open spec fn local_or_empty(t: Option<Timestamp>, tz: jiff::tz::TimeZone) -> Seq<char> {
    match t {
        Some(x) => local_time(x, tz),
        None => Seq::empty(),
    }
}

/// An instant in a time zone; nothing where there is none.
fn show_local(t: Option<Timestamp>, tz: &jiff::tz::TimeZone) -> (r: String)
    ensures
        r@ == local_or_empty(t, *tz),
{
    match t {
        Some(x) => fmt_local(x, tz),
        None => String::new(),
    }
}

/// Since when a project is frozen.
pub open spec fn frozen_at(st: ProjectState) -> Option<Timestamp> {
    match st.frozen {
        Some(f) => Some(f.since),
        None => None,
    }
}

/// When a project was recompressed.
pub open spec fn recompressed_at(st: ProjectState) -> Option<Timestamp> {
    match st.recompress {
        Some(r) => Some(r.at),
        None => None,
    }
}

/// When something last went wrong with a project.
pub open spec fn failed_at(st: ProjectState) -> Option<Timestamp> {
    match st.last_error {
        Some(e) => Some(e.at),
        None => None,
    }
}

/// What stands in the place of a project, where it is the project.
pub open spec fn live_of(p: ProjectRef, live: Option<&SubvolInfo>) -> Option<&SubvolInfo> {
    match live {
        Some(l) => if l.uuid@ == p.record.uuid@ {
            Some(l)
        } else {
            None
        },
        None => None,
    }
}

/// Gathers everything about one project. `live` is the subvolume in its place, `states` is what
/// stands at its banned paths, in their order, `nested` are the subvolumes in it, and `ref_bytes`
/// is the size that the guard compares with, as people read it. Times are read in a time zone.
pub fn gather(
    p: &ProjectRef,
    eff: &EffectiveConfig,
    state: ProjectState,
    snaps: &Vec<SnapshotMeta>,
    live: Option<&SubvolInfo>,
    states: &Vec<PathState>,
    nested: &Vec<String>,
    ref_bytes: String,
    tz: &jiff::tz::TimeZone,
    now: Timestamp,
) -> (r: Detail)
    requires
        states@.len() == eff.banlist@.len(),
    ensures
        r.now == now && r.name@ == p.unit.name@ && r.path@ == p.record.path@ && r.state == state,
        texts(r.profiles@) == texts(eff.profiles@),
        r.banlist@ == state_map(rel_texts(eff.banlist@), states@, states@.len() as int),
        texts(r.unprotected_nested@) == if live_of(*p, live) is Some {
            not_banned(texts(nested@), rel_texts(eff.banlist@), nested@.len() as int)
        } else {
            Seq::empty()
        },
        r.snapshots == snaps@.len(),
        r.snapshots_by_kind@ == kind_counts(snaps@),
        match live_of(*p, live) {
            Some(l) => r.live_ctransid == Some(l.ctransid) && r.changed_since_newest == Some(
                differs(
                    *l,
                    match newest_index(snaps@) {
                        Some(i) => Some(&snaps@[i]),
                        None => None,
                    },
                ),
            ),
            None => r.live_ctransid is None && r.changed_since_newest is None,
        },
        r.ref_bytes == ref_bytes,
        r.stage_since@ == local_or_empty(state.stage_since, *tz),
        r.last_change@ == local_or_empty(state.last_change_at, *tz),
        r.frozen_since@ == local_or_empty(frozen_at(state), *tz),
        r.recompressed@ == local_or_empty(recompressed_at(state), *tz),
        r.last_error@ == local_or_empty(failed_at(state), *tz),
{
    let here = match live {
        Some(l) => p.is_in_place(Some(l.uuid)),
        None => false,
    };
    let (found, open) = if here {
        (live, unprotected_nested(eff, nested))
    } else {
        (None, Vec::new())
    };
    assert(found == live_of(*p, live));
    assert(!here ==> texts(open@) =~= Seq::<Seq<char>>::empty());
    let stage_since = show_local(state.stage_since, tz);
    let last_change = show_local(state.last_change_at, tz);
    let frozen = match &state.frozen {
        Some(f) => Some(f.since),
        None => None,
    };
    let recompressed = match &state.recompress {
        Some(r) => Some(r.at),
        None => None,
    };
    let failed = match &state.last_error {
        Some(e) => Some(e.at),
        None => None,
    };
    Detail {
        now,
        name: p.name().to_owned(),
        path: p.path().to_owned(),
        state,
        profiles: copy_list(&eff.profiles),
        banlist: banlist_states(eff, states),
        unprotected_nested: open,
        snapshots: snaps.len(),
        snapshots_by_kind: snapshots_by_kind(snaps),
        live_ctransid: match found {
            Some(l) => Some(l.ctransid),
            None => None,
        },
        changed_since_newest: live_changed(found, snaps),
        stage_since,
        last_change,
        frozen_since: show_local(frozen, tz),
        ref_bytes,
        recompressed: show_local(recompressed, tz),
        last_error: show_local(failed, tz),
    }
}

/// A number of snapshots of each kind, in words.
pub open spec fn kind_texts(m: StrMap<usize>) -> Seq<Seq<char>> {
    Seq::new(m.keys().len(), |i: int| m.keys()[i] + " "@ + dec(m@[m.keys()[i]] as nat))
}

/// A number of snapshots of each kind, in words.
fn show_kinds(m: &StrMap<usize>) -> (r: Vec<String>)
    ensures
        texts(r@) == kind_texts(*m),
{
    let e = m.entries();
    let ghost all = kind_texts(*m);
    let mut out: Vec<String> = Vec::new();
    let mut i: usize = 0;
    assert(texts(out@) =~= all.take(0));
    while i < e.len()
        invariant
            i <= e@.len(),
            e@ == m.pairs(),
            forall|j: int|
                0 <= j < e@.len() ==> m@.contains_key((#[trigger] e@[j]).0@) && m@[e@[j].0@]
                    == e@[j].1,
            all == kind_texts(*m),
            texts(out@) == all.take(i as int),
        decreases e@.len() - i,
    {
        let ghost before = texts(out@);
        out.push(cat3(e[i].0.as_str(), " ", dec_u64(e[i].1 as u64).as_str()));
        assert(m.keys()[i as int] == e@[i as int].0@);
        assert(texts(out@) =~= before.push(all[i as int]));
        assert(all.take(i + 1) =~= before.push(all[i as int]));
        i += 1;
    }
    assert(all.take(i as int) =~= all);
    out
}

/// The lines of the first `n` banned paths.
pub open spec fn ban_lines(m: StrMap<PathState>, n: int) -> Seq<char>
    decreases n,
{
    if n <= 0 {
        Seq::empty()
    } else {
        let k = m.keys()[n - 1];
        ban_lines(m, n - 1) + ("    "@ + k + spaces(24 - k.len()) + " "@ + state_text(m@[k]) + "\n"@)
    }
}

/// The lines of the banned paths.
fn show_banlist(m: &StrMap<PathState>) -> (r: String)
    ensures
        r@ == ban_lines(*m, m.keys().len() as int),
{
    let e = m.entries();
    let mut out = String::new();
    let mut i: usize = 0;
    while i < e.len()
        invariant
            i <= e@.len(),
            e@ == m.pairs(),
            forall|j: int|
                0 <= j < e@.len() ==> m@.contains_key((#[trigger] e@[j]).0@) && m@[e@[j].0@]
                    == e@[j].1,
            out@ == ban_lines(*m, i as int),
        decreases e@.len() - i,
    {
        let k = e[i].0.as_str();
        let mut line = cat2("    ", k);
        line.append(pad(k, 24).as_str());
        line.append(" ");
        line.append(e[i].1.as_str());
        line.append("\n");
        assert(m.keys()[i as int] == e@[i as int].0@);
        out.append(line.as_str());
        i += 1;
    }
    out
}

/// What is missing of a text to `n` characters.
fn pad(s: &str, n: usize) -> (r: String)
    ensures
        r@ == spaces(n - s@.len()),
{
    let v = chars_of(s);
    let l: usize = v.len();
    let mut r = String::new();
    let mut j: usize = l;
    assert(r@ =~= spaces(0));
    while j < n
        invariant
            l <= j,
            j <= n || j == l,
            r@ == spaces(j - l),
        decreases n - j,
    {
        r.push(' ');
        assert(spaces(j + 1 - l) =~= spaces(j - l).push(' '));
        j += 1;
    }
    assert(spaces(j - l) =~= spaces(n - l));
    r
}

/// The lines about the freeze.
pub open spec fn frozen_lines(d: Detail) -> Seq<char> {
    match d.state.frozen {
        Some(f) => "  FROZEN     since "@ + d.frozen_since@ + ": "@ + joined(
            texts(f.reasons@),
            "; "@,
        ) + "\n"@ + (match f.ref_snap {
            Some(r) => "             last good snapshot #"@ + dec(r as nat) + " (held): bpm diff "@
                + d.name@ + " "@ + dec(r as nat) + "   bpm rollback "@ + d.name@ + " "@ + dec(
                r as nat,
            ) + "   bpm unfreeze "@ + d.name@ + "\n"@,
            None => Seq::empty(),
        }),
        None => Seq::empty(),
    }
}

/// The lines about the freeze.
fn show_frozen(d: &Detail) -> (r: String)
    ensures
        r@ == frozen_lines(*d),
{
    let mut s = String::new();
    match &d.state.frozen {
        Some(f) => {
            s.append("  FROZEN     since ");
            s.append(d.frozen_since.as_str());
            s.append(": ");
            s.append(join(&f.reasons, "; ").as_str());
            s.append("\n");
            let mut t = String::new();
            match f.ref_snap {
                Some(r) => {
                    let id = dec_u64(r);
                    t.append("             last good snapshot #");
                    t.append(id.as_str());
                    t.append(" (held): bpm diff ");
                    t.append(d.name.as_str());
                    t.append(" ");
                    t.append(id.as_str());
                    t.append("   bpm rollback ");
                    t.append(d.name.as_str());
                    t.append(" ");
                    t.append(id.as_str());
                    t.append("   bpm unfreeze ");
                    t.append(d.name.as_str());
                    t.append("\n");
                },
                None => {},
            }
            s.append(t.as_str());
        },
        None => {},
    }
    assert(s@ =~= frozen_lines(*d));
    s
}

/// The line about the mark that the shrink guard compares with.
pub open spec fn guard_line(d: Detail) -> Seq<char> {
    match d.state.ref_stats {
        Some(r) => "  guard ref  "@ + dec(r.files as nat) + " files (#"@ + dec(r.files_snap as nat)
            + "), "@ + d.ref_bytes@ + " (#"@ + dec(r.bytes_snap as nat) + ")\n"@,
        None => Seq::empty(),
    }
}

/// The line about the last recompression.
pub open spec fn recompress_line(d: Detail) -> Seq<char> {
    match d.state.recompress {
        Some(r) => "  recompress "@ + d.recompressed@ + " zstd:"@ + dec(r.level as nat) + (
        match r.skipped {
            Some(x) => " skipped: "@ + x@,
            None => Seq::empty(),
        }) + "\n"@,
        None => Seq::empty(),
    }
}

/// The line about the last error.
pub open spec fn error_line(d: Detail) -> Seq<char> {
    match d.state.last_error {
        Some(e) => "  last error "@ + d.last_error@ + ": "@ + e.message@ + "\n"@,
        None => Seq::empty(),
    }
}

/// The lines about the guard and the last recompression.
fn show_records(d: &Detail) -> (r: String)
    ensures
        r@ == guard_line(*d) + recompress_line(*d),
{
    let mut s = String::new();
    match &d.state.ref_stats {
        Some(r) => {
            s.append("  guard ref  ");
            s.append(dec_u64(r.files).as_str());
            s.append(" files (#");
            s.append(dec_u64(r.files_snap).as_str());
            s.append("), ");
            s.append(d.ref_bytes.as_str());
            s.append(" (#");
            s.append(dec_u64(r.bytes_snap).as_str());
            s.append(")\n");
        },
        None => {},
    }
    assert(s@ =~= guard_line(*d));
    let mut t = String::new();
    match &d.state.recompress {
        Some(r) => {
            t.append("  recompress ");
            t.append(d.recompressed.as_str());
            t.append(" zstd:");
            t.append(dec_u64(r.level as u64).as_str());
            match &r.skipped {
                Some(x) => {
                    t.append(cat2(" skipped: ", x.as_str()).as_str());
                },
                None => {},
            }
            t.append("\n");
        },
        None => {},
    }
    assert(t@ =~= recompress_line(*d));
    s.append(t.as_str());
    s
}

/// The first lines: the stage, the last change, the state of the live tree.
pub open spec fn top_lines(d: Detail) -> Seq<char> {
    d.name@ + "  "@ + d.path@ + "\n  stage      "@ + stage_name(d.state.stage) + (if d.state.stage_since
        is Some {
        " since "@ + d.stage_since@
    } else {
        Seq::empty()
    }) + "\n  last change "@ + (match d.state.last_change_at {
        Some(t) => d.last_change@ + " ("@ + ago(d.now, t) + " ago)"@,
        None => "-"@,
    }) + "\n  live       "@ + (match d.changed_since_newest {
        None => "MISSING"@,
        Some(true) => "changed since newest snapshot"@,
        Some(false) => "identical to newest snapshot"@,
    }) + "\n  profiles   "@ + joined(texts(d.profiles@), ", "@) + "\n  snapshots  "@ + dec(
        d.snapshots as nat,
    ) + " ("@ + joined(kind_texts(d.snapshots_by_kind), ", "@) + ")\n"@
}

/// The first lines: the stage, the last change, the state of the live tree.
fn show_top(d: &Detail) -> (r: String)
    ensures
        r@ == top_lines(*d),
{
    let mut s = cat3(d.name.as_str(), "  ", d.path.as_str());
    s.append("\n  stage      ");
    s.append(d.state.stage.as_str());
    let since = match d.state.stage_since {
        Some(_) => cat2(" since ", d.stage_since.as_str()),
        None => String::new(),
    };
    s.append(since.as_str());
    s.append("\n  last change ");
    let change = match d.state.last_change_at {
        Some(t) => {
            let mut s = cat3(d.last_change.as_str(), " (", fmt_age(age(d.now, t)).as_str());
            s.append(" ago)");
            s
        },
        None => "-".to_owned(),
    };
    s.append(change.as_str());
    s.append("\n  live       ");
    let live = match d.changed_since_newest {
        None => "MISSING",
        Some(true) => "changed since newest snapshot",
        Some(false) => "identical to newest snapshot",
    };
    s.append(live);
    s.append("\n  profiles   ");
    s.append(join(&d.profiles, ", ").as_str());
    s.append("\n  snapshots  ");
    s.append(dec_u64(d.snapshots as u64).as_str());
    s.append(" (");
    s.append(join(&show_kinds(&d.snapshots_by_kind), ", ").as_str());
    s.append(")\n");
    assert(s@ =~= top_lines(*d));
    s
}

/// What is printed of one project.
pub open spec fn detail_text(d: Detail) -> Seq<char> {
    top_lines(d) + frozen_lines(d) + guard_line(d) + recompress_line(d) + "  banlist\n"@ + ban_lines(
        d.banlist,
        d.banlist.keys().len() as int,
    ) + names_line(
        "  WARNING: nested subvolumes not covered by snapshots: "@,
        texts(d.unprotected_nested@),
    ) + error_line(d)
}

/// What is printed of one project.
pub fn detail(d: &Detail) -> (r: String)
    ensures
        r@ == detail_text(*d),
{
    let mut s = show_top(d);
    s.append(show_frozen(d).as_str());
    s.append(show_records(d).as_str());
    s.append("  banlist\n");
    s.append(show_banlist(&d.banlist).as_str());
    s.append(
        list_names(
            "  WARNING: nested subvolumes not covered by snapshots: ",
            &d.unprotected_nested,
        ).as_str(),
    );
    let mut e = String::new();
    match &d.state.last_error {
        Some(x) => {
            e.append("  last error ");
            e.append(d.last_error.as_str());
            e.append(": ");
            e.append(x.message.as_str());
            e.append("\n");
        },
        None => {},
    }
    assert(e@ =~= error_line(*d));
    s.append(e.as_str());
    assert(s@ =~= detail_text(*d));
    s
}

/// A project shows one flag for each thing that is to be said of it: that it is missing, unless it
/// is archived, that its name changed, its last error, each conversion it waits for, and that
/// snapshots of it are held.
pub proof fn law_each_thing_has_its_flag(f: RowFacts)
    ensures
        flags_of(f).len() == (if f.missing && f.state.stage !is Archived {
            1int
        } else {
            0
        }) + (if f.name@ != f.unit@ {
            1int
        } else {
            0
        }) + (if f.state.last_error is Some {
            1int
        } else {
            0
        }) + f.state.pending_convert.keys().len() + (if held_count(f.snaps@) > 0 {
            1int
        } else {
            0
        }),
        f.missing && f.state.stage !is Archived ==> flags_of(f)[0] == "MISSING"@,
{
}

/// Held snapshots are counted one by one; there are some where one is held.
pub proof fn law_held_snapshots_are_counted(s: Seq<SnapshotMeta>, m: SnapshotMeta)
    ensures
        held_count(Seq::empty()) == 0,
        m.hold ==> held_count(s.push(m)) == held_count(s) + 1,
        !m.hold ==> held_count(s.push(m)) == held_count(s),
{
    assert(s.push(m).drop_last() =~= s);
}

/// A row is about the newest snapshot, shows why a project is frozen just where it is, and gives a
/// size only where there are snapshots.
pub proof fn law_rows_show_the_newest_snapshot(f: RowFacts, now: Timestamp, r: ProjectRow)
    requires
        is_row(f, now, r),
    ensures
        r.snapshots == f.snaps@.len(),
        r.newest is Some <==> f.snaps@.len() > 0,
        newest_index(f.snaps@) matches Some(n) ==> r.newest == Some(f.snaps@[n].id),
        r.frozen is Some <==> f.state.frozen is Some,
        r.idle is Some <==> f.state.last_change_at is Some,
        f.snaps@.len() == 0 ==> r.exclusive_bytes is None && r.newest_age is None,
        f.snaps@.len() > 0 ==> r.exclusive_bytes == f.exclusive_bytes && r.newest_age is Some,
{
}

/// Snapshots are counted under the name of their kind, and under no other.
pub proof fn law_snapshots_are_counted_by_kind(s: Seq<SnapshotMeta>, m: SnapshotMeta)
    requires
        s.len() < usize::MAX,
    ensures
        ({
            let k = kind_name(m.kind);
            let a = kind_counts(s);
            let b = kind_counts(s.push(m));
            &&& b.contains_key(k)
            &&& b[k] == if a.contains_key(k) {
                a[k] + 1
            } else {
                1
            }
            &&& forall|x: Seq<char>|
                x != k ==> (#[trigger] b.contains_key(x) <==> a.contains_key(x)) && (
                a.contains_key(x) ==> b[x] == a[x])
        }),
        kind_counts(Seq::empty()) == Map::<Seq<char>, usize>::empty(),
{
    assert(s.push(m).drop_last() =~= s);
    lemma_counts_fit(s);
}

proof fn lemma_counts_fit(s: Seq<SnapshotMeta>)
    requires
        s.len() <= usize::MAX,
    ensures
        forall|k: Seq<char>| #[trigger]
            kind_counts(s).contains_key(k) ==> kind_counts(s)[k] <= s.len(),
    decreases s.len(),
{
    if s.len() > 0 {
        let t = s.drop_last();
        lemma_counts_fit(t);
        assert forall|k: Seq<char>| #[trigger] kind_counts(s).contains_key(k) implies kind_counts(
            s,
        )[k] <= s.len() by {
            if kind_counts(t).contains_key(k) {
                assert(kind_counts(t)[k] <= t.len());
            }
        }
    }
}

/// Each banned path shows what stands there.
pub proof fn law_banned_paths_show_what_stands_there(
    b: Seq<Seq<char>>,
    s: Seq<PathState>,
    n: int,
    i: int,
)
    requires
        0 <= i < n <= b.len(),
        forall|j: int| 0 <= j < n && j != i ==> #[trigger] b[j] != b[i],
    ensures
        state_map(b, s, n).contains_key(b[i]),
        state_map(b, s, n)[b[i]] == s[i],
    decreases n,
{
    if i < n - 1 {
        law_banned_paths_show_what_stands_there(b, s, n - 1, i);
        assert(b[n - 1] != b[i]);
    }
}

/// A nested subvolume is warned of just where it is not banned, each in its turn.
pub proof fn law_nested_subvolumes_are_warned_of(
    nested: Seq<Seq<char>>,
    banned: Seq<Seq<char>>,
    x: Seq<char>,
)
    ensures
        ({
            let n = nested.len() as int;
            let before = not_banned(nested, banned, n);
            let after = not_banned(nested.push(x), banned, n + 1);
            &&& banned.contains(x) ==> after == before
            &&& !banned.contains(x) ==> after == before.push(x)
        }),
        not_banned(nested, banned, 0).len() == 0,
{
    lemma_not_banned_begins(nested, nested.push(x), banned, nested.len() as int);
}

proof fn lemma_not_banned_begins(
    a: Seq<Seq<char>>,
    b: Seq<Seq<char>>,
    banned: Seq<Seq<char>>,
    n: int,
)
    requires
        n <= a.len() <= b.len(),
        forall|i: int| 0 <= i < a.len() ==> #[trigger] a[i] == b[i],
    ensures
        not_banned(a, banned, n) == not_banned(b, banned, n),
    decreases n,
{
    if n > 0 {
        lemma_not_banned_begins(a, b, banned, n - 1);
        assert(a[n - 1] == b[n - 1]);
    }
}

/// What stands in the place of a project is the project only where it has its identity.
pub proof fn law_only_the_same_identity_is_the_project(p: ProjectRef, live: SubvolInfo)
    ensures
        live_of(p, Some(&live)) is Some <==> live.uuid@ == p.record.uuid@,
        live_of(p, None) is None,
{
}

} // verus!
