//! Project discovery under a root and resolution of names and paths.

use vstd::prelude::*;

use crate::btrfs::{SubvolInfo, Uuid};
use crate::config::schema::RootCfg;
use crate::error::BpmError;
use crate::outside;
#[allow(unused_imports)]
use crate::store::unit_place;
use crate::store::{ProjectRecord, Store, Unit};
use crate::util::paths::path_starts_with;
#[allow(unused_imports)]
use crate::util::paths::{below, lemma_rooted_has_no_dot};
use crate::util::relpath::real_steps;
#[allow(unused_imports)]
use crate::util::relpath::steps;
use crate::util::text::{
    cat2, cat3, cat4, chars_of, contains, find, list_has, split_char, str_eq, string_of,
    strip_suffix,
};
#[allow(unused_imports)]
use crate::util::text::{ends, has_text, occurs, split_on, texts};

verus! {

/// A name with one of the endings of things left behind.
pub open spec fn leftover_name(name: Seq<char>) -> bool {
    has_text(name, ".bpm-tmp"@) || has_text(name, ".bpm-old"@) || has_text(name, ".bpm-rollback-"@)
        || has_text(name, ".bpm-keep-"@)
}

pub fn is_leftover_name(name: &str) -> (r: bool)
    ensures
        r == leftover_name(name@),
{
    contains(name, ".bpm-tmp") || contains(name, ".bpm-old") || contains(name, ".bpm-rollback-")
        || contains(name, ".bpm-keep-")
}

/// A directory name left behind by an interrupted or unproven operation.
#[derive(Clone, Debug, PartialEq, Eq)]
pub enum Leftover {
    /// `<base>.bpm-tmp`: a copy being built, or the original right after the swap.
    Tmp { base: String },
    /// `<base>.bpm-old`: the original after the swap, before cleanup.
    Old { base: String },
    /// `<base>.bpm-rollback-<ts>`: the subvolume from before a rollback.
    Rollback { base: String },
    /// `<base>.bpm-keep-<op>-<ts>`: kept because deleting it could lose data. Never auto-fixed.
    Keep { base: String, op: String },
}

/// Position `i` is the first at which `p` stands in `s`.
pub open spec fn first_at(s: Seq<char>, p: Seq<char>, i: int) -> bool {
    occurs(s, p, i) && forall|j: int| 0 <= j < i ==> !#[trigger] occurs(s, p, j)
}

/// What a name left behind says: which operation left it, and of what.
#[verifier::opaque]
pub open spec fn leftover_of(name: Seq<char>, l: Leftover) -> bool {
    match l {
        Leftover::Keep { base, op } => exists|i: int|
            #[trigger] first_at(name, ".bpm-keep-"@, i) && base@ == name.take(i) && op@ == split_on(
                name.skip(i + ".bpm-keep-"@.len()),
                '-',
            )[0],
        Leftover::Rollback { base } => !has_text(name, ".bpm-keep-"@) && exists|i: int|
            #[trigger] first_at(name, ".bpm-rollback-"@, i) && base@ == name.take(i),
        Leftover::Tmp { base } => !has_text(name, ".bpm-keep-"@) && !has_text(
            name,
            ".bpm-rollback-"@,
        ) && ends(name, ".bpm-tmp"@) && base@ == name.take(name.len() - ".bpm-tmp"@.len()),
        Leftover::Old { base } => !has_text(name, ".bpm-keep-"@) && !has_text(
            name,
            ".bpm-rollback-"@,
        ) && !ends(name, ".bpm-tmp"@) && ends(name, ".bpm-old"@) && base@ == name.take(
            name.len() - ".bpm-old"@.len(),
        ),
    }
}

/// Whether a name was left behind by some operation.
pub open spec fn left_behind(name: Seq<char>) -> bool {
    has_text(name, ".bpm-keep-"@) || has_text(name, ".bpm-rollback-"@) || ends(name, ".bpm-tmp"@)
        || ends(name, ".bpm-old"@)
}

impl Leftover {
    pub fn parse(name: &str) -> (r: Option<Leftover>)
        ensures
            match r {
                Some(l) => left_behind(name@) && leftover_of(name@, l),
                None => !left_behind(name@),
            },
    {
        proof {
            reveal(leftover_of);
        }
        let v = chars_of(name);
        let n: usize = v.len();
        if let Some(i) = find(name, ".bpm-keep-") {
            let m = chars_of(".bpm-keep-");
            let rest = string_of(&v, i + m.len(), n);
            assert(rest@ =~= name@.skip(i + ".bpm-keep-"@.len()));
            let parts = split_char(rest.as_str(), '-');
            let op = parts[0].clone();
            assert(texts(parts@)[0] == op@);
            let base = string_of(&v, 0, i);
            assert(base@ =~= name@.take(i as int));
            assert(first_at(name@, ".bpm-keep-"@, i as int));
            return Some(Leftover::Keep { base, op });
        }
        if let Some(i) = find(name, ".bpm-rollback-") {
            let base = string_of(&v, 0, i);
            assert(base@ =~= name@.take(i as int));
            assert(first_at(name@, ".bpm-rollback-"@, i as int));
            return Some(Leftover::Rollback { base });
        }
        if let Some(b) = strip_suffix(name, ".bpm-tmp") {
            return Some(Leftover::Tmp { base: b });
        }
        match strip_suffix(name, ".bpm-old") {
            Some(b) => Some(Leftover::Old { base: b }),
            None => None,
        }
    }

    pub fn base(&self) -> (r: &str)
        ensures
            r@ == base_of(*self),
    {
        match self {
            Leftover::Tmp { base } => base.as_str(),
            Leftover::Old { base } => base.as_str(),
            Leftover::Rollback { base } => base.as_str(),
            Leftover::Keep { base, .. } => base.as_str(),
        }
    }
}

/// The name of what was left behind.
pub open spec fn base_of(l: Leftover) -> Seq<char> {
    match l {
        Leftover::Tmp { base } => base@,
        Leftover::Old { base } => base@,
        Leftover::Rollback { base } => base@,
        Leftover::Keep { base, .. } => base@,
    }
}

/// A dotted marker stands in `base + rest`, where `rest` begins with a dot, only inside one of
/// the two.
proof fn lemma_no_crossing(base: Seq<char>, rest: Seq<char>, marker: Seq<char>, i: int)
    requires
        rest.len() > 0,
        rest[0] == '.',
        marker.len() > 0,
        forall|k: int| 0 < k < marker.len() ==> #[trigger] marker[k] != '.',
        occurs(base + rest, marker, i),
    ensures
        i + marker.len() <= base.len() ==> occurs(base, marker, i),
        i >= base.len() ==> occurs(rest, marker, i - base.len()),
        i + marker.len() <= base.len() || i >= base.len(),
{
    let s = base + rest;
    if i < base.len() && i + marker.len() > base.len() {
        let k = base.len() - i;
        assert(s.subrange(i, i + marker.len())[k] == s[i + k]);
        assert(marker[k] == '.');
    }
    if i + marker.len() <= base.len() {
        assert(base.subrange(i, i + marker.len()) =~= s.subrange(i, i + marker.len()));
    }
    if i >= base.len() {
        assert(rest.subrange(i - base.len(), i - base.len() + marker.len()) =~= s.subrange(
            i,
            i + marker.len(),
        ));
    }
}

proof fn lemma_pieces_first(a: Seq<char>, b: Seq<char>)
    requires
        forall|i: int| 0 <= i < a.len() ==> #[trigger] a[i] != '-',
    ensures
        split_on(a + "-"@ + b, '-')[0] == a,
        split_on(a + "-"@ + b, '-').len() >= 2,
    decreases b.len(),
{
    reveal_strlit("-");
    let at = |x: char| x == '-';
    if b.len() == 0 {
        lemma_pieces_none(a);
        let s = a + "-"@ + b;
        assert(s.drop_last() =~= a);
        assert(s.last() == '-');
    } else {
        let s = a + "-"@ + b;
        lemma_pieces_first(a, b.drop_last());
        assert(s.drop_last() =~= a + "-"@ + b.drop_last());
    }
}

proof fn lemma_pieces_none(a: Seq<char>)
    requires
        forall|i: int| 0 <= i < a.len() ==> #[trigger] a[i] != '-',
    ensures
        split_on(a, '-') == seq![a],
    decreases a.len(),
{
    if a.len() == 0 {
        assert(a =~= Seq::<char>::empty());
    } else {
        lemma_pieces_none(a.drop_last());
        assert(a.drop_last().push(a.last()) =~= a);
        assert(split_on(a, '-') =~= seq![a]);
    }
}

/// A name made for something that is kept says of what it is and which operation kept it.
pub proof fn law_kept_names_parse_back(
    base: Seq<char>,
    op: Seq<char>,
    stamp: Seq<char>,
    l: Leftover,
)
    requires
        !has_text(base, ".bpm-keep-"@),
        forall|i: int| 0 <= i < op.len() ==> #[trigger] op[i] != '-',
        leftover_of(base + ".bpm-keep-"@ + op + "-"@ + stamp, l),
    ensures
        l is Keep,
        l->Keep_base@ == base,
        l->op@ == op,
{
    reveal(leftover_of);
    reveal_strlit(".bpm-keep-");
    reveal_strlit("-");
    let marker = ".bpm-keep-"@;
    let rest = marker + op + "-"@ + stamp;
    let name = base + marker + op + "-"@ + stamp;
    assert(name =~= base + rest);
    assert(rest.take(marker.len() as int) =~= marker);
    assert(has_text(name, marker)) by {
        lemma_marker_stands(base, rest, marker);
    }
    assert(l is Keep);
    let i = choose|i: int|
        #[trigger] first_at(name, marker, i) && l->Keep_base@ == name.take(i) && l->op@ == split_on(
            name.skip(i + marker.len()),
            '-',
        )[0];
    lemma_first_marker(base, rest, marker, i);
    assert(name.take(i) =~= base);
    assert(name.skip(i + marker.len()) =~= op + "-"@ + stamp);
    lemma_pieces_first(op, stamp);
}

proof fn lemma_marker_stands(base: Seq<char>, rest: Seq<char>, marker: Seq<char>)
    requires
        marker.len() <= rest.len(),
        rest.take(marker.len() as int) == marker,
    ensures
        occurs(base + rest, marker, base.len() as int),
{
    let s = base + rest;
    assert(s.subrange(base.len() as int, base.len() + marker.len() as int) =~= rest.take(
        marker.len() as int,
    ));
}

/// The first dotted marker in `base + rest`, where `rest` begins with it and `base` has none.
proof fn lemma_first_marker(base: Seq<char>, rest: Seq<char>, marker: Seq<char>, i: int)
    requires
        marker.len() > 0,
        marker[0] == '.',
        forall|k: int| 0 < k < marker.len() ==> #[trigger] marker[k] != '.',
        marker.len() <= rest.len(),
        rest.take(marker.len() as int) == marker,
        !has_text(base, marker),
        first_at(base + rest, marker, i),
    ensures
        i == base.len(),
{
    lemma_marker_stands(base, rest, marker);
    assert(rest[0] == rest.take(marker.len() as int)[0]);
    if i < base.len() {
        lemma_no_crossing(base, rest, marker, i);
        assert(occurs(base, marker, i));
    } else if i > base.len() {
        assert(!occurs(base + rest, marker, base.len() as int));
    }
}

/// A name made for a copy being built says of what it is, and so does one made for the
/// original after the swap.
pub proof fn law_swap_names_parse_back(base: Seq<char>, old_name: bool, l: Leftover)
    requires
        !has_text(base, ".bpm-keep-"@),
        !has_text(base, ".bpm-rollback-"@),
        leftover_of(
            base + (if old_name {
                ".bpm-old"@
            } else {
                ".bpm-tmp"@
            }),
            l,
        ),
    ensures
        l is Old <==> old_name,
        l is Tmp <==> !old_name,
        base_of(l) == base,
{
    reveal(leftover_of);
    reveal_strlit(".bpm-keep-");
    reveal_strlit(".bpm-rollback-");
    reveal_strlit(".bpm-tmp");
    reveal_strlit(".bpm-old");
    let rest = if old_name {
        ".bpm-old"@
    } else {
        ".bpm-tmp"@
    };
    let name = base + rest;
    assert(!has_text(name, ".bpm-keep-"@)) by {
        if has_text(name, ".bpm-keep-"@) {
            let i = choose|i: int| occurs(name, ".bpm-keep-"@, i);
            lemma_no_crossing(base, rest, ".bpm-keep-"@, i);
            if i + ".bpm-keep-"@.len() <= base.len() {
                assert(occurs(base, ".bpm-keep-"@, i));
            }
        }
    }
    assert(!has_text(name, ".bpm-rollback-"@)) by {
        if has_text(name, ".bpm-rollback-"@) {
            let i = choose|i: int| occurs(name, ".bpm-rollback-"@, i);
            lemma_no_crossing(base, rest, ".bpm-rollback-"@, i);
            if i + ".bpm-rollback-"@.len() <= base.len() {
                assert(occurs(base, ".bpm-rollback-"@, i));
            }
        }
    }
    assert(name.skip(name.len() - 8) =~= rest);
    assert(name.take(name.len() - 8) =~= base);
    if old_name {
        assert(".bpm-old"@[5] == 'o');
        assert(".bpm-tmp"@[5] == 't');
        assert(!ends(name, ".bpm-tmp"@));
    }
    if l is Keep {
        let i = choose|i: int|
            #[trigger] first_at(name, ".bpm-keep-"@, i) && l->Keep_base@ == name.take(i);
        assert(occurs(name, ".bpm-keep-"@, i));
    }
    if l is Rollback {
        let i = choose|i: int|
            #[trigger] first_at(name, ".bpm-rollback-"@, i) && l->Rollback_base@ == name.take(i);
        assert(occurs(name, ".bpm-rollback-"@, i));
    }
}

/// A name made for the subvolume from before a rollback says of what it is.
pub proof fn law_rollback_names_parse_back(base: Seq<char>, stamp: Seq<char>, l: Leftover)
    requires
        !has_text(base, ".bpm-keep-"@),
        !has_text(base, ".bpm-rollback-"@),
        !has_text(stamp, ".bpm-keep-"@),
        leftover_of(base + ".bpm-rollback-"@ + stamp, l),
    ensures
        l is Rollback,
        base_of(l) == base,
{
    let name = base + (".bpm-rollback-"@ + stamp);
    assert(base + ".bpm-rollback-"@ + stamp =~= name);
    lemma_rollback_is_no_keep(base, stamp);
    lemma_rollback_stands(base, stamp);
    let i = lemma_rollback_position(name, l);
    lemma_rollback_at(base, stamp, i);
    assert(name.take(i) =~= base);
}

proof fn lemma_rollback_stands(base: Seq<char>, stamp: Seq<char>)
    ensures
        has_text(base + (".bpm-rollback-"@ + stamp), ".bpm-rollback-"@),
{
    let marker = ".bpm-rollback-"@;
    assert((marker + stamp).take(marker.len() as int) =~= marker);
    lemma_marker_stands(base, marker + stamp, marker);
}

proof fn lemma_rollback_at(base: Seq<char>, stamp: Seq<char>, i: int)
    requires
        !has_text(base, ".bpm-rollback-"@),
        first_at(base + (".bpm-rollback-"@ + stamp), ".bpm-rollback-"@, i),
    ensures
        i == base.len(),
{
    let marker = ".bpm-rollback-"@;
    assert((marker + stamp).take(marker.len() as int) =~= marker);
    assert(marker.len() == 14 && marker[0] == '.' && forall|k: int|
        0 < k < marker.len() ==> #[trigger] marker[k] != '.') by {
        reveal_strlit(".bpm-rollback-");
    }
    lemma_first_marker(base, marker + stamp, marker, i);
}

proof fn lemma_rollback_position(name: Seq<char>, l: Leftover) -> (i: int)
    requires
        leftover_of(name, l),
        !has_text(name, ".bpm-keep-"@),
        has_text(name, ".bpm-rollback-"@),
    ensures
        l is Rollback,
        first_at(name, ".bpm-rollback-"@, i),
        base_of(l) == name.take(i),
{
    reveal(leftover_of);
    match l {
        Leftover::Keep { base, op } => {
            let k = choose|i: int| #[trigger] first_at(name, ".bpm-keep-"@, i) && base@ == name.take(i);
            assert(occurs(name, ".bpm-keep-"@, k));
            0
        },
        Leftover::Rollback { base } => choose|i: int|
            #[trigger] first_at(name, ".bpm-rollback-"@, i) && base@ == name.take(i),
        _ => 0,
    }
}

proof fn lemma_rollback_is_no_keep(base: Seq<char>, stamp: Seq<char>)
    requires
        !has_text(base, ".bpm-keep-"@),
        !has_text(stamp, ".bpm-keep-"@),
    ensures
        !has_text(base + (".bpm-rollback-"@ + stamp), ".bpm-keep-"@),
{
    reveal_strlit(".bpm-keep-");
    reveal_strlit(".bpm-rollback-");
    let keep = ".bpm-keep-"@;
    let rest = ".bpm-rollback-"@ + stamp;
    let name = base + rest;
    if has_text(name, keep) {
        let i = choose|i: int| occurs(name, keep, i);
        lemma_no_crossing(base, rest, keep, i);
        if i + keep.len() <= base.len() {
            assert(occurs(base, keep, i));
        } else {
            let k = i - base.len();
            let part = rest.subrange(k, k + keep.len());
            assert(part == keep);
            assert(part[0] == rest[k]);
            assert(part[5] == rest[k + 5]);
            if k > 0 {
                let m = ".bpm-rollback-"@.len();
                if k < m {
                    assert(".bpm-rollback-"@[k] == '.');
                }
                assert(stamp.subrange(k - m, k - m + keep.len()) =~= part);
                assert(occurs(stamp, keep, k - m));
            }
        }
    }
}

/// What the name of an entry below a root says.
#[derive(Clone, Copy, Debug, PartialEq, Eq, Structural)]
pub enum NameClass {
    Hidden,
    Leftover,
    Ignored,
    /// Possibly a project.
    Look,
}

pub open spec fn name_class(name: Seq<char>, ignore: Seq<Seq<char>>) -> NameClass {
    if name.len() > 0 && name[0] == '.' {
        NameClass::Hidden
    } else if leftover_name(name) {
        NameClass::Leftover
    } else if ignore.contains(name) {
        NameClass::Ignored
    } else {
        NameClass::Look
    }
}

fn begins_with_dot(name: &str) -> (r: bool)
    ensures
        r == (name@.len() > 0 && name@[0] == '.'),
{
    let v = chars_of(name);
    v.len() > 0 && v[0] == '.'
}

/// What the name of an entry below a root says.
pub fn classify_name(name: &str, ignore: &Vec<String>) -> (r: NameClass)
    ensures
        r == name_class(name@, texts(ignore@)),
{
    if begins_with_dot(name) {
        NameClass::Hidden
    } else if is_leftover_name(name) {
        NameClass::Leftover
    } else if list_has(ignore, name) {
        NameClass::Ignored
    } else {
        NameClass::Look
    }
}

/// What is known of an entry below a root.
pub struct EntryFact {
    pub name: String,
    pub path: String,
    /// Whether it is a directory and whether something is mounted there, if it could be read.
    pub stat: Option<DirStat>,
    /// What btrfs says, where it is a subvolume.
    pub subvol: Option<SubvolInfo>,
}

#[derive(Clone, Copy, Debug, PartialEq, Eq, Structural)]
pub struct DirStat {
    pub is_dir: bool,
    pub mount: bool,
}

/// What an entry below a root is.
pub enum Place {
    Nothing,
    Leftover,
    Ignored,
    /// The project with that record.
    Managed(int),
    /// A subvolume that no record knows.
    Foreign,
    /// A plain directory.
    Unadopted,
}

/// The first record with that identity.
pub open spec fn record_with(r: Seq<(Unit, ProjectRecord)>, uuid: Seq<u8>, i: int) -> bool {
    &&& 0 <= i < r.len()
    &&& r[i].1.uuid@ == uuid
    &&& forall|j: int| 0 <= j < i ==> (#[trigger] r[j]).1.uuid@ != uuid
}

pub open spec fn known_uuid(r: Seq<(Unit, ProjectRecord)>, uuid: Seq<u8>) -> bool {
    exists|i: int| 0 <= i < r.len() && (#[trigger] r[i]).1.uuid@ == uuid
}

/// What an entry below a root is.
pub open spec fn place_of(
    e: EntryFact,
    ignore: Seq<Seq<char>>,
    r: Seq<(Unit, ProjectRecord)>,
) -> Place {
    match name_class(e.name@, ignore) {
        NameClass::Hidden => Place::Nothing,
        NameClass::Leftover => Place::Leftover,
        NameClass::Ignored => Place::Ignored,
        NameClass::Look => match e.stat {
            None => Place::Nothing,
            Some(st) => if !st.is_dir || st.mount {
                Place::Ignored
            } else {
                match e.subvol {
                    None => Place::Unadopted,
                    Some(info) => if known_uuid(r, info.uuid@) {
                        Place::Managed(choose|i: int| record_with(r, info.uuid@, i))
                    } else {
                        Place::Foreign
                    },
                }
            },
        },
    }
}

fn find_record(r: &Vec<(Unit, ProjectRecord)>, info: &SubvolInfo) -> (x: Option<usize>)
    ensures
        match x {
            Some(i) => record_with(r@, info.uuid@, i as int) && known_uuid(r@, info.uuid@) && i
                == choose|i: int| record_with(r@, info.uuid@, i),
            None => !known_uuid(r@, info.uuid@),
        },
{
    let mut i: usize = 0;
    while i < r.len()
        invariant
            i <= r@.len(),
            forall|j: int| 0 <= j < i ==> (#[trigger] r@[j]).1.uuid@ != info.uuid@,
        decreases r@.len() - i,
    {
        if r[i].1.uuid.same(&info.uuid) {
            proof {
                let c = choose|i: int| record_with(r@, info.uuid@, i);
                assert(record_with(r@, info.uuid@, i as int));
                if c < i {
                    assert(r@[c].1.uuid@ != info.uuid@);
                } else if i < c {
                    assert(r@[i as int].1.uuid@ != info.uuid@);
                }
            }
            return Some(i);
        }
        i += 1;
    }
    None
}

/// A managed project below a root; `record` is the position of its record.
pub struct Found {
    pub name: String,
    pub path: String,
    pub record: usize,
    pub info: SubvolInfo,
}

/// A directory that is no managed project.
#[derive(Clone, Debug)]
pub struct Candidate {
    pub name: String,
    pub path: String,
}

/// Everything below a root.
pub struct Discovery {
    pub managed: Vec<Found>,
    pub unadopted: Vec<Candidate>,
    pub foreign_subvols: Vec<Candidate>,
    pub ignored: Vec<String>,
    pub leftovers: Vec<String>,
    /// The positions of the records whose project is not there.
    pub missing: Vec<usize>,
}

/// The entries among the first `n` that are of a kind, by position.
pub open spec fn at_places(
    e: Seq<EntryFact>,
    ignore: Seq<Seq<char>>,
    r: Seq<(Unit, ProjectRecord)>,
    n: int,
    f: spec_fn(Place) -> bool,
) -> Seq<int>
    decreases n,
{
    if n <= 0 {
        Seq::empty()
    } else {
        let rest = at_places(e, ignore, r, n - 1, f);
        if f(place_of(e[n - 1], ignore, r)) {
            rest.push(n - 1)
        } else {
            rest
        }
    }
}

pub open spec fn candidates_are(c: Seq<Candidate>, e: Seq<EntryFact>, at: Seq<int>) -> bool {
    c.len() == at.len() && forall|k: int|
        0 <= k < c.len() ==> (#[trigger] c[k]).name@ == e[at[k]].name@ && c[k].path@
            == e[at[k]].path@
}

pub open spec fn found_are(
    c: Seq<Found>,
    e: Seq<EntryFact>,
    ignore: Seq<Seq<char>>,
    r: Seq<(Unit, ProjectRecord)>,
    at: Seq<int>,
) -> bool {
    c.len() == at.len() && forall|k: int|
        0 <= k < c.len() ==> (#[trigger] c[k]).name@ == e[at[k]].name@ && c[k].path@
            == e[at[k]].path@ && Some(c[k].info) == e[at[k]].subvol && place_of(
            e[at[k]],
            ignore,
            r,
        ) == Place::Managed(c[k].record as int)
}

/// Record `i` is that of one of the first `n` entries.
pub open spec fn matched(
    e: Seq<EntryFact>,
    ignore: Seq<Seq<char>>,
    r: Seq<(Unit, ProjectRecord)>,
    n: int,
    i: int,
) -> bool {
    exists|k: int| 0 <= k < n && place_of(#[trigger] e[k], ignore, r) == Place::Managed(i)
}

/// The records without an entry among the first `n` ones, by position.
pub open spec fn missing_upto(
    e: Seq<EntryFact>,
    ignore: Seq<Seq<char>>,
    r: Seq<(Unit, ProjectRecord)>,
    n: int,
) -> Seq<int>
    decreases n,
{
    if n <= 0 {
        Seq::empty()
    } else {
        let rest = missing_upto(e, ignore, r, n - 1);
        if matched(e, ignore, r, e.len() as int, n - 1) {
            rest
        } else {
            rest.push(n - 1)
        }
    }
}

pub open spec fn ints(v: Seq<usize>) -> Seq<int> {
    Seq::new(v.len(), |i: int| v[i] as int)
}

/// What is below a root, given its entries and the records of the store.
pub fn discover(
    entries: Vec<EntryFact>,
    ignore: &Vec<String>,
    records: &Vec<(Unit, ProjectRecord)>,
) -> (d: Discovery)
    ensures
        ({
            let e = entries@;
            let ig = texts(ignore@);
            let n = e.len() as int;
            &&& found_are(
                d.managed@,
                e,
                ig,
                records@,
                at_places(e, ig, records@, n, |p: Place| p is Managed),
            )
            &&& candidates_are(
                d.unadopted@,
                e,
                at_places(e, ig, records@, n, |p: Place| p is Unadopted),
            )
            &&& candidates_are(
                d.foreign_subvols@,
                e,
                at_places(e, ig, records@, n, |p: Place| p is Foreign),
            )
            &&& texts(d.ignored@) == at_places(
                e,
                ig,
                records@,
                n,
                |p: Place| p is Ignored,
            ).map_values(|k: int| e[k].name@)
            &&& texts(d.leftovers@) == at_places(
                e,
                ig,
                records@,
                n,
                |p: Place| p is Leftover,
            ).map_values(|k: int| e[k].path@)
            &&& ints(d.missing@) == missing_upto(e, ig, records@, records@.len() as int)
        }),
{
    let ghost e = entries@;
    let ghost ig = texts(ignore@);
    let ghost r = records@;
    let ghost is_managed = |p: Place| p is Managed;
    let ghost is_unadopted = |p: Place| p is Unadopted;
    let ghost is_foreign = |p: Place| p is Foreign;
    let ghost is_ignored = |p: Place| p is Ignored;
    let ghost is_leftover = |p: Place| p is Leftover;
    let ghost name_at = |k: int| e[k].name@;
    let ghost path_at = |k: int| e[k].path@;
    let mut rest = entries;
    let n: usize = rest.len();
    let mut managed: Vec<Found> = Vec::new();
    let mut unadopted: Vec<Candidate> = Vec::new();
    let mut foreign: Vec<Candidate> = Vec::new();
    let mut ignored: Vec<String> = Vec::new();
    let mut leftovers: Vec<String> = Vec::new();
    let mut hit: Vec<bool> = Vec::new();
    let total: usize = records.len();
    let mut z: usize = 0;
    while z < total
        invariant
            z <= total,
            hit@.len() == z,
            forall|k: int| 0 <= k < z ==> !#[trigger] hit@[k],
        decreases total - z,
    {
        hit.push(false);
        z += 1;
    }
    let mut i: usize = 0;
    proof {
        assert(e.skip(0) =~= e);
        assert(texts(ignored@) =~= at_places(e, ig, r, 0, is_ignored).map_values(name_at));
        assert(texts(leftovers@) =~= at_places(e, ig, r, 0, is_leftover).map_values(path_at));
        assert forall|k: int| 0 <= k < total implies #[trigger] hit@[k] == matched(
            e,
            ig,
            r,
            0,
            k,
        ) by {}
    }
    while i < n
        invariant
            i <= n,
            n == e.len(),
            total == r.len(),
            r == records@,
            ig == texts(ignore@),
            rest@ == e.skip(i as int),
            is_managed == (|p: Place| p is Managed),
            is_unadopted == (|p: Place| p is Unadopted),
            is_foreign == (|p: Place| p is Foreign),
            is_ignored == (|p: Place| p is Ignored),
            is_leftover == (|p: Place| p is Leftover),
            name_at == (|k: int| e[k].name@),
            path_at == (|k: int| e[k].path@),
            found_are(managed@, e, ig, r, at_places(e, ig, r, i as int, is_managed)),
            candidates_are(unadopted@, e, at_places(e, ig, r, i as int, is_unadopted)),
            candidates_are(foreign@, e, at_places(e, ig, r, i as int, is_foreign)),
            texts(ignored@) == at_places(e, ig, r, i as int, is_ignored).map_values(name_at),
            texts(leftovers@) == at_places(e, ig, r, i as int, is_leftover).map_values(path_at),
            hit@.len() == total,
            forall|k: int| 0 <= k < total ==> #[trigger] hit@[k] == matched(e, ig, r, i as int, k),
        decreases n - i,
    {
        let x = rest.remove(0);
        let ghost here = place_of(e[i as int], ig, r);
        let ghost was = hit@;
        proof {
            assert(x == e[i as int]);
            assert(rest@ =~= e.skip(i + 1));
            assert(is_managed(here) == (here is Managed));
            assert(is_unadopted(here) == (here is Unadopted));
            assert(is_foreign(here) == (here is Foreign));
            assert(is_ignored(here) == (here is Ignored));
            assert(is_leftover(here) == (here is Leftover));
        }
        let ghost ign0 = texts(ignored@);
        let ghost left0 = texts(leftovers@);
        let ghost ign_at = at_places(e, ig, r, i as int, is_ignored);
        let ghost left_at = at_places(e, ig, r, i as int, is_leftover);
        match classify_name(x.name.as_str(), ignore) {
            NameClass::Hidden => {},
            NameClass::Leftover => {
                leftovers.push(x.path);
            },
            NameClass::Ignored => {
                ignored.push(x.name);
            },
            NameClass::Look => match x.stat {
                None => {},
                Some(st) => if !st.is_dir || st.mount {
                    ignored.push(x.name);
                } else {
                    match x.subvol {
                        None => {
                            unadopted.push(Candidate { name: x.name, path: x.path });
                        },
                        Some(info) => match find_record(records, &info) {
                            Some(k) => {
                                hit.set(k, true);
                                managed.push(Found { name: x.name, path: x.path, record: k, info });
                            },
                            None => {
                                foreign.push(Candidate { name: x.name, path: x.path });
                            },
                        },
                    }
                },
            },
        }
        proof {
            if here is Ignored {
                assert(texts(ignored@) =~= ign0.push(name_at(i as int)));
                assert(ign_at.push(i as int).map_values(name_at) =~= ign_at.map_values(
                    name_at,
                ).push(name_at(i as int)));
            }
            if here is Leftover {
                assert(texts(leftovers@) =~= left0.push(path_at(i as int)));
                assert(left_at.push(i as int).map_values(path_at) =~= left_at.map_values(
                    path_at,
                ).push(path_at(i as int)));
            }
            assert forall|k: int| 0 <= k < total implies #[trigger] hit@[k] == matched(
                e,
                ig,
                r,
                i + 1,
                k,
            ) by {
                if matched(e, ig, r, i + 1, k) {
                    let y = choose|y: int|
                        0 <= y < i + 1 && place_of(#[trigger] e[y], ig, r) == Place::Managed(k);
                    if y < i {
                        assert(matched(e, ig, r, i as int, k));
                        assert(was[k]);
                    }
                }
                if hit@[k] {
                    if was[k] {
                        let y = choose|y: int|
                            0 <= y < i && place_of(#[trigger] e[y], ig, r) == Place::Managed(k);
                        assert(0 <= y < i + 1 && place_of(e[y], ig, r) == Place::Managed(k));
                    } else {
                        assert(place_of(e[i as int], ig, r) == Place::Managed(k));
                    }
                }
            }
        }
        i += 1;
    }
    let mut missing: Vec<usize> = Vec::new();
    let mut k: usize = 0;
    assert(ints(missing@) =~= missing_upto(e, ig, r, 0));
    while k < total
        invariant
            k <= total,
            total == r.len(),
            hit@.len() == total,
            forall|j: int|
                0 <= j < total ==> #[trigger] hit@[j] == matched(e, ig, r, e.len() as int, j),
            ints(missing@) == missing_upto(e, ig, r, k as int),
        decreases total - k,
    {
        if !hit[k] {
            let ghost before = ints(missing@);
            missing.push(k);
            assert(ints(missing@) =~= before.push(k as int));
        }
        k += 1;
    }
    Discovery { managed, unadopted, foreign_subvols: foreign, ignored, leftovers, missing }
}

/// A root holds a path: the path leads below it, by a first step that is not hidden.
pub open spec fn holds(root: Seq<char>, path: Seq<char>) -> bool {
    let k = steps(root).len() as int;
    &&& below(path, root)
    &&& steps(path).len() > k
    &&& !(steps(path)[k].len() > 0 && steps(path)[k][0] == '.')
}

/// The first root that holds a path, and the name of the project there.
pub fn locate_path(roots: &Vec<RootCfg>, abs: &str) -> (r: Option<(usize, String)>)
    ensures
        match r {
            Some((i, name)) => i < roots@.len() && holds(roots@[i as int].path@, abs@) && name@
                == steps(abs@)[steps(roots@[i as int].path@).len() as int] && forall|j: int|
                0 <= j < i ==> !holds((#[trigger] roots@[j]).path@, abs@),
            None => forall|j: int|
                0 <= j < roots@.len() ==> !holds((#[trigger] roots@[j]).path@, abs@),
        },
{
    let p = real_steps(abs);
    let ghost sp = steps(abs@);
    let mut i: usize = 0;
    while i < roots.len()
        invariant
            i <= roots@.len(),
            texts(p@) == sp,
            sp == steps(abs@),
            forall|j: int| 0 <= j < i ==> !holds((#[trigger] roots@[j]).path@, abs@),
        decreases roots@.len() - i,
    {
        let base = real_steps(roots[i].path.as_str());
        let k: usize = base.len();
        assert(k == steps(roots@[i as int].path@).len());
        assert(sp.len() == p@.len());
        if path_starts_with(abs, roots[i].path.as_str()) && p.len() > k {
            assert(sp[k as int] == p@[k as int]@);
            if !begins_with_dot(p[k].as_str()) {
                return Some((i, p[k].clone()));
            }
        }
        i += 1;
    }
    None
}

/// Whether what names a project is a path rather than a name.
pub open spec fn is_path(spec: Seq<char>) -> bool {
    spec.contains('/') || spec == "."@ || spec == ".."@
}

/// Whether what names a project is a path rather than a name.
pub fn names_path(spec: &str) -> (r: bool)
    ensures
        r == is_path(spec@),
{
    if str_eq(spec, ".") || str_eq(spec, "..") {
        return true;
    }
    let v = chars_of(spec);
    let mut i: usize = 0;
    while i < v.len()
        invariant
            i <= v@.len(),
            v@ == spec@,
            forall|k: int| 0 <= k < i ==> #[trigger] v@[k] != '/',
        decreases v@.len() - i,
    {
        if v[i] == '/' {
            assert(spec@[i as int] == '/');
            return true;
        }
        i += 1;
    }
    false
}

/// The root of a project that is named by a path.
pub fn resolve_path(roots: &Vec<RootCfg>, spec: &str, abs: Option<&str>) -> (r: Result<
    (usize, String),
    BpmError,
>)
    ensures
        match r {
            Ok((i, name)) => abs is Some && i < roots@.len() && holds(
                roots@[i as int].path@,
                abs->0@,
            ) && name@ == steps(abs->0@)[steps(roots@[i as int].path@).len() as int] && forall|
                j: int,
            |
                0 <= j < i ==> !holds((#[trigger] roots@[j]).path@, abs->0@),
            Err(e) => (abs is Some ==> forall|j: int|
                0 <= j < roots@.len() ==> !holds((#[trigger] roots@[j]).path@, abs->0@)) && e is Usage
                && e->Usage_0@ == spec@ + " is not inside a configured root"@,
        },
{
    let found = match abs {
        Some(a) => locate_path(roots, a),
        None => None,
    };
    match found {
        Some(x) => Ok(x),
        None => Err(BpmError::Usage(cat2(spec, " is not inside a configured root"))),
    }
}

/// The root of a project that is named by its name: the one root whose store has a record of
/// it.
pub fn resolve_name(spec: &str, hits: &Vec<usize>) -> (r: Result<usize, BpmError>)
    ensures
        match r {
            Ok(i) => hits@.len() == 1 && i == hits@[0],
            Err(e) => if hits@.len() == 0 {
                e is NotFound && e->NotFound_0@ == "project "@ + outside::quoted(spec@)
                    + " is not managed (see `bpm status --unadopted`)"@
            } else {
                hits@.len() > 1 && e is Usage && e->Usage_0@ == "project "@ + outside::quoted(spec@)
                    + " exists in several roots; pass --root"@
            },
        },
{
    if hits.len() == 0 {
        Err(
            BpmError::NotFound(
                cat3(
                    "project ",
                    outside::quote(spec).as_str(),
                    " is not managed (see `bpm status --unadopted`)",
                ),
            ),
        )
    } else if hits.len() == 1 {
        Ok(hits[0])
    } else {
        Err(
            BpmError::Usage(
                cat3(
                    "project ",
                    outside::quote(spec).as_str(),
                    " exists in several roots; pass --root",
                ),
            ),
        )
    }
}

/// A managed project.
pub struct ProjectRef {
    pub root: RootCfg,
    pub store: Store,
    pub unit: Unit,
    pub record: ProjectRecord,
}

impl ProjectRef {
    pub fn path(&self) -> (r: &str)
        ensures
            r@ == self.record.path@,
    {
        self.record.path.as_str()
    }

    pub fn name(&self) -> (r: &str)
        ensures
            r@ == self.unit.name@,
    {
        self.unit.name.as_str()
    }

    /// Whether the subvolume in the place of the project, by its identity, is the project.
    pub fn is_in_place(&self, live: Option<Uuid>) -> (r: bool)
        ensures
            r == (live is Some && live->0@ == self.record.uuid@),
    {
        match live {
            Some(u) => u.same(&self.record.uuid),
            None => false,
        }
    }
}

/// The project with a name under a root, where the store has a record of it.
pub fn resolve_in(root: RootCfg, store: Store, name: &str, record: Option<ProjectRecord>) -> (r:
    Result<ProjectRef, BpmError>)
    ensures
        match r {
            Ok(p) => record == Some(p.record) && p.root == root && p.store == store && p.unit.name@
                == name@ && p.unit.dir@ == unit_place(store.dir@, name@) && p.unit.dry_run
                == store.dry_run,
            Err(e) => record is None && e is NotFound && e->NotFound_0@ == "project "@
                + outside::quoted(name@) + " is not managed under "@ + root.path@,
        },
{
    match record {
        Some(rec) => {
            let unit = store.unit(name);
            Ok(ProjectRef { root, store, unit, record: rec })
        },
        None => Err(
            BpmError::NotFound(
                cat4(
                    "project ",
                    outside::quote(name).as_str(),
                    " is not managed under ",
                    root.path.as_str(),
                ),
            ),
        ),
    }
}

/// What an entry below a root is: hidden names say nothing, names of things left behind are told
/// by their marks, ignored are those on the list, what is no directory and what something is
/// mounted at. Of the rest a subvolume is the project whose identity it has, or a stranger, and a
/// plain directory is one that may be adopted.
pub proof fn law_entries_are_told_apart(
    e: EntryFact,
    ignore: Seq<Seq<char>>,
    r: Seq<(Unit, ProjectRecord)>,
)
    ensures
        ({
            let name = e.name@;
            let hidden = name.len() > 0 && name[0] == '.';
            let left = has_text(name, ".bpm-tmp"@) || has_text(name, ".bpm-old"@) || has_text(
                name,
                ".bpm-rollback-"@,
            ) || has_text(name, ".bpm-keep-"@);
            let listed = ignore.contains(name);
            let p = place_of(e, ignore, r);
            &&& p is Leftover <==> !hidden && left
            &&& p is Ignored <==> !hidden && !left && (listed || (e.stat matches Some(st) && (
            !st.is_dir || st.mount)))
            &&& p is Nothing <==> hidden || (!left && !listed && e.stat is None)
            &&& p is Unadopted || p is Foreign || p is Managed <==> !hidden && !left && !listed && (
            e.stat matches Some(st) && st.is_dir && !st.mount)
            &&& p is Unadopted ==> e.subvol is None
            &&& p is Foreign ==> (e.subvol matches Some(info) && forall|i: int|
                0 <= i < r.len() ==> (#[trigger] r[i]).1.uuid@ != info.uuid@)
            &&& p matches Place::Managed(i) ==> 0 <= i < r.len() && (e.subvol matches Some(info)
                && r[i].1.uuid@ == info.uuid@)
        }),
{
    if e.subvol is Some && known_uuid(r, e.subvol->0.uuid@) {
        let u = e.subvol->0.uuid@;
        let k = choose|k: int| 0 <= k < r.len() && (#[trigger] r[k]).1.uuid@ == u;
        lemma_some_record(r, u, k);
    }
}

proof fn lemma_some_record(r: Seq<(Unit, ProjectRecord)>, u: Seq<u8>, k: int)
    requires
        0 <= k < r.len(),
        r[k].1.uuid@ == u,
    ensures
        exists|i: int| record_with(r, u, i),
    decreases k,
{
    if forall|j: int| 0 <= j < k ==> (#[trigger] r[j]).1.uuid@ != u {
        assert(record_with(r, u, k));
    } else {
        let j = choose|j: int| 0 <= j < k && (#[trigger] r[j]).1.uuid@ == u;
        lemma_some_record(r, u, j);
    }
}

/// Discovery lists each entry of a sort once, in the order of the entries, and no other.
pub proof fn law_discovery_lists_every_entry(
    e: Seq<EntryFact>,
    ignore: Seq<Seq<char>>,
    r: Seq<(Unit, ProjectRecord)>,
    n: int,
    f: spec_fn(Place) -> bool,
)
    requires
        0 <= n <= e.len(),
    ensures
        ({
            let p = at_places(e, ignore, r, n, f);
            &&& forall|k: int|
                #![trigger e[k]]
                p.contains(k) <==> 0 <= k < n && f(place_of(e[k], ignore, r))
            &&& forall|j: int, k: int| 0 <= j < k < p.len() ==> #[trigger] p[j] < #[trigger] p[k]
        }),
    decreases n,
{
    if n > 0 {
        law_discovery_lists_every_entry(e, ignore, r, n - 1, f);
        let q = at_places(e, ignore, r, n - 1, f);
        let p = at_places(e, ignore, r, n, f);
        assert forall|k: int|
            #![trigger e[k]]
            p.contains(k) <==> 0 <= k < n && f(place_of(e[k], ignore, r)) by {
            if q.contains(k) {
                let j = choose|j: int| 0 <= j < q.len() && q[j] == k;
                assert(p[j] == k);
            }
            if p.contains(k) && k != n - 1 {
                let j = choose|j: int| 0 <= j < p.len() && p[j] == k;
                assert(q[j] == k);
            }
            if k == n - 1 && f(place_of(e[k], ignore, r)) {
                assert(p[q.len() as int] == k);
            }
            if p.contains(n - 1) {
                let j = choose|j: int| 0 <= j < p.len() && p[j] == n - 1;
                if j < q.len() {
                    assert(q[j] == n - 1);
                    assert(q.contains(n - 1));
                    let w = e[n - 1];
                }
            }
        }
        assert forall|j: int, k: int| 0 <= j < k < p.len() implies #[trigger] p[j]
            < #[trigger] p[k] by {
            if k == q.len() {
                assert(q.contains(q[j]));
                let w = e[q[j]];
            }
        }
    } else {
        assert(at_places(e, ignore, r, n, f).len() == 0);
    }
}

/// A project is missing where no entry below the root is the subvolume of its record.
pub proof fn law_missing_projects_have_no_entry(
    e: Seq<EntryFact>,
    ignore: Seq<Seq<char>>,
    r: Seq<(Unit, ProjectRecord)>,
    n: int,
    i: int,
)
    requires
        0 <= n,
    ensures
        missing_upto(e, ignore, r, n).contains(i) <==> 0 <= i < n && !exists|k: int|
            0 <= k < e.len() && place_of(#[trigger] e[k], ignore, r) == Place::Managed(i),
    decreases n,
{
    if n > 0 {
        law_missing_projects_have_no_entry(e, ignore, r, n - 1, i);
        let q = missing_upto(e, ignore, r, n - 1);
        let p = missing_upto(e, ignore, r, n);
        if q.contains(i) {
            let j = choose|j: int| 0 <= j < q.len() && q[j] == i;
            assert(p[j] == i);
        }
        if p.contains(i) {
            let j = choose|j: int| 0 <= j < p.len() && p[j] == i;
            if j < q.len() {
                assert(q[j] == i);
            }
        }
        if i == n - 1 && !matched(e, ignore, r, e.len() as int, i) {
            assert(p[q.len() as int] == i);
        }
    } else {
        assert(missing_upto(e, ignore, r, n).len() == 0);
    }
}

/// A root holds what lies below it, and neither itself, nor what lies elsewhere or only begins
/// with the same letters, nor anything under a hidden name.
pub proof fn law_roots_hold_what_lies_below(root: Seq<char>, path: Seq<char>)
    requires
        root.len() > 0 && root[0] == '/',
        path.len() > 0 && path[0] == '/',
    ensures
        holds(root, path) <==> {
            &&& steps(root).len() < steps(path).len()
            &&& forall|i: int| 0 <= i < steps(root).len() ==> steps(path)[i] == #[trigger] steps(
                root,
            )[i]
            &&& steps(path)[steps(root).len() as int].len() > 0 ==> steps(
                path,
            )[steps(root).len() as int][0] != '.'
        },
        !holds(root, root),
{
    lemma_rooted_has_no_dot(root);
    lemma_rooted_has_no_dot(path);
    let k = steps(root).len() as int;
    if steps(root).len() < steps(path).len() {
        if forall|i: int| 0 <= i < k ==> steps(path)[i] == #[trigger] steps(root)[i] {
            assert(steps(path).take(k) =~= steps(root));
        }
        if steps(path).take(k) == steps(root) {
            assert forall|i: int| 0 <= i < k implies steps(path)[i] == #[trigger] steps(
                root,
            )[i] by {
                assert(steps(path).take(k)[i] == steps(path)[i]);
            }
        }
    }
}

/// What holds a slash is a path, and so are the two names for directories that every directory has;
/// anything else is the name of a project.
pub proof fn law_names_have_no_slash(a: Seq<char>, b: Seq<char>)
    ensures
        is_path(a + "/"@ + b),
        is_path("."@) && is_path(".."@),
        (forall|i: int| 0 <= i < a.len() ==> a[i] != '/') && a != "."@ && a != ".."@ ==> !is_path(a),
{
    reveal_strlit("/");
    assert((a + "/"@ + b)[a.len() as int] == '/');
}

} // verus!
