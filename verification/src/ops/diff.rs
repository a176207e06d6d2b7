//! `diff`: what changed between two snapshots, or between a snapshot and the live tree.

use vstd::prelude::*;

use crate::mechanics::adopt::kind_eq;
#[allow(unused_imports)]
use crate::mechanics::adopt::entry_model;
use crate::util::paths::{path_lt, path_starts_with, path_under};
#[allow(unused_imports)]
use crate::util::paths::{
    below, law_paths_below_begin_with_the_same_steps, lemma_path_before_asymmetric, lemma_path_order, path_before, under,
};
use crate::util::strmap::StrMap;
use crate::util::text::{cat2, cat4, cat5, dec_u64, join, oct_u32};
#[allow(unused_imports)]
use crate::util::text::{dec, joined, oct, texts};
use crate::util::walk::{EntryInfo, EntryKind};

verus! {

/// One difference between two trees: `A`dded, `D`eleted or `M`odified.
#[derive(Clone, Debug, PartialEq, Eq)]
pub struct Change {
    pub op: char,
    pub path: String,
    pub detail: String,
}

/// What of an entry is different, in words.
pub open spec fn entry_changes(a: EntryInfo, b: EntryInfo) -> Seq<Seq<char>> {
    if entry_model(a.kind) != entry_model(b.kind) {
        seq!["type"@]
    } else {
        (if a.kind is File && (a.size != b.size || a.mtime_ns != b.mtime_ns) {
            seq!["content "@ + dec(a.size as nat) + " -> "@ + dec(b.size as nat) + " bytes"@]
        } else {
            seq![]
        }) + (if a.mode != b.mode {
            seq!["mode "@ + oct(a.mode as nat) + " -> "@ + oct(b.mode as nat)]
        } else {
            seq![]
        })
    }
}

/// What is different at a path: nothing, or how and in what.
pub open spec fn change_at(
    a: Map<Seq<char>, EntryInfo>,
    b: Map<Seq<char>, EntryInfo>,
    p: Seq<char>,
) -> Option<(char, Seq<char>)> {
    if a.contains_key(p) && b.contains_key(p) {
        let d = entry_changes(a[p], b[p]);
        if d.len() == 0 {
            None
        } else {
            Some(('M', joined(d, ", "@)))
        }
    } else if a.contains_key(p) {
        Some(('D', Seq::empty()))
    } else if b.contains_key(p) {
        Some(('A', Seq::empty()))
    } else {
        None
    }
}

/// A change says what is different at its path.
pub open spec fn change_right(
    c: Change,
    a: Map<Seq<char>, EntryInfo>,
    b: Map<Seq<char>, EntryInfo>,
) -> bool {
    change_at(a, b, c.path@) == Some((c.op, c.detail@))
}

/// Changes in the order of their paths, each path once.
pub open spec fn in_path_order(c: Seq<Change>) -> bool {
    forall|i: int, j: int|
        0 <= i < j < c.len() ==> !path_before(
            (#[trigger] c[j]).path@,
            (#[trigger] c[i]).path@,
        ) && c[i].path@ != c[j].path@
}

/// `c` lists everything that is different between two trees.
pub open spec fn is_diff(
    c: Seq<Change>,
    a: Map<Seq<char>, EntryInfo>,
    b: Map<Seq<char>, EntryInfo>,
) -> bool {
    &&& forall|i: int| 0 <= i < c.len() ==> change_right(#[trigger] c[i], a, b)
    &&& in_path_order(c)
    &&& forall|p: Seq<char>|
        (#[trigger] change_at(a, b, p)) is Some ==> exists|i: int|
            0 <= i < c.len() && (#[trigger] c[i]).path@ == p
}

fn differences(a: &EntryInfo, b: &EntryInfo) -> (r: Vec<String>)
    ensures
        texts(r@) == entry_changes(*a, *b),
{
    let mut d: Vec<String> = Vec::new();
    if !kind_eq(&a.kind, &b.kind) {
        d.push("type".to_owned());
        assert(texts(d@) =~= seq!["type"@]);
        return d;
    }
    let file = match a.kind {
        EntryKind::File => true,
        _ => false,
    };
    if file && (a.size != b.size || a.mtime_ns != b.mtime_ns) {
        d.push(
            cat5(
                "content ",
                dec_u64(a.size).as_str(),
                " -> ",
                dec_u64(b.size).as_str(),
                " bytes",
            ),
        );
    }
    if a.mode != b.mode {
        d.push(cat4("mode ", oct_u32(a.mode).as_str(), " -> ", oct_u32(b.mode).as_str()));
    }
    assert(texts(d@) =~= entry_changes(*a, *b));
    d
}

/// Adds a change at its place in the order.
#[verifier::rlimit(50)]
#[verifier::spinoff_prover]
fn add_change(out: &mut Vec<Change>, c: Change)
    requires
        in_path_order(old(out)@),
        forall|i: int| 0 <= i < old(out)@.len() ==> (#[trigger] old(out)@[i]).path@ != c.path@,
    ensures
        in_path_order(final(out)@),
        final(out)@.len() == old(out)@.len() + 1,
        exists|i: int| 0 <= i < final(out)@.len() && final(out)@[i] == c,
        forall|i: int|
            0 <= i < old(out)@.len() ==> exists|j: int|
                0 <= j < final(out)@.len() && final(out)@[j] == #[trigger] old(out)@[i],
        forall|j: int|
            0 <= j < final(out)@.len() ==> #[trigger] final(out)@[j] == c || exists|i: int|
                0 <= i < old(out)@.len() && old(out)@[i] == final(out)@[j],
{
    let ghost o = out@;
    let ghost p = c.path@;
    let mut at: usize = out.len();
    while at > 0 && path_lt(c.path.as_str(), out[at - 1].path.as_str())
        invariant
            at <= out@.len(),
            out@ == o,
            p == c.path@,
            forall|k: int| at <= k < o.len() ==> path_before(p, (#[trigger] o[k]).path@),
        decreases at,
    {
        at -= 1;
    }
    proof {
        assert forall|k: int| 0 <= k < at implies !path_before(p, (#[trigger] o[k]).path@) by {
            if k < at - 1 {
                lemma_path_order(o[k].path@, o[at - 1].path@, p);
            }
        }
        assert forall|k: int| at <= k < o.len() implies !path_before((#[trigger] o[k]).path@, p) by {
            lemma_path_before_asymmetric(p, o[k].path@);
        }
    }
    out.insert(at, c);
    proof {
        let f = out@;
        assert forall|i: int, j: int| 0 <= i < j < f.len() implies !path_before(
            (#[trigger] f[j]).path@,
            (#[trigger] f[i]).path@,
        ) && f[i].path@ != f[j].path@ by {
            let oi = if i < at {
                i
            } else {
                i - 1
            };
            let oj = if j < at {
                j
            } else {
                j - 1
            };
            if i != at {
                assert(f[i] == o[oi]);
            }
            if j != at {
                assert(f[j] == o[oj]);
            }
        }
        assert(f[at as int] == c);
        assert forall|i: int| 0 <= i < o.len() implies exists|j: int|
            0 <= j < f.len() && f[j] == #[trigger] o[i] by {
            if i < at {
                assert(f[i] == o[i]);
            } else {
                assert(f[i + 1] == o[i]);
            }
        }
        assert forall|j: int| 0 <= j < f.len() implies #[trigger] f[j] == c || exists|i: int|
            0 <= i < o.len() && o[i] == f[j] by {
            if j < at {
                assert(o[j] == f[j]);
            } else if j > at {
                assert(o[j - 1] == f[j]);
            }
        }
    }
}

/// Some change is about a path.
pub open spec fn covers(c: Seq<Change>, p: Seq<char>) -> bool {
    exists|i: int| 0 <= i < c.len() && (#[trigger] c[i]).path@ == p
}

/// Adds what is different at a path, where anything is.
fn note_change(
    out: &mut Vec<Change>,
    a: &StrMap<EntryInfo>,
    b: &StrMap<EntryInfo>,
    p: &String,
)
    requires
        in_path_order(old(out)@),
        forall|i: int| 0 <= i < old(out)@.len() ==> change_right(#[trigger] old(out)@[i], a@, b@),
        !covers(old(out)@, p@),
    ensures
        in_path_order(final(out)@),
        forall|i: int|
            0 <= i < final(out)@.len() ==> change_right(#[trigger] final(out)@[i], a@, b@),
        forall|q: Seq<char>| covers(old(out)@, q) ==> #[trigger] covers(final(out)@, q),
        forall|q: Seq<char>| #[trigger]
            covers(final(out)@, q) ==> covers(old(out)@, q) || q == p@,
        change_at(a@, b@, p@) is Some ==> covers(final(out)@, p@),
{
    let ghost o = out@;
    let change = match (a.get(p.as_str()), b.get(p.as_str())) {
        (Some(x), Some(y)) => {
            let d = differences(x, y);
            assert(texts(d@).len() == d@.len());
            if d.len() == 0 {
                None
            } else {
                Some(('M', join(&d, ", ")))
            }
        },
        (Some(_), None) => Some(('D', String::new())),
        (None, Some(_)) => Some(('A', String::new())),
        (None, None) => None,
    };
    match change {
        Some((op, detail)) => {
            let c = Change { op, path: p.clone(), detail };
            assert(detail@ =~= (change_at(a@, b@, p@)->0).1);
            assert(change_right(c, a@, b@));
            assert forall|i: int| 0 <= i < o.len() implies (#[trigger] o[i]).path@ != c.path@ by {
                if o[i].path@ == p@ {
                    assert(covers(o, p@));
                }
            }
            add_change(out, c);
            let ghost f = out@;
            proof {
                assert forall|i: int| 0 <= i < f.len() implies change_right(#[trigger] f[i], a@, b@) by {
                    if f[i] != c {
                        let k = choose|k: int| 0 <= k < o.len() && o[k] == f[i];
                        assert(change_right(o[k], a@, b@));
                    }
                }
                assert forall|q: Seq<char>| covers(o, q) implies #[trigger] covers(f, q) by {
                    let i = choose|i: int| 0 <= i < o.len() && (#[trigger] o[i]).path@ == q;
                    let j = choose|j: int| 0 <= j < f.len() && f[j] == o[i];
                    assert(f[j].path@ == q);
                }
                assert forall|q: Seq<char>| #[trigger] covers(f, q) implies covers(o, q) || q
                    == p@ by {
                    let j = choose|j: int| 0 <= j < f.len() && (#[trigger] f[j]).path@ == q;
                    if f[j] != c {
                        let i = choose|i: int| 0 <= i < o.len() && o[i] == f[j];
                        assert(o[i].path@ == q);
                    }
                }
                let j = choose|j: int| 0 <= j < f.len() && f[j] == c;
                assert(f[j].path@ == p@);
            }
        },
        None => {},
    }
}

/// What is different between two trees, in the order of the paths.
pub fn compare(a: &StrMap<EntryInfo>, b: &StrMap<EntryInfo>) -> (r: Vec<Change>)
    ensures
        is_diff(r@, a@, b@),
{
    let mut out: Vec<Change> = Vec::new();
    let ea = a.entries();
    let eb = b.entries();
    let ghost pa = ea@;
    let ghost pb = eb@;
    let mut i: usize = 0;
    while i < ea.len()
        invariant
            i <= ea@.len(),
            ea@ == pa,
            pa == a.pairs(),
            crate::util::strmap::sorted_keys(a.keys()),
            in_path_order(out@),
            forall|k: int| 0 <= k < out@.len() ==> change_right(#[trigger] out@[k], a@, b@),
            forall|q: Seq<char>| #[trigger]
                covers(out@, q) ==> exists|k: int| 0 <= k < i && (#[trigger] pa[k]).0@ == q,
            forall|k: int|
                0 <= k < i && change_at(a@, b@, (#[trigger] pa[k]).0@) is Some ==> covers(
                    out@,
                    pa[k].0@,
                ),
        decreases ea@.len() - i,
    {
        let ghost before = out@;
        assert(!covers(before, pa[i as int].0@)) by {
            if covers(before, pa[i as int].0@) {
                let k = choose|k: int|
                    0 <= k < i && (#[trigger] pa[k]).0@ == pa[i as int].0@;
                assert(a.keys()[k] == pa[k].0@ && a.keys()[i as int] == pa[i as int].0@);
                crate::util::text::lemma_lt_irreflexive(pa[k].0@);
            }
        }
        note_change(&mut out, a, b, &ea[i].0);
        proof {
            assert forall|q: Seq<char>| #[trigger] covers(out@, q) implies exists|k: int|
                0 <= k < i + 1 && (#[trigger] pa[k]).0@ == q by {
                if covers(before, q) {
                    let k = choose|k: int| 0 <= k < i && (#[trigger] pa[k]).0@ == q;
                    assert(pa[k].0@ == q);
                } else {
                    assert(pa[i as int].0@ == q);
                }
            }
        }
        i += 1;
    }
    let mut j: usize = 0;
    while j < eb.len()
        invariant
            j <= eb@.len(),
            eb@ == pb,
            pb == b.pairs(),
            crate::util::strmap::sorted_keys(b.keys()),
            in_path_order(out@),
            forall|k: int| 0 <= k < out@.len() ==> change_right(#[trigger] out@[k], a@, b@),
            forall|q: Seq<char>| #[trigger]
                covers(out@, q) ==> a@.contains_key(q) || exists|k: int|
                    0 <= k < j && (#[trigger] pb[k]).0@ == q,
            forall|q: Seq<char>|
                a@.contains_key(q) && (#[trigger] change_at(a@, b@, q)) is Some ==> covers(out@, q),
            forall|k: int|
                0 <= k < j && change_at(a@, b@, (#[trigger] pb[k]).0@) is Some ==> covers(
                    out@,
                    pb[k].0@,
                ),
        decreases eb@.len() - j,
    {
        let ghost before = out@;
        if !a.has(eb[j].0.as_str()) {
            assert(!covers(before, pb[j as int].0@)) by {
                if covers(before, pb[j as int].0@) {
                    let k = choose|k: int|
                        0 <= k < j && (#[trigger] pb[k]).0@ == pb[j as int].0@;
                    assert(b.keys()[k] == pb[k].0@ && b.keys()[j as int] == pb[j as int].0@);
                    crate::util::text::lemma_lt_irreflexive(pb[k].0@);
                }
            }
            note_change(&mut out, a, b, &eb[j].0);
            proof {
                assert forall|q: Seq<char>| #[trigger] covers(out@, q) implies a@.contains_key(q)
                    || exists|k: int| 0 <= k < j + 1 && (#[trigger] pb[k]).0@ == q by {
                    if covers(before, q) {
                        if !a@.contains_key(q) {
                            let k = choose|k: int| 0 <= k < j && (#[trigger] pb[k]).0@ == q;
                            assert(pb[k].0@ == q);
                        }
                    } else {
                        assert(pb[j as int].0@ == q);
                    }
                }
            }
        } else {
            assert forall|q: Seq<char>| #[trigger] covers(out@, q) implies a@.contains_key(q)
                || exists|k: int| 0 <= k < j + 1 && (#[trigger] pb[k]).0@ == q by {
                if !a@.contains_key(q) {
                    let k = choose|k: int| 0 <= k < j && (#[trigger] pb[k]).0@ == q;
                    assert(pb[k].0@ == q);
                }
            }
        }
        j += 1;
    }
    proof {
        assert forall|p: Seq<char>| (#[trigger] change_at(a@, b@, p)) is Some implies exists|k: int|
            0 <= k < out@.len() && (#[trigger] out@[k]).path@ == p by {
            if !a@.contains_key(p) {
                assert(b@.contains_key(p));
                let k = choose|k: int| 0 <= k < pb.len() && pb[k].0@ == p;
                assert(covers(out@, pb[k].0@));
            }
            assert(covers(out@, p));
        }
    }
    out
}

/// What is different at a path, seen from either side.
proof fn lemma_change_reversed(
    a: Map<Seq<char>, EntryInfo>,
    b: Map<Seq<char>, EntryInfo>,
    p: Seq<char>,
)
    ensures
        change_at(a, a, p) is None,
        change_at(a, b, p) is Some <==> change_at(b, a, p) is Some,
        change_at(a, b, p) is Some ==> (change_at(b, a, p)->0).0 == reversed(
            (change_at(a, b, p)->0).0,
        ),
{
    if a.contains_key(p) {
        assert(entry_changes(a[p], a[p]) =~= Seq::<Seq<char>>::empty());
        if b.contains_key(p) {
            assert(entry_changes(a[p], b[p]).len() == entry_changes(b[p], a[p]).len());
        }
    }
}

/// What a change is the other way round.
pub open spec fn reversed(op: char) -> char {
    if op == 'A' {
        'D'
    } else if op == 'D' {
        'A'
    } else {
        op
    }
}

/// No two texts in the trees spell one path.
pub open spec fn paths_distinct(
    a: Map<Seq<char>, EntryInfo>,
    b: Map<Seq<char>, EntryInfo>,
) -> bool {
    forall|p: Seq<char>, q: Seq<char>|
        #![trigger path_before(p, q)]
        (a.contains_key(p) || b.contains_key(p)) && (a.contains_key(q) || b.contains_key(q)) && p
            != q ==> path_before(p, q) || path_before(q, p)
}

/// The paths of changes.
pub open spec fn paths_of(c: Seq<Change>) -> Seq<Seq<char>> {
    Seq::new(c.len(), |i: int| c[i].path@)
}

pub open spec fn strictly_ordered(v: Seq<Seq<char>>) -> bool {
    forall|i: int, j: int| 0 <= i < j < v.len() ==> path_before(#[trigger] v[i], #[trigger] v[j])
}

/// Two lists in order that hold the same paths are the same list.
proof fn lemma_same_list(u: Seq<Seq<char>>, v: Seq<Seq<char>>)
    requires
        strictly_ordered(u),
        strictly_ordered(v),
        forall|p: Seq<char>| u.contains(p) <==> v.contains(p),
    ensures
        u == v,
    decreases u.len() + v.len(),
{
    if u.len() == 0 {
        if v.len() > 0 {
            assert(v.contains(v[0]));
        }
        assert(u =~= v);
    } else if v.len() == 0 {
        assert(u.contains(u[0]));
    } else {
        let x = u.last();
        let y = v.last();
        assert(u.contains(u[u.len() - 1]) && v.contains(v[v.len() - 1]));
        assert(x == y) by {
            if x != y {
                let k = choose|k: int| 0 <= k < v.len() && v[k] == x;
                let m = choose|m: int| 0 <= m < u.len() && u[m] == y;
                assert(path_before(v[k], v[v.len() - 1]));
                assert(path_before(u[m], u[u.len() - 1]));
                lemma_path_before_asymmetric(x, y);
            }
        }
        let uu = u.drop_last();
        let vv = v.drop_last();
        lemma_path_before_asymmetric(x, x);
        assert forall|p: Seq<char>| uu.contains(p) <==> vv.contains(p) by {
            if uu.contains(p) {
                let m = choose|m: int| 0 <= m < uu.len() && uu[m] == p;
                assert(u[m] == p && path_before(u[m], u[u.len() - 1]));
                assert(u.contains(p));
                let k = choose|k: int| 0 <= k < v.len() && v[k] == p;
                assert(vv[k] == p);
            }
            if vv.contains(p) {
                let k = choose|k: int| 0 <= k < vv.len() && vv[k] == p;
                assert(v[k] == p && path_before(v[k], v[v.len() - 1]));
                assert(v.contains(p));
                let m = choose|m: int| 0 <= m < u.len() && u[m] == p;
                assert(uu[m] == p);
            }
        }
        lemma_same_list(uu, vv);
        assert(u =~= uu.push(x));
        assert(v =~= vv.push(y));
    }
}

proof fn lemma_diff_ordered(
    c: Seq<Change>,
    a: Map<Seq<char>, EntryInfo>,
    b: Map<Seq<char>, EntryInfo>,
)
    requires
        is_diff(c, a, b),
        paths_distinct(a, b),
    ensures
        strictly_ordered(paths_of(c)),
        forall|p: Seq<char>| paths_of(c).contains(p) <==> change_at(a, b, p) is Some,
{
    let v = paths_of(c);
    assert forall|i: int, j: int| 0 <= i < j < v.len() implies path_before(
        #[trigger] v[i],
        #[trigger] v[j],
    ) by {
        assert(change_right(c[i], a, b) && change_right(c[j], a, b));
        assert(!path_before(c[j].path@, c[i].path@));
    }
    assert forall|p: Seq<char>| v.contains(p) <==> change_at(a, b, p) is Some by {
        if v.contains(p) {
            let i = choose|i: int| 0 <= i < v.len() && v[i] == p;
            assert(change_right(c[i], a, b));
        }
        if change_at(a, b, p) is Some {
            let i = choose|i: int| 0 <= i < c.len() && (#[trigger] c[i]).path@ == p;
            assert(v[i] == p);
        }
    }
}

/// A tree does not differ from itself. The other way round two trees differ at the same paths, in
/// the same order: what was deleted is added, what was added is deleted, and what was modified is
/// modified.
pub proof fn law_diff_is_antisymmetric(
    there: Seq<Change>,
    back: Seq<Change>,
    own: Seq<Change>,
    a: Map<Seq<char>, EntryInfo>,
    b: Map<Seq<char>, EntryInfo>,
)
    requires
        is_diff(there, a, b),
        is_diff(back, b, a),
        is_diff(own, a, a),
        paths_distinct(a, b),
    ensures
        own.len() == 0,
        paths_of(there) == paths_of(back),
        forall|i: int|
            0 <= i < there.len() ==> back[i].op == reversed((#[trigger] there[i]).op),
{
    if own.len() > 0 {
        assert(change_right(own[0], a, a));
        lemma_change_reversed(a, b, own[0].path@);
    }
    assert(paths_distinct(b, a));
    lemma_diff_ordered(there, a, b);
    lemma_diff_ordered(back, b, a);
    let u = paths_of(there);
    let v = paths_of(back);
    assert forall|p: Seq<char>| u.contains(p) <==> v.contains(p) by {
        lemma_change_reversed(a, b, p);
    }
    lemma_same_list(u, v);
    assert forall|i: int| 0 <= i < there.len() implies back[i].op == reversed(
        (#[trigger] there[i]).op,
    ) by {
        assert(u[i] == v[i]);
        assert(change_right(there[i], a, b) && change_right(back[i], b, a));
        lemma_change_reversed(a, b, there[i].path@);
    }
}

/// Whether a path is compared: not below a banned one, and under the one that was asked for, which
/// `./src` says as well as `src`.
pub open spec fn is_compared(p: Seq<char>, banned: Seq<Seq<char>>, only: Option<Seq<char>>) -> bool {
    !(exists|i: int| 0 <= i < banned.len() && below(p, #[trigger] banned[i])) && match only {
        Some(sub) => under(p, sub),
        None => true,
    }
}

/// Whether a path is compared.
pub fn compares(p: &str, banned: &Vec<String>, only: Option<&str>) -> (r: bool)
    ensures
        r == is_compared(
            p@,
            texts(banned@),
            match only {
                Some(s) => Some(s@),
                None => None,
            },
        ),
{
    let mut i: usize = 0;
    while i < banned.len()
        invariant
            i <= banned@.len(),
            forall|k: int| 0 <= k < i ==> !below(p@, #[trigger] texts(banned@)[k]),
        decreases banned@.len() - i,
    {
        if path_starts_with(p, banned[i].as_str()) {
            assert(below(p@, texts(banned@)[i as int]));
            return false;
        }
        i += 1;
    }
    match only {
        Some(s) => path_under(p, s),
        None => true,
    }
}

/// How many changes are of a kind.
pub open spec fn count_of(c: Seq<Change>, op: char) -> nat
    decreases c.len(),
{
    if c.len() == 0 {
        0
    } else {
        count_of(c.drop_last(), op) + if c.last().op == op {
            1nat
        } else {
            0
        }
    }
}

fn count(c: &Vec<Change>, op: char) -> (r: u64)
    ensures
        r == count_of(c@, op),
{
    let mut n: u64 = 0;
    let mut i: usize = 0;
    assert(c@.take(0) =~= Seq::<Change>::empty());
    while i < c.len()
        invariant
            i <= c@.len(),
            n <= i,
            n == count_of(c@.take(i as int), op),
        decreases c@.len() - i,
    {
        assert(c@.take(i + 1).drop_last() =~= c@.take(i as int));
        if c[i].op == op {
            n += 1;
        }
        i += 1;
    }
    assert(c@.take(i as int) =~= c@);
    n
}

/// How a difference is shown.
#[derive(Clone, Copy, Debug, PartialEq, Eq, Structural)]
pub enum Show {
    /// Only how many changes there are.
    Stat,
    NameOnly,
    Full,
}

/// The line of a change.
pub open spec fn change_line(c: Change, name_only: bool) -> Seq<char> {
    if name_only {
        c.path@ + "\n"@
    } else if c.detail@.len() == 0 {
        seq![c.op] + " "@ + c.path@ + "\n"@
    } else {
        seq![c.op] + " "@ + c.path@ + "  ("@ + c.detail@ + ")\n"@
    }
}

/// The lines of changes.
pub open spec fn change_lines(c: Seq<Change>, name_only: bool) -> Seq<char>
    decreases c.len(),
{
    if c.len() == 0 {
        Seq::empty()
    } else {
        change_lines(c.drop_last(), name_only) + change_line(c.last(), name_only)
    }
}

/// What is printed of the differences between snapshot `from` and `to`.
pub open spec fn diff_text(c: Seq<Change>, from: u64, to: Seq<char>, show: Show) -> Seq<char> {
    if show == Show::Stat {
        "#"@ + dec(from as nat) + " -> "@ + to + ": "@ + dec(count_of(c, 'A')) + " added, "@ + dec(
            count_of(c, 'D'),
        ) + " deleted, "@ + dec(count_of(c, 'M')) + " modified"@
    } else if c.len() == 0 {
        "no differences between #"@ + dec(from as nat) + " and "@ + to
    } else {
        change_lines(c, show == Show::NameOnly)
    }
}

/// What is printed of the differences between snapshot `from` and `to`.
pub fn run(c: &Vec<Change>, from: u64, to: &str, show: Show) -> (r: String)
    ensures
        r@ == diff_text(c@, from, to@, show),
{
    if show == Show::Stat {
        let mut s = cat5(
            "#",
            dec_u64(from).as_str(),
            " -> ",
            to,
            ": ",
        );
        s.append(dec_u64(count(c, 'A')).as_str());
        s.append(" added, ");
        s.append(dec_u64(count(c, 'D')).as_str());
        s.append(" deleted, ");
        s.append(dec_u64(count(c, 'M')).as_str());
        s.append(" modified");
        return s;
    }
    if c.len() == 0 {
        return cat4("no differences between #", dec_u64(from).as_str(), " and ", to);
    }
    let name_only = show == Show::NameOnly;
    let mut s = String::new();
    let mut i: usize = 0;
    assert(c@.take(0) =~= Seq::<Change>::empty());
    while i < c.len()
        invariant
            i <= c@.len(),
            s@ == change_lines(c@.take(i as int), name_only),
        decreases c@.len() - i,
    {
        assert(c@.take(i + 1).drop_last() =~= c@.take(i as int));
        let x = &c[i];
        let line = if name_only {
            cat2(x.path.as_str(), "\n")
        } else {
            let mut op = String::new();
            op.push(x.op);
            assert(op@ =~= seq![x.op]);
            if x.detail.as_str().is_empty() {
                cat4(op.as_str(), " ", x.path.as_str(), "\n")
            } else {
                let mut l = cat5(
                    op.as_str(),
                    " ",
                    x.path.as_str(),
                    "  (",
                    x.detail.as_str(),
                );
                l.append(")\n");
                l
            }
        };
        s.append(line.as_str());
        i += 1;
    }
    assert(c@.take(i as int) =~= c@);
    s
}

/// The kinds of two entries agree, those of symbolic links with where they point.
pub open spec fn same_kind(a: EntryInfo, b: EntryInfo) -> bool {
    &&& a.kind is File <==> b.kind is File
    &&& a.kind is Dir <==> b.kind is Dir
    &&& a.kind is Other <==> b.kind is Other
    &&& a.kind is Symlink <==> b.kind is Symlink
    &&& a.kind is Symlink ==> a.kind->Symlink_0@ == b.kind->Symlink_0@
}

/// A path is listed exactly where something is different there, and says how: it is deleted where
/// only the first tree has it, added where only the second has it, and modified where both have it
/// and the kinds, the modes or, of files, the sizes or the times of the last change differ. No path
/// is listed twice, and an empty list means that none of all this differs anywhere.
pub proof fn law_diff_lists_every_difference(
    c: Seq<Change>,
    a: Map<Seq<char>, EntryInfo>,
    b: Map<Seq<char>, EntryInfo>,
    p: Seq<char>,
)
    requires
        is_diff(c, a, b),
    ensures
        (exists|i: int| 0 <= i < c.len() && (#[trigger] c[i]).path@ == p && c[i].op == 'D')
            <==> a.contains_key(p) && !b.contains_key(p),
        (exists|i: int| 0 <= i < c.len() && (#[trigger] c[i]).path@ == p && c[i].op == 'A')
            <==> b.contains_key(p) && !a.contains_key(p),
        (exists|i: int| 0 <= i < c.len() && (#[trigger] c[i]).path@ == p && c[i].op == 'M')
            <==> a.contains_key(p) && b.contains_key(p) && !(same_kind(a[p], b[p]) && a[p].mode
            == b[p].mode && (a[p].kind is File ==> a[p].size == b[p].size && a[p].mtime_ns
            == b[p].mtime_ns)),
        forall|i: int, j: int|
            0 <= i < c.len() && 0 <= j < c.len() && (#[trigger] c[i]).path@ == p && (
            #[trigger] c[j]).path@ == p ==> i == j,
        c.len() == 0 ==> (a.contains_key(p) <==> b.contains_key(p)) && (a.contains_key(p)
            ==> same_kind(a[p], b[p]) && a[p].mode == b[p].mode && (a[p].kind is File
            ==> a[p].size == b[p].size && a[p].mtime_ns == b[p].mtime_ns)),
        forall|i: int|
            0 <= i < c.len() && (#[trigger] c[i]).path@ == p && a.contains_key(p)
                && b.contains_key(p) && !same_kind(a[p], b[p]) ==> c[i].detail@ == "type"@,
{
    if a.contains_key(p) && b.contains_key(p) {
        let d = entry_changes(a[p], b[p]);
        assert(entry_model(a[p].kind) == entry_model(b[p].kind) <==> same_kind(a[p], b[p]));
        if !same_kind(a[p], b[p]) {
            assert(joined(seq!["type"@], ", "@) =~= "type"@);
        }
    }
    if change_at(a, b, p) is Some {
        let i = choose|i: int| 0 <= i < c.len() && (#[trigger] c[i]).path@ == p;
        assert(change_right(c[i], a, b));
    }
    assert forall|i: int| 0 <= i < c.len() && (#[trigger] c[i]).path@ == p implies change_at(
        a,
        b,
        p,
    ) == Some((c[i].op, c[i].detail@)) by {
        assert(change_right(c[i], a, b));
    }
}

/// A path takes part in a comparison exactly where its steps begin with those of no banned path,
/// and with those of the path that was asked for: what stands beside it or above it does not.
pub proof fn law_comparisons_stay_in_their_part(
    v: Seq<Seq<char>>,
    banned: Seq<Seq<Seq<char>>>,
    w: Seq<Seq<char>>,
)
    requires
        forall|i: int|
            0 <= i < v.len() ==> (#[trigger] v[i]).len() > 0 && v[i] != "."@ && !v[i].contains(
                '/',
            ),
        forall|i: int|
            0 <= i < w.len() ==> (#[trigger] w[i]).len() > 0 && w[i] != "."@ && !w[i].contains(
                '/',
            ),
        forall|k: int, i: int|
            0 <= k < banned.len() && 0 <= i < banned[k].len() ==> (#[trigger] banned[k][i]).len()
                > 0 && banned[k][i] != "."@ && !banned[k][i].contains('/'),
    ensures
        ({
            let p = joined(v, "/"@);
            let ban = Seq::new(banned.len(), |k: int| joined(banned[k], "/"@));
            let free = !exists|k: int|
                0 <= k < banned.len() && (#[trigger] banned[k]).len() <= v.len() && forall|i: int|
                    0 <= i < banned[k].len() ==> #[trigger] v[i] == banned[k][i];
            &&& is_compared(p, ban, None) <==> free
            &&& is_compared(p, ban, Some(joined(w, "/"@))) <==> free && w.len() <= v.len()
                && forall|i: int| 0 <= i < w.len() ==> #[trigger] v[i] == w[i]
        }),
{
    let p = joined(v, "/"@);
    let ban = Seq::new(banned.len(), |k: int| joined(banned[k], "/"@));
    law_paths_below_begin_with_the_same_steps(v, w);
    assert forall|k: int| 0 <= k < banned.len() implies (below(p, #[trigger] ban[k]) <==> (
    banned[k].len() <= v.len() && forall|i: int|
        0 <= i < banned[k].len() ==> #[trigger] v[i] == banned[k][i])) by {
        law_paths_below_begin_with_the_same_steps(v, banned[k]);
    }
    if exists|k: int|
        0 <= k < banned.len() && (#[trigger] banned[k]).len() <= v.len() && forall|i: int|
            0 <= i < banned[k].len() ==> #[trigger] v[i] == banned[k][i] {
        let k = choose|k: int|
            0 <= k < banned.len() && (#[trigger] banned[k]).len() <= v.len() && forall|i: int|
                0 <= i < banned[k].len() ==> #[trigger] v[i] == banned[k][i];
        assert(below(p, ban[k]));
    }
}

/// Changes of a sort are counted one by one.
pub proof fn law_changes_are_counted_by_sort(c: Seq<Change>, x: Change, op: char)
    ensures
        count_of(Seq::empty(), op) == 0,
        x.op == op ==> count_of(c.push(x), op) == count_of(c, op) + 1,
        x.op != op ==> count_of(c.push(x), op) == count_of(c, op),
{
    assert(c.push(x).drop_last() =~= c);
}

} // verus!
