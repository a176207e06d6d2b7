//! `list`: snapshots of one project (or the root container).

use vstd::prelude::*;

use crate::output::Table;
#[allow(unused_imports)]
use crate::output::{row_texts, table_text};
use crate::store::SnapshotMeta;
#[allow(unused_imports)]
use crate::store::meta::kind_name;
use crate::util::text::{cat2, cat4, dec_u64, str_eq};
#[allow(unused_imports)]
use crate::util::text::{dec, texts};
use crate::util::time::fmt_local;
#[allow(unused_imports)]
use crate::util::time::local_time;

verus! {

/// Which snapshots are listed.
pub struct ListFilter {
    pub kind: Option<String>,
    pub held: bool,
    /// At most this many, the last ones.
    pub limit: Option<usize>,
}

/// A snapshot that is listed, but for the limit.
pub open spec fn listed(m: SnapshotMeta, f: ListFilter) -> bool {
    (f.kind is Some ==> kind_name(m.kind) == f.kind->0@) && (f.held ==> m.hold)
}

/// The positions of the snapshots that are listed, but for the limit.
pub open spec fn listed_at(s: Seq<SnapshotMeta>, f: ListFilter, n: int) -> Seq<usize>
    decreases n,
{
    if n <= 0 {
        Seq::empty()
    } else if listed(s[n - 1], f) {
        listed_at(s, f, n - 1).push((n - 1) as usize)
    } else {
        listed_at(s, f, n - 1)
    }
}

/// The last of them, as many as the limit says.
pub open spec fn limited(p: Seq<usize>, limit: Option<usize>) -> Seq<usize> {
    match limit {
        Some(n) => if p.len() > n {
            p.skip(p.len() - n)
        } else {
            p
        },
        None => p,
    }
}

/// The positions of the snapshots that are listed.
pub fn select(snaps: &Vec<SnapshotMeta>, f: &ListFilter) -> (r: Vec<usize>)
    ensures
        r@ == limited(listed_at(snaps@, *f, snaps@.len() as int), f.limit),
        forall|k: int| 0 <= k < r@.len() ==> (#[trigger] r@[k]) < snaps@.len(),
{
    let mut all: Vec<usize> = Vec::new();
    let mut i: usize = 0;
    while i < snaps.len()
        invariant
            i <= snaps@.len(),
            all@ == listed_at(snaps@, *f, i as int),
            forall|k: int| 0 <= k < all@.len() ==> (#[trigger] all@[k]) < i,
        decreases snaps@.len() - i,
    {
        let kind_ok = match &f.kind {
            Some(k) => str_eq(snaps[i].kind.as_str(), k.as_str()),
            None => true,
        };
        if kind_ok && (!f.held || snaps[i].hold) {
            all.push(i);
        }
        i += 1;
    }
    match f.limit {
        Some(n) => {
            if all.len() <= n {
                return all;
            }
            let from: usize = all.len() - n;
            let mut out: Vec<usize> = Vec::new();
            let mut j: usize = from;
            while j < all.len()
                invariant
                    from <= j <= all@.len(),
                    out@ == all@.subrange(from as int, j as int),
                    forall|k: int| 0 <= k < all@.len() ==> (#[trigger] all@[k]) < snaps@.len(),
                    forall|k: int| 0 <= k < out@.len() ==> (#[trigger] out@[k]) < snaps@.len(),
                decreases all@.len() - j,
            {
                out.push(all[j]);
                assert(out@ =~= all@.subrange(from as int, j + 1));
                j += 1;
            }
            assert(out@ =~= all@.skip(from as int));
            out
        },
        None => all,
    }
}

/// The row of a snapshot, read in a time zone; `size` is its size as people read it.
pub open spec fn snapshot_row(
    m: SnapshotMeta,
    tz: jiff::tz::TimeZone,
    size: Seq<char>,
) -> Seq<Seq<char>> {
    seq![
        dec(m.id as nat),
        local_time(m.created, tz),
        kind_name(m.kind),
        if m.hold {
            "held"@
        } else {
            Seq::empty()
        },
        match m.stats {
            Some(s) => dec(s.files as nat) + (if s.complete {
                ""@
            } else {
                "+"@
            }),
            None => "-"@,
        },
        match m.stats {
            Some(_) => size,
            None => "-"@,
        },
        if m.hold && m.hold_note@.len() > 0 {
            m.reason@ + " ["@ + m.hold_note@ + "]"@
        } else {
            m.reason@
        },
    ]
}

/// The row of a snapshot, read in a time zone; `size` is its size as people read it.
pub fn row(m: &SnapshotMeta, tz: &jiff::tz::TimeZone, size: &str) -> (r: Vec<String>)
    ensures
        texts(r@) == snapshot_row(*m, *tz, size@),
{
    let mut v: Vec<String> = Vec::new();
    v.push(dec_u64(m.id));
    v.push(fmt_local(m.created, tz));
    v.push(m.kind.as_str().to_owned());
    if m.hold {
        v.push("held".to_owned());
    } else {
        v.push(String::new());
    }
    match &m.stats {
        Some(s) => {
            let more = if s.complete {
                ""
            } else {
                "+"
            };
            v.push(cat2(dec_u64(s.files).as_str(), more));
            v.push(size.to_owned());
        },
        None => {
            v.push("-".to_owned());
            v.push("-".to_owned());
        },
    }
    if m.hold && !m.hold_note.as_str().is_empty() {
        v.push(cat4(m.reason.as_str(), " [", m.hold_note.as_str(), "]"));
    } else {
        v.push(m.reason.clone());
    }
    assert(texts(v@) =~= snapshot_row(*m, *tz, size@));
    v
}

/// What is printed of the snapshots of a project; `rows` are theirs.
pub open spec fn list_text(
    name: Seq<char>,
    dir: Seq<char>,
    rows: Seq<Seq<Seq<char>>>,
) -> Seq<char> {
    if rows.len() == 0 {
        name + ": no snapshots"@
    } else {
        name + "  "@ + dir + "\n"@ + table_text(
            seq!["ID"@, "CREATED"@, "KIND"@, "HOLD"@, "FILES"@, "SIZE"@, "REASON"@],
            rows,
        )
    }
}

/// What is printed of the snapshots of a project; `rows` are theirs.
pub fn run(name: &str, dir: &str, rows: Vec<Vec<String>>) -> (r: String)
    ensures
        r@ == list_text(name@, dir@, row_texts(rows@)),
{
    let mut t = Table::new(&["ID", "CREATED", "KIND", "HOLD", "FILES", "SIZE", "REASON"]);
    assert(texts(t.headers@) =~= seq![
        "ID"@,
        "CREATED"@,
        "KIND"@,
        "HOLD"@,
        "FILES"@,
        "SIZE"@,
        "REASON"@,
    ]);
    assert(row_texts(rows@).len() == rows@.len());
    t.rows = rows;
    if t.is_empty() {
        return cat2(name, ": no snapshots");
    }
    let mut s = cat4(name, "  ", dir, "\n");
    s.append(t.render().as_str());
    s
}

/// A listing holds the last snapshots that fit, in their order: those of the kind that is asked
/// for, and only held ones where that is asked for. Up to the limit none that fits is missing,
/// and none is missing that comes after one that is there.
pub proof fn law_listings_hold_the_last_that_fit(s: Seq<SnapshotMeta>, f: ListFilter)
    requires
        s.len() <= usize::MAX,
    ensures
        ({
            let r = limited(listed_at(s, f, s.len() as int), f.limit);
            &&& forall|k: int|
                0 <= k < r.len() ==> 0 <= #[trigger] r[k] < s.len() && (f.kind matches Some(w)
                    ==> kind_name(s[r[k] as int].kind) == w@) && (f.held ==> s[r[k] as int].hold)
            &&& forall|k: int, m: int| 0 <= k < m < r.len() ==> #[trigger] r[k] < #[trigger] r[m]
            &&& f.limit matches Some(n) ==> r.len() <= n
            &&& forall|i: int|
                #![trigger s[i]]
                0 <= i < s.len() && (f.kind matches Some(w) ==> kind_name(s[i].kind) == w@) && (
                f.held ==> s[i].hold) && (f.limit is None || r.len() < f.limit->0 || (r.len() > 0
                    && r[0] <= i)) ==> r.contains(i as usize)
        }),
{
    let n = s.len() as int;
    let p = listed_at(s, f, n);
    let r = limited(p, f.limit);
    lemma_listed(s, f, n);
    let d = p.len() - r.len();
    assert(forall|k: int| 0 <= k < r.len() ==> #[trigger] r[k] == p[k + d]);
    assert forall|i: int|
        #![trigger s[i]]
        0 <= i < s.len() && (f.kind matches Some(w) ==> kind_name(s[i].kind) == w@) && (f.held
            ==> s[i].hold) && (f.limit is None || r.len() < f.limit->0 || (r.len() > 0 && r[0]
            <= i)) implies r.contains(i as usize) by {
        assert(p.contains(i as usize));
        let k = choose|k: int| 0 <= k < p.len() && p[k] == i as usize;
        if d > 0 {
            assert(r[0] == p[d]);
            if k < d {
                assert(p[k] < p[d]);
            }
        }
        assert(r[k - d] == p[k]);
    }
}

proof fn lemma_listed(s: Seq<SnapshotMeta>, f: ListFilter, n: int)
    requires
        0 <= n <= s.len() <= usize::MAX,
    ensures
        forall|k: int|
            0 <= k < listed_at(s, f, n).len() ==> 0 <= #[trigger] listed_at(s, f, n)[k] < n
                && listed(s[listed_at(s, f, n)[k] as int], f),
        forall|k: int, m: int|
            0 <= k < m < listed_at(s, f, n).len() ==> #[trigger] listed_at(s, f, n)[k]
                < #[trigger] listed_at(s, f, n)[m],
        forall|i: int|
            #![trigger s[i]]
            0 <= i < n && listed(s[i], f) ==> listed_at(s, f, n).contains(i as usize),
    decreases n,
{
    if n > 0 {
        lemma_listed(s, f, n - 1);
        let p = listed_at(s, f, n - 1);
        assert forall|i: int|
            #![trigger s[i]]
            0 <= i < n && listed(s[i], f) implies listed_at(s, f, n).contains(i as usize) by {
            if i < n - 1 {
                let k = choose|k: int| 0 <= k < p.len() && p[k] == i as usize;
                assert(listed_at(s, f, n)[k] == i as usize);
            } else {
                assert(listed_at(s, f, n)[p.len() as int] == i as usize);
            }
        }
    }
}

/// The row of a snapshot tells whether it is held and, behind the reason, why. A count that was cut
/// short has a plus sign, and where nothing was counted there is a dash.
pub proof fn law_rows_show_holds_and_counts(
    m: SnapshotMeta,
    tz: jiff::tz::TimeZone,
    size: Seq<char>,
)
    ensures
        ({
            let r = snapshot_row(m, tz, size);
            &&& r.len() == 7 && r[0] == dec(m.id as nat) && r[2] == kind_name(m.kind)
            &&& r[3] == "held"@ <==> m.hold
            &&& !m.hold || m.hold_note@.len() == 0 ==> r[6] == m.reason@
            &&& m.hold && m.hold_note@.len() > 0 ==> r[6] == m.reason@ + " ["@ + m.hold_note@ + "]"@
            &&& m.stats is None ==> r[4] == "-"@ && r[5] == "-"@
            &&& m.stats matches Some(s) ==> r[5] == size && r[4].take(dec(s.files as nat).len() as int)
                == dec(s.files as nat) && (r[4].len() == dec(s.files as nat).len() <==> s.complete)
        }),
{
    let r = snapshot_row(m, tz, size);
    reveal_strlit("held");
    assert(r[3].len() == if m.hold {
        4nat
    } else {
        0
    });
    reveal_strlit("+");
    reveal_strlit("");
    if m.stats is Some {
        let n = dec(m.stats->0.files as nat);
        assert((n + ""@).take(n.len() as int) =~= n);
        assert((n + "+"@).take(n.len() as int) =~= n);
        assert((n + ""@).len() == n.len() && (n + "+"@).len() == n.len() + 1);
    }
}

} // verus!
