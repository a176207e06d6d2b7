//! Snapshot selectors: `42`, `latest`, `latest~2`, `2026-09-14`, `2026-09-14T10:00`, `held`.

use vstd::prelude::*;

use crate::error::BpmError;
use crate::outside;
use crate::policy::thin::insert_by_time;
#[allow(unused_imports)]
use crate::policy::thin::{in_time_order, lists, precedes};
use crate::store::SnapshotMeta;
use crate::util::text::{cat2, cat3, dec_u64, parse_u64, starts_with, str_eq, strip_prefix, trim};
#[allow(unused_imports)]
use crate::util::text::{
    dec, is_digit, law_number_round_trip, lemma_dec_digits, lemma_trim_nothing, parsed, starts,
    trimmed,
};
use crate::util::time::Timestamp;

verus! {

#[derive(Clone, Copy, Debug, PartialEq, Eq, Structural)]
pub enum SnapSelector {
    Id(u64),
    /// The newest but this many.
    Latest(usize),
    At(Timestamp),
    Held,
}

/// What a selector means, where `at` is the instant that it names as a local date.
pub open spec fn selector(s: Seq<char>, at: Option<Timestamp>) -> Result<SnapSelector, Seq<char>> {
    let t = trimmed(s);
    match parsed(t, u64::MAX as nat) {
        Some(n) => Ok(SnapSelector::Id(n as u64)),
        None => if t == "latest"@ {
            Ok(SnapSelector::Latest(0))
        } else if starts(t, "latest~"@) {
            match parsed(t.skip("latest~"@.len() as int), usize::MAX as nat) {
                Some(n) => Ok(SnapSelector::Latest(n as usize)),
                None => Err("bad selector "@ + outside::quoted(t)),
            }
        } else if t == "held"@ {
            Ok(SnapSelector::Held)
        } else {
            match at {
                Some(x) => Ok(SnapSelector::At(x)),
                None => Err(
                    "bad snapshot selector "@ + outside::quoted(t)
                        + " (use an id, latest, latest~N, held, YYYY-MM-DD or YYYY-MM-DDTHH:MM)"@,
                ),
            }
        },
    }
}

pub open spec fn selected_as(
    r: Result<SnapSelector, BpmError>,
    want: Result<SnapSelector, Seq<char>>,
) -> bool {
    match r {
        Ok(x) => want == Ok::<SnapSelector, Seq<char>>(x),
        Err(e) => e is Usage && want == Err::<SnapSelector, Seq<char>>(e->Usage_0@),
    }
}

/// Reads a selector whose meaning as a local date is `at`.
pub fn classify(s: &str, at: Option<Timestamp>) -> (r: Result<SnapSelector, BpmError>)
    ensures
        selected_as(r, selector(s@, at)),
{
    let t = trim(s);
    if let Some(id) = parse_u64(t.as_str()) {
        return Ok(SnapSelector::Id(id));
    }
    if str_eq(t.as_str(), "latest") {
        return Ok(SnapSelector::Latest(0));
    }
    if let Some(n) = strip_prefix(t.as_str(), "latest~") {
        let bad = Err(
            BpmError::Usage(cat2("bad selector ", outside::quote(t.as_str()).as_str())),
        );
        return match parse_u64(n.as_str()) {
            Some(k) => if k <= usize::MAX as u64 {
                Ok(SnapSelector::Latest(k as usize))
            } else {
                bad
            },
            None => bad,
        };
    }
    if str_eq(t.as_str(), "held") {
        return Ok(SnapSelector::Held);
    }
    match at {
        Some(x) => Ok(SnapSelector::At(x)),
        None => Err(
            BpmError::Usage(
                cat3(
                    "bad snapshot selector ",
                    outside::quote(t.as_str()).as_str(),
                    " (use an id, latest, latest~N, held, YYYY-MM-DD or YYYY-MM-DDTHH:MM)",
                ),
            ),
        ),
    }
}

/// The instant that a selector names as a date local to the time zone; a text that is no date
/// names none.
pub open spec fn named_in(s: Seq<char>, tz: jiff::tz::TimeZone) -> Option<Timestamp> {
    match outside::civil_read(trimmed(s)) {
        Some(c) => outside::instant_in(c, tz),
        None => None,
    }
}

/// The instant that a selector names as a date local to the time zone.
fn named_instant(s: &str, tz: &jiff::tz::TimeZone) -> (at: Option<Timestamp>)
    ensures
        at == named_in(s@, *tz),
{
    let t = trim(s);
    match outside::parse_civil(t.as_str()) {
        Some(c) => outside::instant_at(c, tz),
        None => None,
    }
}

/// Reads a selector; dates are local to the time zone.
pub fn parse(s: &str, tz: &jiff::tz::TimeZone) -> (r: Result<SnapSelector, BpmError>)
    ensures
        selected_as(r, selector(s@, named_in(s@, *tz))),
{
    let at = named_instant(s, tz);
    classify(s, at)
}

/// Position `i` is the latest of those that `f` holds of.
pub open spec fn latest_such(
    s: Seq<SnapshotMeta>,
    f: spec_fn(SnapshotMeta) -> bool,
    i: int,
) -> bool {
    &&& 0 <= i < s.len()
    &&& f(s[i])
    &&& forall|j: int| 0 <= j < s.len() && j != i && f(#[trigger] s[j]) ==> precedes(s, j, i)
}

/// The positions `p` are all positions, the earliest snapshot first.
pub open spec fn by_time_order(s: Seq<SnapshotMeta>, p: Seq<usize>) -> bool {
    in_time_order(s, p, s.len() as int, |i: int| true)
}

/// Position `i` is what a selector selects.
pub open spec fn selects(sel: SnapSelector, s: Seq<SnapshotMeta>, i: int) -> bool {
    match sel {
        SnapSelector::Id(id) => 0 <= i < s.len() && s[i].id == id && forall|j: int|
            0 <= j < i ==> (#[trigger] s[j]).id != id,
        SnapSelector::Latest(n) => exists|p: Seq<usize>|
            #[trigger] by_time_order(s, p) && n < p.len() && p[p.len()
                - 1 - n] == i,
        SnapSelector::At(ts) => latest_such(s, |m: SnapshotMeta| m.created.ns <= ts.ns, i),
        SnapSelector::Held => latest_such(s, |m: SnapshotMeta| m.hold, i),
    }
}

/// Whether a selector selects anything.
pub open spec fn selects_some(sel: SnapSelector, s: Seq<SnapshotMeta>) -> bool {
    match sel {
        SnapSelector::Id(id) => exists|i: int| 0 <= i < s.len() && (#[trigger] s[i]).id == id,
        SnapSelector::Latest(n) => n < s.len(),
        SnapSelector::At(ts) => exists|i: int|
            0 <= i < s.len() && (#[trigger] s[i]).created.ns <= ts.ns,
        SnapSelector::Held => exists|i: int| 0 <= i < s.len() && (#[trigger] s[i]).hold,
    }
}

/// A selector in messages.
pub open spec fn selector_text(sel: SnapSelector) -> Seq<char> {
    match sel {
        SnapSelector::Id(id) => "Id("@ + dec(id as nat) + ")"@,
        SnapSelector::Latest(n) => "Latest("@ + dec(n as nat) + ")"@,
        SnapSelector::At(t) => "At("@ + outside::instant_written(t.ns as int) + ")"@,
        SnapSelector::Held => "Held"@,
    }
}

fn show(sel: &SnapSelector) -> (r: String)
    ensures
        r@ == selector_text(*sel),
{
    match sel {
        SnapSelector::Id(id) => cat3("Id(", dec_u64(*id).as_str(), ")"),
        SnapSelector::Latest(n) => cat3("Latest(", dec_u64(*n as u64).as_str(), ")"),
        SnapSelector::At(t) => cat3("At(", outside::instant_text(*t).as_str(), ")"),
        SnapSelector::Held => "Held".to_owned(),
    }
}

/// All positions, the earliest snapshot first.
fn by_time(snaps: &Vec<SnapshotMeta>) -> (p: Vec<usize>)
    ensures
        by_time_order(snaps@, p@),
        p@.len() == snaps@.len(),
{
    let ghost f = |i: int| true;
    let mut p: Vec<usize> = Vec::new();
    let mut i: usize = 0;
    while i < snaps.len()
        invariant
            i <= snaps@.len(),
            f == (|i: int| true),
            in_time_order(snaps@, p@, i as int, f),
            p@.len() == i,
        decreases snaps@.len() - i,
    {
        insert_by_time(snaps, &mut p, i, Ghost(f));
        i += 1;
    }
    p
}

/// The position that a selector selects.
pub fn resolve_at(sel: &SnapSelector, snaps: &Vec<SnapshotMeta>) -> (r: Option<usize>)
    ensures
        match r {
            Some(i) => selects(*sel, snaps@, i as int) && selects_some(*sel, snaps@),
            None => !selects_some(*sel, snaps@),
        },
{
    let ghost s = snaps@;
    let ghost all = |i: int| true;
    match sel {
        SnapSelector::Id(id) => {
            let mut i: usize = 0;
            while i < snaps.len()
                invariant
                    i <= snaps@.len(),
                    *sel == SnapSelector::Id(*id),
                    forall|j: int| 0 <= j < i ==> (#[trigger] snaps@[j]).id != id,
                decreases snaps@.len() - i,
            {
                if snaps[i].id == *id {
                    return Some(i);
                }
                i += 1;
            }
            None
        },
        SnapSelector::Latest(n) => {
            let p = by_time(snaps);
            if *n >= p.len() {
                return None;
            }
            let at: usize = p[p.len() - 1 - *n];
            Some(at)
        },
        SnapSelector::At(ts) => {
            let p = by_time(snaps);
            let ghost f = |m: SnapshotMeta| m.created.ns <= ts.ns;
            let mut k: usize = p.len();
            while k > 0
                invariant
                    k <= p@.len(),
                    s == snaps@,
                    all == (|i: int| true),
                    *sel == SnapSelector::At(*ts),
                    f == (|m: SnapshotMeta| m.created.ns <= ts.ns),
                    in_time_order(s, p@, s.len() as int, all),
                    forall|j: int| k <= j < p@.len() ==> !f(s[#[trigger] p@[j] as int]),
                decreases k,
            {
                k -= 1;
                let at: usize = p[k];
                assert(0 <= p@[k as int] < s.len());
                if snaps[at].created.ns <= ts.ns {
                    proof {
                        assert forall|j: int| 0 <= j < s.len() && j != at && f(
                            #[trigger] s[j],
                        ) implies precedes(s, j, at as int) by {
                            assert(all(j));
                            assert(lists(p@, j));
                            let q = choose|q: int| 0 <= q < p@.len() && #[trigger] p@[q] == j;
                            if q > k {
                                assert(!f(s[p@[q] as int]));
                            } else if q < k {
                                assert(precedes(s, p@[q] as int, p@[k as int] as int));
                            }
                        }
                        assert(s[at as int].created.ns <= ts.ns);
                        assert(latest_such(s, f, at as int));
                    }
                    return Some(at);
                }
            }
            proof {
                assert forall|i: int| 0 <= i < s.len() implies (#[trigger] s[i]).created.ns
                    > ts.ns by {
                    assert(all(i));
                    assert(lists(p@, i));
                    let q = choose|q: int| 0 <= q < p@.len() && #[trigger] p@[q] == i;
                    assert(!f(s[p@[q] as int]));
                }
            }
            None
        },
        SnapSelector::Held => {
            let p = by_time(snaps);
            let ghost f = |m: SnapshotMeta| m.hold;
            let mut k: usize = p.len();
            while k > 0
                invariant
                    k <= p@.len(),
                    s == snaps@,
                    all == (|i: int| true),
                    *sel == SnapSelector::Held,
                    f == (|m: SnapshotMeta| m.hold),
                    in_time_order(s, p@, s.len() as int, all),
                    forall|j: int| k <= j < p@.len() ==> !f(s[#[trigger] p@[j] as int]),
                decreases k,
            {
                k -= 1;
                let at: usize = p[k];
                assert(0 <= p@[k as int] < s.len());
                if snaps[at].hold {
                    proof {
                        assert forall|j: int| 0 <= j < s.len() && j != at && f(
                            #[trigger] s[j],
                        ) implies precedes(s, j, at as int) by {
                            assert(all(j));
                            assert(lists(p@, j));
                            let q = choose|q: int| 0 <= q < p@.len() && #[trigger] p@[q] == j;
                            if q > k {
                                assert(!f(s[p@[q] as int]));
                            } else if q < k {
                                assert(precedes(s, p@[q] as int, p@[k as int] as int));
                            }
                        }
                        assert(s[at as int].hold);
                        assert(latest_such(s, f, at as int));
                    }
                    return Some(at);
                }
            }
            proof {
                assert forall|i: int| 0 <= i < s.len() implies !(#[trigger] s[i]).hold by {
                    assert(all(i));
                    assert(lists(p@, i));
                    let q = choose|q: int| 0 <= q < p@.len() && #[trigger] p@[q] == i;
                    assert(!f(s[p@[q] as int]));
                }
            }
            None
        },
    }
}

/// The snapshot that a selector selects.
pub fn resolve<'a>(sel: &SnapSelector, snaps: &'a Vec<SnapshotMeta>) -> (r: Result<
    &'a SnapshotMeta,
    BpmError,
>)
    ensures
        match r {
            Ok(m) => exists|i: int|
                0 <= i < snaps@.len() && #[trigger] selects(*sel, snaps@, i) && *m == snaps@[i],
            Err(e) => !selects_some(*sel, snaps@) && e is NotFound && e->NotFound_0@
                == "no snapshot matches "@ + selector_text(*sel),
        },
{
    match resolve_at(sel, snaps) {
        Some(i) => {
            assert(i < snaps@.len()) by {
                lemma_selects_in_range(*sel, snaps@, i as int);
            }
            Ok(&snaps[i])
        },
        None => Err(BpmError::NotFound(cat2("no snapshot matches ", show(sel).as_str()))),
    }
}

proof fn lemma_selects_in_range(sel: SnapSelector, s: Seq<SnapshotMeta>, i: int)
    requires
        selects(sel, s, i),
    ensures
        0 <= i < s.len(),
{
    if sel is Latest {
        let n = sel->Latest_0;
        let p = choose|p: Seq<usize>|
            #[trigger] by_time_order(s, p) && n < p.len() && p[p.len()
                - 1 - n] == i;
        assert(0 <= p[p.len() - 1 - n] < s.len());
    }
}

/// Resolves a selector whose meaning as a local date is `at`.
pub fn resolve_text<'a>(s: &str, at: Option<Timestamp>, snaps: &'a Vec<SnapshotMeta>) -> (r: Result<
    &'a SnapshotMeta,
    BpmError,
>)
    ensures
        match selector(s@, at) {
            Ok(sel) => match r {
                Ok(m) => exists|i: int|
                    0 <= i < snaps@.len() && #[trigger] selects(sel, snaps@, i) && *m == snaps@[i],
                Err(e) => !selects_some(sel, snaps@) && e is NotFound && e->NotFound_0@
                    == "no snapshot matches "@ + selector_text(sel),
            },
            Err(m) => r is Err && r->Err_0 is Usage && r->Err_0->Usage_0@ == m,
        },
{
    match classify(s, at) {
        Ok(sel) => resolve(&sel, snaps),
        Err(e) => Err(e),
    }
}

/// Resolves a selector; dates are local to the time zone.
pub fn resolve_str<'a>(s: &str, snaps: &'a Vec<SnapshotMeta>, tz: &jiff::tz::TimeZone) -> (r:
    Result<&'a SnapshotMeta, BpmError>)
    ensures
        match selector(s@, named_in(s@, *tz)) {
            Ok(sel) => match r {
                Ok(m) => exists|i: int|
                    0 <= i < snaps@.len() && #[trigger] selects(sel, snaps@, i) && *m == snaps@[i],
                Err(e) => !selects_some(sel, snaps@) && e is NotFound && e->NotFound_0@
                    == "no snapshot matches "@ + selector_text(sel),
            },
            Err(m) => r is Err && r->Err_0 is Usage && r->Err_0->Usage_0@ == m,
        },
{
    let at = named_instant(s, tz);
    resolve_text(s, at, snaps)
}

/// Snapshot `j` was taken after snapshot `i`: at a later instant, or at the same one under a
/// greater id.
pub open spec fn taken_after(s: Seq<SnapshotMeta>, j: int, i: int) -> bool {
    ||| s[i].created.ns < s[j].created.ns
    ||| s[i].created.ns == s[j].created.ns && s[i].id < s[j].id
    ||| s[i].created.ns == s[j].created.ns && s[i].id == s[j].id && i < j
}

/// The snapshots that were taken after snapshot `i`.
pub open spec fn taken_since(s: Seq<SnapshotMeta>, i: int) -> Set<int> {
    Set::new(|j: int| 0 <= j < s.len() && taken_after(s, j, i))
}

/// `latest~N` is the snapshot that exactly N others were taken after.
pub proof fn law_latest_counts_back(s: Seq<SnapshotMeta>, n: usize, i: int)
    requires
        selects(SnapSelector::Latest(n), s, i),
    ensures
        0 <= i < s.len(),
        taken_since(s, i).len() == n,
{
    let p = choose|p: Seq<usize>|
        #[trigger] by_time_order(s, p) && n < p.len() && p[p.len() - 1 - n] == i;
    let c = p.len() - 1 - n;
    let all = |i: int| true;
    assert(in_time_order(s, p, s.len() as int, all));
    let q = p.skip(c + 1).map(|k: int, x: usize| x as int);
    assert(q.len() == n);
    assert(p[c] == i);
    assert forall|j: int, k: int| 0 <= j < k < q.len() implies q[j] != q[k] by {
        assert(precedes(s, p[c + 1 + j] as int, p[c + 1 + k] as int));
    }
    assert(q.no_duplicates());
    q.unique_seq_to_set();
    assert(q.to_set() =~= taken_since(s, i)) by {
        assert forall|j: int| q.to_set().contains(j) implies taken_since(s, i).contains(j) by {
            let k = choose|k: int| 0 <= k < q.len() && q[k] == j;
            assert(p[c + 1 + k] == j);
            assert(precedes(s, p[c] as int, p[c + 1 + k] as int));
        }
        assert forall|j: int| taken_since(s, i).contains(j) implies q.to_set().contains(j) by {
            assert(all(j));
            assert(lists(p, j));
            let k = choose|k: int| 0 <= k < p.len() && p[k] == j;
            if k < c {
                assert(precedes(s, p[k] as int, p[c] as int));
            }
            assert(c < k);
            assert(q[k - c - 1] == j);
        }
    }
}

/// A date selects the latest snapshot that was there by then, `held` the latest one that is
/// held, and an id a snapshot with that id.
pub proof fn law_selectors_take_the_latest_that_fits(
    s: Seq<SnapshotMeta>,
    sel: SnapSelector,
    i: int,
)
    requires
        selects(sel, s, i),
    ensures
        0 <= i < s.len(),
        sel matches SnapSelector::Id(id) ==> s[i].id == id,
        sel matches SnapSelector::At(t) ==> s[i].created.ns <= t.ns && forall|j: int|
            0 <= j < s.len() && (#[trigger] s[j]).created.ns <= t.ns ==> !taken_after(s, j, i),
        sel is Held ==> s[i].hold && forall|j: int|
            0 <= j < s.len() && (#[trigger] s[j]).hold ==> !taken_after(s, j, i),
{
    if sel is Latest {
        law_latest_counts_back(s, sel->Latest_0, i);
    }
}

/// A selector finds something where there is something that fits, and only there.
pub proof fn law_selectors_find_what_is_there(s: Seq<SnapshotMeta>, sel: SnapSelector, i: int)
    requires
        0 <= i < s.len(),
    ensures
        sel == SnapSelector::Id(s[i].id) ==> selects_some(sel, s),
        sel is Held && s[i].hold ==> selects_some(sel, s),
        (sel matches SnapSelector::At(t) && s[i].created.ns <= t.ns) ==> selects_some(sel, s),
        sel is Latest ==> (selects_some(sel, s) <==> (sel->Latest_0 as int) < s.len()),
        selects(sel, s, i) ==> selects_some(sel, s),
{
    if sel is Latest && selects(sel, s, i) {
        let n = sel->Latest_0;
        law_latest_counts_back(s, n, i);
        let all = Set::new(|j: int| 0 <= j < s.len());
        let rest = all.remove(i);
        assert(all =~= vstd::set_lib::set_int_range(0, s.len() as int));
        vstd::set_lib::lemma_int_range(0, s.len() as int);
        vstd::set_lib::lemma_len_subset(taken_since(s, i), rest);
    }
}

/// What a number, `latest`, `latest~` with a number, `held` and a date are read as; `at` is the
/// instant of the date.
pub proof fn law_selectors_are_read_as_written(n: nat, s: Seq<char>, at: Option<Timestamp>)
    ensures
        n <= u64::MAX ==> selector(dec(n), at) == Ok::<SnapSelector, Seq<char>>(
            SnapSelector::Id(n as u64),
        ),
        n <= usize::MAX ==> selector("latest~"@ + dec(n), at) == Ok::<SnapSelector, Seq<char>>(
            SnapSelector::Latest(n as usize),
        ),
        selector("latest"@, at) == Ok::<SnapSelector, Seq<char>>(SnapSelector::Latest(0)),
        selector("held"@, at) == Ok::<SnapSelector, Seq<char>>(SnapSelector::Held),
        (trimmed(s).len() > 1 && is_digit(trimmed(s)[0]) && !is_digit(trimmed(s).last())
            || trimmed(s).len() > 4 && is_digit(trimmed(s)[0]) && trimmed(s)[4] == '-') ==> match at {
            Some(x) => selector(s, at) == Ok::<SnapSelector, Seq<char>>(SnapSelector::At(x)),
            None => selector(s, at) is Err,
        },
{
    reveal_strlit("latest");
    reveal_strlit("latest~");
    reveal_strlit("held");
    lemma_dec_digits(n);
    lemma_trim_nothing(dec(n));
    if n <= u64::MAX {
        law_number_round_trip(n, u64::MAX as nat);
    }
    if n <= usize::MAX {
        law_number_round_trip(n, usize::MAX as nat);
    }
    let l = "latest~"@ + dec(n);
    assert(l.last() == dec(n).last());
    lemma_trim_nothing(l);
    lemma_trim_nothing("latest"@);
    lemma_trim_nothing("held"@);
    assert(!is_digit(l[0]) && l[0] != '+');
    assert(!is_digit("latest"@[0]) && "latest"@[0] != '+');
    assert(!is_digit("held"@[0]) && "held"@[0] != '+');
    assert(l.take("latest~"@.len() as int) =~= "latest~"@);
    assert(l.skip("latest~"@.len() as int) =~= dec(n));
    assert("latest"@.len() != "latest~"@.len() + dec(n).len());
    assert("held"@.len() != "latest~"@.len());
    assert("held"@[0] != "latest"@[0]);
    let t = trimmed(s);
    if t.len() > 1 && is_digit(t[0]) {
        assert(t[0] != 'l' && t[0] != 'h' && t[0] != '+');
        assert(t != "latest"@ && t != "held"@);
        if starts(t, "latest~"@) {
            assert(t.take("latest~"@.len() as int)[0] == t[0]);
        }
    }
}

} // verus!
