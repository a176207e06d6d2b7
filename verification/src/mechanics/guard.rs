//! Apply the shrink guard to a snapshot: freeze cleanup and pin the last good state.

use vstd::prelude::*;

use crate::config::schema::ShrinkPolicy;
use crate::hooks::HookCtx;
use crate::mechanics::observe::mark_evaluated;
#[allow(unused_imports)]
use crate::mechanics::observe::larger;
use crate::mechanics::Target;
use crate::policy::shrink::{evaluate, raise, reset, Gauge};
#[allow(unused_imports)]
use crate::policy::shrink::{mark_of, raised, reasons};
use crate::store::{Frozen, ProjectState, RefStats, SnapshotMeta};
#[allow(unused_imports)]
use crate::store::meta::counted;
#[allow(unused_imports)]
use crate::store::snapshot_place;
use crate::util::text::{cat3, cat4, cat5, copy_list, dec_u64, join, list_has};
#[allow(unused_imports)]
use crate::util::text::{dec, joined, texts};
use crate::util::time::Timestamp;
use crate::util::walk::TreeStats;

verus! {

/// How many snapshots without stats, between the last counted one and the trigger, are walked
/// when looking for the last good state.
pub const MAX_UNCOUNTED_CANDIDATES: usize = 5;

/// The warning that stands in the state once a count was cut short.
pub const INCOMPLETE: &'static str = "guard-incomplete";

/// A snapshot before `id` that was counted.
pub open spec fn counted_before(m: SnapshotMeta, id: u64) -> bool {
    m.id < id && counted(m)
}

/// Position `i` holds the newest counted snapshot before `id`.
pub open spec fn is_prev(s: Seq<SnapshotMeta>, id: u64, i: int) -> bool {
    &&& 0 <= i < s.len()
    &&& counted_before(s[i], id)
    &&& forall|j: int|
        0 <= j < s.len() && counted_before(#[trigger] s[j], id) ==> s[j].id < s[i].id || (s[j].id
            == s[i].id && j <= i)
}

/// The newest counted snapshot before `id`.
pub open spec fn prev_index(s: Seq<SnapshotMeta>, id: u64) -> Option<int> {
    if exists|i: int| is_prev(s, id, i) {
        Some(choose|i: int| is_prev(s, id, i))
    } else {
        None
    }
}

/// The position of the newest counted snapshot before `id`.
pub fn previous(snaps: &Vec<SnapshotMeta>, id: u64) -> (r: Option<usize>)
    ensures
        match r {
            Some(i) => is_prev(snaps@, id, i as int) && prev_index(snaps@, id) == Some(i as int),
            None => prev_index(snaps@, id) is None && forall|j: int|
                0 <= j < snaps@.len() ==> !counted_before(#[trigger] snaps@[j], id),
        },
{
    let mut best: Option<usize> = None;
    let mut i: usize = 0;
    while i < snaps.len()
        invariant
            i <= snaps@.len(),
            match best {
                Some(b) => b < i && counted_before(snaps@[b as int], id) && forall|j: int|
                    0 <= j < i && counted_before(#[trigger] snaps@[j], id) ==> snaps@[j].id
                        < snaps@[b as int].id || (snaps@[j].id == snaps@[b as int].id && j <= b),
                None => forall|j: int| 0 <= j < i ==> !counted_before(#[trigger] snaps@[j], id),
            },
        decreases snaps@.len() - i,
    {
        if snaps[i].id < id && snaps[i].complete_stats().is_some() {
            let better = match best {
                Some(b) => snaps[b].id <= snaps[i].id,
                None => true,
            };
            if better {
                best = Some(i);
            }
        }
        i += 1;
    }
    proof {
        match best {
            Some(b) => {
                assert(is_prev(snaps@, id, b as int));
                let c = choose|c: int| is_prev(snaps@, id, c);
                assert(is_prev(snaps@, id, c));
                assert(counted_before(snaps@[c], id));
                assert(counted_before(snaps@[b as int], id));
            },
            None => {
                assert forall|c: int| !is_prev(snaps@, id, c) by {
                    if 0 <= c < snaps@.len() {
                        assert(!counted_before(snaps@[c], id));
                    }
                }
            },
        }
    }
    best
}

/// How the evaluation of a snapshot begins.
pub enum Begin {
    /// Nothing to compare.
    Pass,
    /// The count was cut short, which is reported once.
    Warn(String),
    /// Compare with this mark, and the sentinels with the snapshot at this position.
    Compare(RefStats, Option<usize>),
}

/// What the count of a snapshot is compared with: while frozen, only a further drop relative to
/// the previous snapshot matters.
pub open spec fn mark_for(st: ProjectState, snaps: Seq<SnapshotMeta>, new: SnapshotMeta) -> Option<
    RefStats,
> {
    let prev = prev_index(snaps, new.id);
    if st.frozen is Some {
        match prev {
            Some(i) => Some(mark_of(snaps[i].stats->0, snaps[i].id)),
            None => None,
        }
    } else {
        st.ref_stats
    }
}

/// The state after the beginning of an evaluation: the snapshot counts as seen, and the first
/// counted one sets the mark.
pub open spec fn begun(
    st: ProjectState,
    f: ProjectState,
    new: SnapshotMeta,
    now: Timestamp,
) -> bool {
    &&& f == (ProjectState {
        guard_seen: larger(st.guard_seen, new.id),
        ref_stats: if counted(new) && st.frozen is None && st.ref_stats is None {
            Some(mark_of(new.stats->0, new.id))
        } else {
            st.ref_stats
        },
        warned: f.warned,
        ..st
    })
    &&& f.warned@ == if counted(new) {
        st.warned@.remove(INCOMPLETE@)
    } else if new.stats is Some && !st.warned@.contains_key(INCOMPLETE@) {
        st.warned@.insert(INCOMPLETE@, now)
    } else {
        st.warned@
    }
}

/// What is reported of a count that was cut short.
pub open spec fn incomplete_text(name: Seq<char>, id: u64) -> Seq<char> {
    name + ": counting snapshot #"@ + dec(id as nat)
        + " exceeded snapshot.stats_budget; the shrink guard cannot check it"@
}

/// Begins the evaluation of `new` (normally the newest snapshot).
pub fn begin(
    st: &mut ProjectState,
    snaps: &Vec<SnapshotMeta>,
    new: &SnapshotMeta,
    name: &str,
    now: Timestamp,
) -> (r: Begin)
    ensures
        begun(*old(st), *final(st), *new, now),
        match r {
            Begin::Pass => if counted(*new) {
                mark_for(*old(st), snaps@, *new) is None
            } else {
                new.stats is None || old(st).warned@.contains_key(INCOMPLETE@)
            },
            Begin::Warn(m) => new.stats is Some && !counted(*new) && !old(st).warned@.contains_key(
                INCOMPLETE@,
            ) && m@ == incomplete_text(name@, new.id),
            Begin::Compare(mark, prev) => counted(*new) && mark_for(*old(st), snaps@, *new) == Some(
                mark,
            ) && match prev {
                Some(i) => prev_index(snaps@, new.id) == Some(i as int) && is_prev(
                    snaps@,
                    new.id,
                    i as int,
                ),
                None => prev_index(snaps@, new.id) is None,
            },
        },
{
    mark_evaluated(st, new);
    match new.complete_stats() {
        None => {
            if new.stats.is_some() && !st.warned.has(INCOMPLETE) {
                st.warned.insert(INCOMPLETE.to_owned(), now);
                return Begin::Warn(
                    cat4(
                        name,
                        ": counting snapshot #",
                        dec_u64(new.id).as_str(),
                        " exceeded snapshot.stats_budget; the shrink guard cannot check it",
                    ),
                );
            }
            Begin::Pass
        },
        Some(stats) => {
            st.warned.remove(INCOMPLETE);
            let prev = previous(snaps, new.id);
            if st.frozen.is_some() {
                return match prev {
                    Some(i) => match snaps[i].complete_stats() {
                        Some(s) => Begin::Compare(reset(s, snaps[i].id), prev),
                        None => Begin::Pass,
                    },
                    None => Begin::Pass,
                };
            }
            match st.ref_stats {
                Some(r) => Begin::Compare(r, prev),
                None => {
                    st.ref_stats = Some(reset(stats, new.id));
                    Begin::Pass
                },
            }
        },
    }
}

/// Why the guard trips on a counted snapshot; nothing where it does not.
pub fn judge(
    mark: &RefStats,
    snaps: &Vec<SnapshotMeta>,
    prev: Option<usize>,
    stats: &TreeStats,
    p: &ShrinkPolicy,
    sentinels: &Vec<String>,
    g: &Gauge,
) -> (r: Vec<String>)
    requires
        prev is Some ==> prev->0 < snaps@.len(),
    ensures
        texts(r@) == reasons(*mark, prev_stats(snaps@, prev), *stats, *p, texts(sentinels@), *g),
{
    let before = match prev {
        Some(i) => snaps[i].complete_stats(),
        None => None,
    };
    evaluate(mark, before, stats, p, sentinels, g)
}

/// The counts of the snapshot before, where it has them.
pub open spec fn prev_stats<'a>(s: Seq<SnapshotMeta>, prev: Option<usize>) -> Option<&'a TreeStats> {
    match prev {
        Some(i) => if counted(s[i as int]) {
            Some(&s[i as int].stats->0)
        } else {
            None
        },
        None => None,
    }
}

/// The state after a snapshot that passed: it raises the mark, unless the project is frozen.
pub open spec fn after_pass(st: ProjectState, new: SnapshotMeta) -> ProjectState {
    ProjectState {
        ref_stats: match st.ref_stats {
            Some(r) => if st.frozen is None && counted(new) {
                Some(raised(r, new.stats->0, new.id))
            } else {
                Some(r)
            },
            None => None,
        },
        ..st
    }
}

/// A snapshot that passed raises the mark, unless the project is frozen.
pub fn passed(st: &mut ProjectState, new: &SnapshotMeta)
    ensures
        *final(st) == after_pass(*old(st), *new),
{
    if st.frozen.is_some() {
        return ;
    }
    if let Some(s) = new.complete_stats() {
        if let Some(r) = st.ref_stats {
            let mut mark = r;
            raise(&mut mark, s, new.id);
            st.ref_stats = Some(mark);
        }
    }
}

/// A snapshot strictly between two ids.
pub open spec fn lies_between(m: SnapshotMeta, lower: u64, trigger: u64) -> bool {
    lower < m.id < trigger
}

/// Newest first, of equal ids the one listed first.
pub open spec fn searched_before(s: Seq<SnapshotMeta>, a: int, b: int) -> bool {
    s[a].id > s[b].id || (s[a].id == s[b].id && a < b)
}

/// `c` lists the snapshots between two ids, newest first, as many as are looked at.
pub open spec fn is_candidates(
    s: Seq<SnapshotMeta>,
    lower: u64,
    trigger: u64,
    c: Seq<usize>,
) -> bool {
    &&& c.len() <= MAX_UNCOUNTED_CANDIDATES
    &&& forall|k: int|
        0 <= k < c.len() ==> (#[trigger] c[k]) < s.len() && lies_between(
            s[c[k] as int],
            lower,
            trigger,
        )
    &&& forall|k: int, l: int|
        0 <= k < l < c.len() ==> searched_before(s, #[trigger] c[k] as int, #[trigger] c[l] as int)
    &&& forall|j: int|
        0 <= j < s.len() && lies_between(#[trigger] s[j], lower, trigger) ==> c.contains(j as usize)
            || (c.len() == MAX_UNCOUNTED_CANDIDATES && forall|k: int|
            0 <= k < c.len() ==> searched_before(s, #[trigger] c[k] as int, j))
}

/// The id above which the last good state is looked for.
pub open spec fn lower_bound(s: Seq<SnapshotMeta>, prev: Option<usize>) -> u64 {
    match prev {
        Some(i) => s[i as int].id,
        None => 0,
    }
}

/// Where in the list of candidates a snapshot belongs.
fn slot_for(snaps: &Vec<SnapshotMeta>, c: &Vec<usize>, i: usize) -> (r: usize)
    requires
        i < snaps@.len(),
        forall|k: int| 0 <= k < c@.len() ==> (#[trigger] c@[k]) < i,
        forall|k: int, l: int|
            0 <= k < l < c@.len() ==> searched_before(
                snaps@,
                #[trigger] c@[k] as int,
                #[trigger] c@[l] as int,
            ),
    ensures
        r <= c@.len(),
        forall|k: int| 0 <= k < r ==> searched_before(snaps@, #[trigger] c@[k] as int, i as int),
        forall|k: int|
            r <= k < c@.len() ==> searched_before(snaps@, i as int, #[trigger] c@[k] as int),
{
    let mut r: usize = 0;
    while r < c.len() && snaps[c[r]].id >= snaps[i].id
        invariant
            r <= c@.len(),
            i < snaps@.len(),
            forall|k: int| 0 <= k < c@.len() ==> (#[trigger] c@[k]) < i,
            forall|k: int|
                0 <= k < r ==> searched_before(snaps@, #[trigger] c@[k] as int, i as int),
        decreases c@.len() - r,
    {
        r += 1;
    }
    assert forall|k: int| r <= k < c@.len() implies searched_before(
        snaps@,
        i as int,
        #[trigger] c@[k] as int,
    ) by {
        if k > r {
            assert(searched_before(snaps@, c@[r as int] as int, c@[k] as int));
        }
    }
    r
}

/// The snapshots between the last counted one and the trigger that are looked at, newest first.
pub fn candidates(snaps: &Vec<SnapshotMeta>, prev: Option<usize>, trigger: u64) -> (r: Vec<usize>)
    requires
        prev is Some ==> prev->0 < snaps@.len(),
    ensures
        is_candidates(snaps@, lower_bound(snaps@, prev), trigger, r@),
{
    let lower = match prev {
        Some(i) => snaps[i].id,
        None => 0,
    };
    let mut c: Vec<usize> = Vec::new();
    let mut i: usize = 0;
    let ghost s = snaps@;
    while i < snaps.len()
        invariant
            i <= snaps@.len(),
            s == snaps@,
            c@.len() <= MAX_UNCOUNTED_CANDIDATES,
            forall|k: int|
                0 <= k < c@.len() ==> (#[trigger] c@[k]) < i && lies_between(
                    s[c@[k] as int],
                    lower,
                    trigger,
                ),
            forall|k: int, l: int|
                0 <= k < l < c@.len() ==> searched_before(
                    s,
                    #[trigger] c@[k] as int,
                    #[trigger] c@[l] as int,
                ),
            forall|j: int|
                0 <= j < i && lies_between(#[trigger] s[j], lower, trigger) ==> c@.contains(
                    j as usize,
                ) || (c@.len() == MAX_UNCOUNTED_CANDIDATES && forall|k: int|
                    0 <= k < c@.len() ==> searched_before(s, #[trigger] c@[k] as int, j)),
        decreases snaps@.len() - i,
    {
        let ghost before = c@;
        if lower < snaps[i].id && snaps[i].id < trigger {
            let at = slot_for(snaps, &c, i);
            c.insert(at, i);
            let ghost full = c@;
            proof {
                assert forall|k: int| 0 <= k < full.len() implies (#[trigger] full[k]) < i + 1
                    && lies_between(s[full[k] as int], lower, trigger) by {
                    if k < at {
                        assert(full[k] == before[k]);
                    } else if k > at {
                        assert(full[k] == before[k - 1]);
                    }
                }
                assert forall|k: int, l: int| 0 <= k < l < full.len() implies searched_before(
                    s,
                    #[trigger] full[k] as int,
                    #[trigger] full[l] as int,
                ) by {
                    if l < at {
                        assert(searched_before(s, before[k] as int, before[l] as int));
                    } else if l == at {
                        assert(searched_before(s, before[k] as int, i as int));
                    } else if k == at {
                        assert(searched_before(s, i as int, before[l - 1] as int));
                    } else if k < at {
                        assert(searched_before(s, before[k] as int, before[l - 1] as int));
                    } else {
                        assert(searched_before(s, before[k - 1] as int, before[l - 1] as int));
                    }
                }
                assert(full[at as int] == i);
                assert forall|x: usize| before.contains(x) implies full.contains(x) by {
                    let w = before.index_of(x);
                    if w < at {
                        assert(full[w] == x);
                    } else {
                        assert(full[w + 1] == x);
                    }
                }
            }
            if c.len() > MAX_UNCOUNTED_CANDIDATES {
                c.pop();
                proof {
                    assert(c@ =~= full.drop_last());
                    assert forall|j: int|
                        0 <= j < i + 1 && lies_between(#[trigger] s[j], lower, trigger) implies c@.contains(
                    j as usize) || (c@.len() == MAX_UNCOUNTED_CANDIDATES && forall|k: int|
                        0 <= k < c@.len() ==> searched_before(s, #[trigger] c@[k] as int, j)) by {
                        if full.contains(j as usize) {
                            let w = full.index_of(j as usize);
                            if w < c@.len() {
                                assert(c@[w] == j as usize);
                            } else {
                                assert forall|k: int| 0 <= k < c@.len() implies searched_before(
                                    s,
                                    #[trigger] c@[k] as int,
                                    j,
                                ) by {
                                    assert(searched_before(s, full[k] as int, full[w] as int));
                                }
                            }
                        } else {
                            assert(j < i);
                            assert(!before.contains(j as usize));
                            assert forall|k: int| 0 <= k < c@.len() implies searched_before(
                                s,
                                #[trigger] c@[k] as int,
                                j,
                            ) by {
                                assert(searched_before(s, full[k] as int, full[k + 1] as int));
                                if k < at {
                                    assert(searched_before(s, before[k] as int, j));
                                } else {
                                    assert(full[k + 1] == before[k]);
                                    assert(searched_before(s, before[k] as int, j));
                                }
                            }
                        }
                    }
                }
            } else {
                proof {
                    assert(full.contains(i)) by {
                        assert(full[at as int] == i);
                    }
                }
            }
        }
        i += 1;
    }
    c
}

/// What was found out about a candidate.
#[derive(Clone, Copy, Debug, PartialEq, Eq, Structural)]
pub enum Verdict {
    /// It could not be counted, or not completely.
    Unknown,
    /// It holds the loss already.
    Tripped,
    Passed,
}

/// What a look at a candidate says; `g` compares its counts with the mark.
pub fn verdict(
    mark: &RefStats,
    snaps: &Vec<SnapshotMeta>,
    prev: Option<usize>,
    m: &SnapshotMeta,
    p: &ShrinkPolicy,
    sentinels: &Vec<String>,
    g: &Gauge,
) -> (r: Verdict)
    requires
        prev is Some ==> prev->0 < snaps@.len(),
    ensures
        r == if !counted(*m) {
            Verdict::Unknown
        } else if reasons(
            *mark,
            prev_stats(snaps@, prev),
            m.stats->0,
            *p,
            texts(sentinels@),
            *g,
        ).len() == 0 {
            Verdict::Passed
        } else {
            Verdict::Tripped
        },
{
    match m.complete_stats() {
        None => Verdict::Unknown,
        Some(s) => {
            let why = judge(mark, snaps, prev, s, p, sentinels, g);
            assert(texts(why@).len() == why@.len());
            if why.len() == 0 {
                Verdict::Passed
            } else {
                Verdict::Tripped
            }
        },
    }
}

/// Where the search for the last good state stands.
#[derive(Clone, Copy, Debug, PartialEq, Eq, Structural)]
pub enum Search {
    /// Look at the snapshot at this position next.
    Look(usize),
    /// The last good snapshot, where there is one.
    Found(Option<u64>),
}

/// The first candidate that passed, if any of the first `v.len()` did.
pub open spec fn first_passed(c: Seq<usize>, v: Seq<Verdict>) -> Option<usize>
    decreases v.len(),
{
    if v.len() == 0 {
        None
    } else {
        match first_passed(c, v.drop_last()) {
            Some(i) => Some(i),
            None => if v.last() == Verdict::Passed {
                Some(c[v.len() - 1])
            } else {
                None
            },
        }
    }
}

/// The newest snapshot before the trigger that passes the guard: the first candidate that
/// passes, or else the last counted snapshot. Snapshots taken without stats often already
/// contain the loss, so they are counted and checked instead of being trusted for being "the
/// previous one".
pub open spec fn search_state(
    s: Seq<SnapshotMeta>,
    prev: Option<usize>,
    c: Seq<usize>,
    v: Seq<Verdict>,
) -> Search {
    match first_passed(c, v) {
        Some(i) => Search::Found(Some(s[i as int].id)),
        None => if v.len() < c.len() {
            Search::Look(c[v.len() as int])
        } else {
            Search::Found(
                match prev {
                    Some(i) => Some(s[i as int].id),
                    None => None,
                },
            )
        },
    }
}

/// Where the search stands after the verdicts on the first candidates.
pub fn last_good(
    snaps: &Vec<SnapshotMeta>,
    prev: Option<usize>,
    c: &Vec<usize>,
    v: &Vec<Verdict>,
) -> (r: Search)
    requires
        prev is Some ==> prev->0 < snaps@.len(),
        v@.len() <= c@.len(),
        forall|k: int| 0 <= k < c@.len() ==> (#[trigger] c@[k]) < snaps@.len(),
    ensures
        r == search_state(snaps@, prev, c@, v@),
{
    let mut i: usize = 0;
    assert(v@.take(0) =~= Seq::<Verdict>::empty());
    while i < v.len()
        invariant
            i <= v@.len() <= c@.len(),
            forall|k: int| 0 <= k < c@.len() ==> (#[trigger] c@[k]) < snaps@.len(),
            first_passed(c@, v@.take(i as int)) is None,
        decreases v@.len() - i,
    {
        assert(v@.take(i + 1).drop_last() =~= v@.take(i as int));
        if v[i] == Verdict::Passed {
            proof {
                lemma_first_passed(c@, v@, i + 1);
            }
            return Search::Found(Some(snaps[c[i]].id));
        }
        i += 1;
    }
    assert(v@.take(i as int) =~= v@);
    if v.len() < c.len() {
        return Search::Look(c[v.len()]);
    }
    match prev {
        Some(p) => Search::Found(Some(snaps[p].id)),
        None => Search::Found(None),
    }
}

/// What was found first stays what was found first.
proof fn lemma_first_passed(c: Seq<usize>, v: Seq<Verdict>, n: int)
    requires
        0 <= n <= v.len(),
        first_passed(c, v.take(n)) is Some,
    ensures
        first_passed(c, v) == first_passed(c, v.take(n)),
    decreases v.len() - n,
{
    if n == v.len() {
        assert(v.take(n) =~= v);
    } else {
        assert(v.take(n + 1).drop_last() =~= v.take(n));
        lemma_first_passed(c, v, n + 1);
    }
}

/// The snapshot that is held as the last good one passed the guard, or is the last counted one
/// before the trigger.
pub proof fn law_last_good_passed(
    s: Seq<SnapshotMeta>,
    prev: Option<usize>,
    c: Seq<usize>,
    v: Seq<Verdict>,
    id: u64,
)
    requires
        v.len() <= c.len(),
        search_state(s, prev, c, v) == Search::Found(Some(id)),
    ensures
        (exists|k: int|
            0 <= k < v.len() && v[k] == Verdict::Passed && s[#[trigger] c[k] as int].id == id) || (
        prev is Some && s[prev->0 as int].id == id && forall|k: int|
            0 <= k < v.len() ==> #[trigger] v[k] != Verdict::Passed),
{
    lemma_passed_somewhere(c, v);
}

proof fn lemma_passed_somewhere(c: Seq<usize>, v: Seq<Verdict>)
    ensures
        match first_passed(c, v) {
            Some(i) => exists|k: int|
                0 <= k < v.len() && v[k] == Verdict::Passed && #[trigger] c[k] == i,
            None => forall|k: int| 0 <= k < v.len() ==> #[trigger] v[k] != Verdict::Passed,
        },
    decreases v.len(),
{
    if v.len() > 0 {
        let d = v.drop_last();
        lemma_passed_somewhere(c, d);
        assert(forall|k: int| 0 <= k < d.len() ==> d[k] == v[k]);
        if first_passed(c, d) is None && v.last() == Verdict::Passed {
            assert(c[v.len() - 1] == first_passed(c, v)->0);
        } else if first_passed(c, d) is Some {
            let i = first_passed(c, d)->0;
            let k = choose|k: int|
                0 <= k < d.len() && d[k] == Verdict::Passed && #[trigger] c[k] == i;
            assert(v[k] == Verdict::Passed && c[k] == i);
        }
    }
}

/// Position of the first snapshot with an id.
pub open spec fn is_first_with(s: Seq<SnapshotMeta>, id: u64, i: int) -> bool {
    0 <= i < s.len() && s[i].id == id && forall|j: int| 0 <= j < i ==> (#[trigger] s[j]).id != id
}

fn find_id(snaps: &Vec<SnapshotMeta>, id: u64) -> (r: Option<usize>)
    ensures
        match r {
            Some(i) => is_first_with(snaps@, id, i as int),
            None => forall|j: int| 0 <= j < snaps@.len() ==> (#[trigger] snaps@[j]).id != id,
        },
{
    let mut i: usize = 0;
    while i < snaps.len()
        invariant
            i <= snaps@.len(),
            forall|j: int| 0 <= j < i ==> (#[trigger] snaps@[j]).id != id,
        decreases snaps@.len() - i,
    {
        if snaps[i].id == id {
            return Some(i);
        }
        i += 1;
    }
    None
}

/// The note of a snapshot that the guard holds.
pub open spec fn hold_note(trigger: u64) -> Seq<char> {
    "auto-held: last state before shrink detected in #"@ + dec(trigger as nat)
}

/// A snapshot held by the guard.
pub open spec fn held_by_guard(a: SnapshotMeta, b: SnapshotMeta, trigger: u64) -> bool {
    b == (SnapshotMeta { hold: true, hold_note: b.hold_note, ..a }) && b.hold_note@ == hold_note(
        trigger,
    )
}

/// The last good snapshot is held, and the one at position `r` was not held before; nothing else
/// changes.
pub open spec fn good_is_held(
    s: Seq<SnapshotMeta>,
    f: Seq<SnapshotMeta>,
    id: Option<u64>,
    trigger: u64,
    r: Option<usize>,
) -> bool {
    &&& f.len() == s.len()
    &&& match r {
        Some(i) => {
            &&& id is Some
            &&& is_first_with(s, id->0, i as int)
            &&& !s[i as int].hold
            &&& held_by_guard(s[i as int], f[i as int], trigger)
            &&& forall|j: int| 0 <= j < s.len() && j != i ==> f[j] == #[trigger] s[j]
        },
        None => {
            &&& f == s
            &&& id is Some ==> forall|j: int|
                is_first_with(s, id->0, j) ==> (#[trigger] s[j]).hold
        },
    }
}

/// Holds the last good snapshot, unless it is held already; the position of the one that was
/// changed.
pub fn hold_last_good(snaps: &mut Vec<SnapshotMeta>, id: Option<u64>, trigger: u64) -> (r: Option<
    usize,
>)
    ensures
        good_is_held(old(snaps)@, final(snaps)@, id, trigger, r),
{
    match id {
        None => None,
        Some(x) => match find_id(snaps, x) {
            None => None,
            Some(i) => {
                if snaps[i].hold {
                    return None;
                }
                snaps[i].hold = true;
                snaps[i].hold_note = crate::util::text::cat2(
                    "auto-held: last state before shrink detected in #",
                    dec_u64(trigger).as_str(),
                );
                Some(i)
            },
        },
    }
}

/// Reasons with the id of the snapshot that gave them.
pub open spec fn tag(r: Seq<char>, id: u64) -> Seq<char> {
    "#"@ + dec(id as nat) + ": "@ + r
}

/// The reasons of a frozen project after more of them came in, each listed once.
pub open spec fn with_reasons(have: Seq<Seq<char>>, more: Seq<Seq<char>>, id: u64) -> Seq<Seq<char>>
    decreases more.len(),
{
    if more.len() == 0 {
        have
    } else {
        let rest = with_reasons(have, more.drop_last(), id);
        let t = tag(more.last(), id);
        if rest.contains(t) {
            rest
        } else {
            rest.push(t)
        }
    }
}

fn add_reasons(have: &mut Vec<String>, more: &Vec<String>, id: u64)
    ensures
        texts(final(have)@) == with_reasons(texts(old(have)@), texts(more@), id),
{
    let ghost start = texts(have@);
    let mut i: usize = 0;
    assert(texts(more@).take(0) =~= Seq::<Seq<char>>::empty());
    while i < more.len()
        invariant
            i <= more@.len(),
            texts(have@) == with_reasons(start, texts(more@).take(i as int), id),
        decreases more@.len() - i,
    {
        assert(texts(more@).take(i + 1).drop_last() =~= texts(more@).take(i as int));
        let t = cat4("#", dec_u64(id).as_str(), ": ", more[i].as_str());
        if !list_has(have, t.as_str()) {
            let ghost before = texts(have@);
            let ghost tv = t@;
            have.push(t);
            assert(texts(have@) =~= before.push(tv));
        }
        i += 1;
    }
    assert(texts(more@).take(i as int) =~= texts(more@));
}

/// The project is frozen by a trip of the guard, or frozen for one more reason.
pub open spec fn frozen_by(
    was: Option<Frozen>,
    is: Option<Frozen>,
    why: Seq<Seq<char>>,
    trigger: u64,
    good: Option<u64>,
    now: Timestamp,
) -> bool {
    is is Some && match was {
        None => is->0.since == now && texts(is->0.reasons@) == why && is->0.trigger_snap == Some(
            trigger,
        ) && is->0.ref_snap == good,
        Some(f) => is->0 == (Frozen { reasons: is->0.reasons, ..f }) && texts(is->0.reasons@)
            == with_reasons(texts(f.reasons@), why, trigger),
    }
}

/// Freezes the project; true where it was not frozen before.
pub fn freeze(
    st: &mut ProjectState,
    why: &Vec<String>,
    trigger: u64,
    good: Option<u64>,
    now: Timestamp,
) -> (r: bool)
    ensures
        r == (old(st).frozen is None),
        *final(st) == (ProjectState { frozen: final(st).frozen, ..*old(st) }),
        frozen_by(old(st).frozen, final(st).frozen, texts(why@), trigger, good, now),
{
    match &mut st.frozen {
        Some(f) => {
            add_reasons(&mut f.reasons, why, trigger);
            false
        },
        None => {
            st.frozen = Some(
                Frozen {
                    since: now,
                    reasons: copy_list(why),
                    trigger_snap: Some(trigger),
                    ref_snap: good,
                },
            );
            true
        },
    }
}

/// An id, or what stands for a missing one.
pub open spec fn id_or(id: Option<u64>, other: Seq<char>) -> Seq<char> {
    match id {
        Some(i) => dec(i as nat),
        None => other,
    }
}

pub fn show_id(id: Option<u64>, other: &str) -> (r: String)
    ensures
        r@ == id_or(id, other@),
{
    match id {
        Some(i) => dec_u64(i),
        None => other.to_owned(),
    }
}

/// What is reported of a trip.
pub open spec fn trip_text(
    name: Seq<char>,
    id: u64,
    why: Seq<Seq<char>>,
    ref_snap: Option<u64>,
) -> Seq<char> {
    name + ": shrink detected in snapshot #"@ + dec(id as nat) + ": "@ + joined(why, "; "@)
        + ". Cleanup is frozen; last good snapshot #"@ + id_or(ref_snap, "?"@)
        + " is held. Resolve with `bpm rollback "@ + name + " "@ + id_or(ref_snap, "<snapshot>"@)
        + "` or `bpm unfreeze "@ + name + "`."@
}

/// What is reported of a trip.
pub fn trip_message(name: &str, id: u64, why: &Vec<String>, ref_snap: Option<u64>) -> (r: String)
    ensures
        r@ == trip_text(name@, id, texts(why@), ref_snap),
{
    let mut m = cat5(
        name,
        ": shrink detected in snapshot #",
        dec_u64(id).as_str(),
        ": ",
        join(why, "; ").as_str(),
    );
    m.append(". Cleanup is frozen; last good snapshot #");
    m.append(show_id(ref_snap, "?").as_str());
    m.append(" is held. Resolve with `bpm rollback ");
    m.append(name);
    m.append(" ");
    m.append(show_id(ref_snap, "<snapshot>").as_str());
    m.append("` or `bpm unfreeze ");
    m.append(name);
    m.append("`.");
    m
}

/// A variable with a text.
pub open spec fn var_is(p: (String, String), k: Seq<char>, v: Seq<char>) -> bool {
    p.0@ == k && p.1@ == v
}

/// What the hooks are told of a trip.
pub open spec fn tells_of_trip(
    h: HookCtx,
    t: Target,
    new: SnapshotMeta,
    stats: TreeStats,
    mark: RefStats,
    why: Seq<Seq<char>>,
    ref_snap: Option<u64>,
) -> bool {
    &&& h.project == Some(t.name)
    &&& h.project_path == Some(t.live)
    &&& h.owner == t.owner
    &&& h.root == Some(t.root)
    &&& h.snapshot is Some
    &&& (h.snapshot->0).0 == new.id
    &&& (h.snapshot->0).1@ == snapshot_place(t.unit.dir@, new.id)
    &&& (h.snapshot->0).2 == new.kind
    &&& h.stage is None
    &&& h.reason@ == joined(why, "; "@)
    &&& h.extra@.len() == 6
    &&& var_is(h.extra@[0], "BPM_REF_SNAPSHOT"@, id_or(ref_snap, Seq::empty()))
    &&& var_is(h.extra@[1], "BPM_TRIGGER_SNAPSHOT"@, dec(new.id as nat))
    &&& var_is(h.extra@[2], "BPM_FILES_BEFORE"@, dec(mark.files as nat))
    &&& var_is(h.extra@[3], "BPM_FILES_AFTER"@, dec(stats.files as nat))
    &&& var_is(h.extra@[4], "BPM_BYTES_BEFORE"@, dec(mark.bytes as nat))
    &&& var_is(h.extra@[5], "BPM_BYTES_AFTER"@, dec(stats.bytes as nat))
}

/// What the hooks are told of a trip.
pub fn trip_hook(
    t: &Target,
    new: &SnapshotMeta,
    stats: &TreeStats,
    mark: &RefStats,
    why: &Vec<String>,
    ref_snap: Option<u64>,
) -> (r: HookCtx)
    ensures
        tells_of_trip(r, *t, *new, *stats, *mark, texts(why@), ref_snap),
{
    let reference = match ref_snap {
        Some(i) => dec_u64(i),
        None => String::new(),
    };
    assert(reference@ =~= id_or(ref_snap, Seq::empty()));
    let mut extra: Vec<(String, String)> = Vec::new();
    extra.push(("BPM_REF_SNAPSHOT".to_owned(), reference));
    extra.push(("BPM_TRIGGER_SNAPSHOT".to_owned(), dec_u64(new.id)));
    extra.push(("BPM_FILES_BEFORE".to_owned(), dec_u64(mark.files)));
    extra.push(("BPM_FILES_AFTER".to_owned(), dec_u64(stats.files)));
    extra.push(("BPM_BYTES_BEFORE".to_owned(), dec_u64(mark.bytes)));
    extra.push(("BPM_BYTES_AFTER".to_owned(), dec_u64(stats.bytes)));
    HookCtx {
        project: Some(t.name.clone()),
        project_path: Some(t.live.clone()),
        owner: t.owner,
        root: Some(t.root.clone()),
        snapshot: Some((new.id, t.unit.snapshot_path(new.id), new.kind)),
        stage: None,
        reason: join(why, "; "),
        extra,
    }
}

/// What came of holding a snapshot against the mark.
pub enum Applied {
    /// It passed.
    Passed,
    /// It tripped the guard.
    Tripped {
        /// What is reported.
        message: String,
        /// What the hooks are told.
        hook: HookCtx,
        /// Whether the project was not frozen before.
        first: bool,
        /// The position of the snapshot that is held from now on.
        held: Option<usize>,
    },
}

/// The state after a snapshot was held against the mark, with the reasons that this gave.
pub open spec fn applied(
    st: ProjectState,
    f: ProjectState,
    new: SnapshotMeta,
    why: Seq<Seq<char>>,
    good: Option<u64>,
    now: Timestamp,
) -> bool {
    if why.len() == 0 {
        f == after_pass(st, new)
    } else {
        f == (ProjectState { frozen: f.frozen, ..st }) && frozen_by(
            st.frozen,
            f.frozen,
            why,
            new.id,
            good,
            now,
        )
    }
}

/// Ends the evaluation of a counted snapshot: without a reason it passed; otherwise the last good
/// snapshot is held and the project frozen.
pub fn apply(
    t: &Target,
    st: &mut ProjectState,
    snaps: &mut Vec<SnapshotMeta>,
    new: &SnapshotMeta,
    mark: &RefStats,
    why: &Vec<String>,
    good: Option<u64>,
    now: Timestamp,
) -> (r: Applied)
    requires
        counted(*new),
    ensures
        applied(*old(st), *final(st), *new, texts(why@), good, now),
        match r {
            Applied::Passed => why@.len() == 0 && final(snaps)@ == old(snaps)@,
            Applied::Tripped { message, hook, first, held } => {
                let ref_snap = final(st).frozen->0.ref_snap;
                &&& why@.len() > 0
                &&& good_is_held(old(snaps)@, final(snaps)@, good, new.id, held)
                &&& first == (old(st).frozen is None)
                &&& message@ == trip_text(t.name@, new.id, texts(why@), ref_snap)
                &&& tells_of_trip(
                    hook,
                    *t,
                    *new,
                    new.stats->0,
                    *mark,
                    texts(why@),
                    ref_snap,
                )
            },
        },
{
    assert(texts(why@).len() == why@.len());
    if why.len() == 0 {
        passed(st, new);
        return Applied::Passed;
    }
    let held = hold_last_good(snaps, good, new.id);
    let first = freeze(st, why, new.id, good, now);
    let ref_snap = match &st.frozen {
        Some(f) => f.ref_snap,
        None => None,
    };
    let message = trip_message(t.name.as_str(), new.id, why, ref_snap);
    match new.complete_stats() {
        Some(stats) => {
            let hook = trip_hook(t, new, stats, mark, why, ref_snap);
            Applied::Tripped { message, hook, first, held }
        },
        None => Applied::Passed,
    }
}

/// A trip freezes the project and never ends a freeze; a snapshot that passes leaves the freeze
/// as it is, and while frozen the mark stays where it was.
pub proof fn law_only_acknowledgement_ends_a_freeze(
    st: ProjectState,
    f: ProjectState,
    g: ProjectState,
    new: SnapshotMeta,
    why: Seq<Seq<char>>,
    good: Option<u64>,
    now: Timestamp,
)
    requires
        begun(st, f, new, now),
        applied(f, g, new, why, good, now),
    ensures
        why.len() > 0 ==> g.frozen is Some,
        why.len() == 0 ==> g.frozen == st.frozen,
        st.frozen is Some ==> {
            &&& g.frozen is Some
            &&& g.frozen->0.since == st.frozen->0.since
            &&& g.frozen->0.trigger_snap == st.frozen->0.trigger_snap
            &&& g.frozen->0.ref_snap == st.frozen->0.ref_snap
            &&& g.ref_stats == st.ref_stats
        },
        g.guard_seen >= new.id,
{
}

/// The guard compares with its mark or, while the project is frozen, with the last counted
/// snapshot before the new one; without either it compares with nothing.
pub proof fn law_the_guard_compares_with_the_right_count(
    st: ProjectState,
    s: Seq<SnapshotMeta>,
    new: SnapshotMeta,
)
    ensures
        st.frozen is None ==> mark_for(st, s, new) == st.ref_stats,
        st.frozen is Some ==> match mark_for(st, s, new) {
            Some(m) => exists|i: int|
                0 <= i < s.len() && (#[trigger] s[i]).id < new.id && s[i].stats is Some
                    && s[i].stats->0.complete && m.files == s[i].stats->0.files && m.bytes
                    == s[i].stats->0.bytes && m.files_snap == s[i].id && m.bytes_snap == s[i].id
                    && forall|j: int|
                    0 <= j < s.len() && s[i].id < (#[trigger] s[j]).id < new.id ==> !(
                    s[j].stats is Some && s[j].stats->0.complete),
            None => forall|j: int|
                0 <= j < s.len() && (#[trigger] s[j]).id < new.id ==> !(s[j].stats is Some
                    && s[j].stats->0.complete),
        },
{
    let p = prev_index(s, new.id);
    if p is Some {
        let i = p->0;
        assert(is_prev(s, new.id, i));
    } else {
        assert forall|j: int| 0 <= j < s.len() && (#[trigger] s[j]).id < new.id implies !(
        s[j].stats is Some && s[j].stats->0.complete) by {
            if counted_before(s[j], new.id) {
                let e = lemma_some_prev(s, new.id, s.len() as int, j);
                assert(is_prev(s, new.id, e));
            }
        }
    }
}

/// Where some snapshot before `id` was counted, one of them is the newest.
proof fn lemma_some_prev(s: Seq<SnapshotMeta>, id: u64, n: int, j: int) -> (e: int)
    requires
        0 <= j < n <= s.len(),
        counted_before(s[j], id),
    ensures
        0 <= e < n,
        counted_before(s[e], id),
        forall|k: int|
            0 <= k < n && counted_before(#[trigger] s[k], id) ==> s[k].id < s[e].id || (s[k].id
                == s[e].id && k <= e),
    decreases n,
{
    let l = n - 1;
    if j < l {
        let e = lemma_some_prev(s, id, l, j);
        if counted_before(s[l], id) && s[l].id >= s[e].id {
            l
        } else {
            e
        }
    } else if exists|k: int| 0 <= k < l && counted_before(#[trigger] s[k], id) {
        let k = choose|k: int| 0 <= k < l && counted_before(#[trigger] s[k], id);
        let e = lemma_some_prev(s, id, l, k);
        if s[l].id >= s[e].id {
            l
        } else {
            e
        }
    } else {
        l
    }
}

/// The search for the last good snapshot looks at those after the last counted one and before the
/// one that tripped, at five of them at most, at the newest first, and at all of them where there
/// are fewer.
pub proof fn law_the_search_goes_back_from_the_trigger(
    s: Seq<SnapshotMeta>,
    prev: Option<usize>,
    trigger: u64,
    c: Seq<usize>,
    j: int,
)
    requires
        is_candidates(s, lower_bound(s, prev), trigger, c),
        s.len() <= usize::MAX,
        0 <= j < s.len(),
    ensures
        c.len() <= 5,
        forall|k: int|
            0 <= k < c.len() ==> s[#[trigger] c[k] as int].id < trigger && (prev is Some
                ==> s[prev->0 as int].id < s[c[k] as int].id),
        forall|k: int, l: int|
            0 <= k < l < c.len() ==> s[#[trigger] c[k] as int].id >= s[#[trigger] c[l] as int].id,
        c.len() < 5 && s[j].id < trigger && (match prev {
            Some(i) => s[i as int].id < s[j].id,
            None => s[j].id > 0,
        }) ==> c.contains(j as usize),
{
    assert(lies_between(s[j], lower_bound(s, prev), trigger) <==> s[j].id < trigger && (match prev {
        Some(i) => s[i as int].id < s[j].id,
        None => s[j].id > 0,
    }));
}

/// The search ends at the newest candidate that passed, without asking for more than it needs; it
/// falls back to the last counted snapshot only where every candidate was looked at and none
/// passed.
pub proof fn law_the_search_takes_the_newest_that_passed(
    s: Seq<SnapshotMeta>,
    prev: Option<usize>,
    c: Seq<usize>,
    v: Seq<Verdict>,
)
    requires
        v.len() <= c.len(),
    ensures
        match search_state(s, prev, c, v) {
            Search::Look(i) => v.len() < c.len() && i == c[v.len() as int] && forall|k: int|
                0 <= k < v.len() ==> #[trigger] v[k] != Verdict::Passed,
            Search::Found(id) => (exists|k: int|
                0 <= k < v.len() && #[trigger] v[k] == Verdict::Passed && id == Some(
                    s[c[k] as int].id,
                ) && forall|l: int| 0 <= l < k ==> #[trigger] v[l] != Verdict::Passed) || (v.len()
                == c.len() && (forall|k: int|
                0 <= k < v.len() ==> #[trigger] v[k] != Verdict::Passed) && match prev {
                Some(i) => id == Some(s[i as int].id),
                None => id is None,
            }),
        },
{
    lemma_first_that_passed(c, v);
}

proof fn lemma_first_that_passed(c: Seq<usize>, v: Seq<Verdict>)
    requires
        v.len() <= c.len(),
    ensures
        match first_passed(c, v) {
            Some(i) => exists|k: int|
                0 <= k < v.len() && #[trigger] v[k] == Verdict::Passed && i == c[k] && forall|l: int|
                    0 <= l < k ==> #[trigger] v[l] != Verdict::Passed,
            None => forall|k: int| 0 <= k < v.len() ==> #[trigger] v[k] != Verdict::Passed,
        },
    decreases v.len(),
{
    if v.len() > 0 {
        let r = v.drop_last();
        lemma_first_that_passed(c, r);
        assert(forall|k: int| 0 <= k < r.len() ==> #[trigger] r[k] == v[k]);
        assert(v[v.len() - 1] == v.last());
        if first_passed(c, r) is Some {
            let k = choose|k: int|
                0 <= k < r.len() && #[trigger] r[k] == Verdict::Passed && first_passed(c, r)->0
                    == c[k] && forall|l: int| 0 <= l < k ==> #[trigger] r[l] != Verdict::Passed;
            assert(v[k] == Verdict::Passed);
            assert forall|l: int| 0 <= l < k implies #[trigger] v[l] != Verdict::Passed by {
                assert(r[l] == v[l]);
            }
        } else {
            assert forall|k: int| 0 <= k < r.len() implies #[trigger] v[k] != Verdict::Passed by {
                assert(r[k] == v[k]);
            }
        }
    }
}

/// A trip freezes the project from now on, names its reasons, the snapshot that showed the loss and
/// the last good one, and holds that one: held snapshots stay held, and nothing else about any
/// snapshot changes. Without a reason nothing is frozen or held, and the mark rises with the count.
pub proof fn law_trips_freeze_and_hold(
    st: ProjectState,
    f: ProjectState,
    s: Seq<SnapshotMeta>,
    t: Seq<SnapshotMeta>,
    new: SnapshotMeta,
    why: Seq<Seq<char>>,
    good: Option<u64>,
    held: Option<usize>,
    now: Timestamp,
    i: int,
)
    requires
        applied(st, f, new, why, good, now),
        good_is_held(s, t, good, new.id, held),
        new.stats is Some && new.stats->0.complete,
        0 <= i < s.len(),
    ensures
        why.len() > 0 && st.frozen is None ==> f.frozen is Some && f.frozen->0.since == now && texts(
            f.frozen->0.reasons@,
        ) == why && f.frozen->0.trigger_snap == Some(new.id) && f.frozen->0.ref_snap == good,
        why.len() > 0 ==> f.ref_stats == st.ref_stats,
        why.len() == 0 ==> f.frozen == st.frozen && (st.frozen is None && st.ref_stats is Some
            ==> f.ref_stats is Some && f.ref_stats->0.files >= new.stats->0.files
            && f.ref_stats->0.files >= st.ref_stats->0.files && f.ref_stats->0.bytes
            >= new.stats->0.bytes && f.ref_stats->0.bytes >= st.ref_stats->0.bytes),
        t.len() == s.len(),
        good == Some(s[i].id) && (forall|j: int| 0 <= j < i ==> (#[trigger] s[j]).id != s[i].id)
            ==> t[i].hold,
        good != Some(s[i].id) ==> t[i] == s[i],
        s[i].hold ==> t[i].hold && t[i] == s[i],
        t[i].id == s[i].id && t[i].created == s[i].created && t[i].kind == s[i].kind && t[i].stats
            == s[i].stats && t[i].source_ctransid == s[i].source_ctransid
            && t[i].snapshot_otransid == s[i].snapshot_otransid,
{
    if good == Some(s[i].id) && (forall|j: int| 0 <= j < i ==> (#[trigger] s[j]).id != s[i].id) {
        assert(is_first_with(s, good->0, i));
    }
}

/// A further trip keeps all reasons in their order, adds each new one with the snapshot that gave
/// it, and lists none of them twice.
pub proof fn law_reasons_pile_up(have: Seq<Seq<char>>, more: Seq<Seq<char>>, id: u64, k: int)
    requires
        0 <= k < more.len(),
    ensures
        have.len() <= with_reasons(have, more, id).len() <= have.len() + more.len(),
        with_reasons(have, more, id).take(have.len() as int) == have,
        with_reasons(have, more, id).contains("#"@ + dec(id as nat) + ": "@ + more[k]),
        have.contains("#"@ + dec(id as nat) + ": "@ + more[0]) && more.len() == 1 ==> with_reasons(
            have,
            more,
            id,
        ) == have,
    decreases more.len(),
{
    lemma_reasons_grow(have, more, id);
    let less = more.drop_last();
    let rest = with_reasons(have, less, id);
    let t = tag(more.last(), id);
    if more.len() == 1 {
        assert(with_reasons(have, less, id) == have);
        assert(more.last() == more[0]);
    }
    if k < less.len() {
        law_reasons_pile_up(have, less, id, k);
        assert(less[k] == more[k]);
        let x = tag(more[k], id);
        let z = rest.index_of(x);
        assert(rest.push(t)[z] == x);
    } else {
        assert(more.last() == more[k]);
        assert(rest.push(t)[rest.len() as int] == t);
    }
}

proof fn lemma_reasons_grow(have: Seq<Seq<char>>, more: Seq<Seq<char>>, id: u64)
    ensures
        have.len() <= with_reasons(have, more, id).len() <= have.len() + more.len(),
        with_reasons(have, more, id).take(have.len() as int) == have,
    decreases more.len(),
{
    if more.len() > 0 {
        lemma_reasons_grow(have, more.drop_last(), id);
        let rest = with_reasons(have, more.drop_last(), id);
        let t = tag(more.last(), id);
        assert(rest.push(t).take(have.len() as int) =~= rest.take(have.len() as int));
    } else {
        assert(have.take(have.len() as int) =~= have);
    }
}

/// The first counted snapshot sets the mark to its counts, a later one leaves it to the comparison,
/// and every snapshot counts as seen.
pub proof fn law_the_first_count_sets_the_mark(
    st: ProjectState,
    f: ProjectState,
    new: SnapshotMeta,
    now: Timestamp,
)
    requires
        begun(st, f, new, now),
    ensures
        f.guard_seen >= new.id && f.guard_seen >= st.guard_seen,
        f.frozen == st.frozen,
        st.ref_stats is Some || st.frozen is Some ==> f.ref_stats == st.ref_stats,
        st.ref_stats is None && st.frozen is None ==> if new.stats is Some
            && new.stats->0.complete {
            f.ref_stats is Some && f.ref_stats->0.files == new.stats->0.files
                && f.ref_stats->0.bytes == new.stats->0.bytes && f.ref_stats->0.files_snap == new.id
                && f.ref_stats->0.bytes_snap == new.id
        } else {
            f.ref_stats is None
        },
{
}

/// A snapshot that passed raises the marks by its complete count, unless the project is frozen;
/// nothing else changes, and marks that were never set stay unset.
pub proof fn law_only_passed_counts_raise_the_marks(st: ProjectState, new: SnapshotMeta)
    ensures
        ({
            let f = after_pass(st, new);
            &&& st.frozen is Some ==> f == st
            &&& st.ref_stats is None ==> f.ref_stats is None
            &&& !(new.stats matches Some(c) && c.complete) ==> f.ref_stats == st.ref_stats
            &&& st.frozen is None && st.ref_stats is Some && (new.stats matches Some(c)
                && c.complete) ==> f.ref_stats == Some(
                raised(st.ref_stats->0, new.stats->0, new.id),
            )
            &&& f == ProjectState { ref_stats: f.ref_stats, ..st }
        }),
{
}

/// A hook that is told of a trip learns what the marks were and what is left, of files and of
/// bytes, and by which snapshots that is known.
pub proof fn law_hooks_learn_what_was_lost(
    h: HookCtx,
    t: Target,
    new: SnapshotMeta,
    stats: TreeStats,
    mark: RefStats,
    why: Seq<Seq<char>>,
    good: u64,
)
    requires
        tells_of_trip(h, t, new, stats, mark, why, Some(good)),
    ensures
        h.snapshot matches Some(s) && s.0 == new.id,
        h.extra@[0].0@ == "BPM_REF_SNAPSHOT"@ && h.extra@[0].1@ == dec(good as nat),
        h.extra@[1].0@ == "BPM_TRIGGER_SNAPSHOT"@ && h.extra@[1].1@ == dec(new.id as nat),
        h.extra@[2].0@ == "BPM_FILES_BEFORE"@ && h.extra@[2].1@ == dec(mark.files as nat),
        h.extra@[3].0@ == "BPM_FILES_AFTER"@ && h.extra@[3].1@ == dec(stats.files as nat),
        h.extra@[4].0@ == "BPM_BYTES_BEFORE"@ && h.extra@[4].1@ == dec(mark.bytes as nat),
        h.extra@[5].0@ == "BPM_BYTES_AFTER"@ && h.extra@[5].1@ == dec(stats.bytes as nat),
{
}

/// What the search leaves out is not newer than anything that it looks at.
pub proof fn law_the_search_leaves_out_the_oldest(
    s: Seq<SnapshotMeta>,
    lower: u64,
    trigger: u64,
    c: Seq<usize>,
    j: int,
)
    requires
        is_candidates(s, lower, trigger, c),
        0 <= j < s.len() <= usize::MAX,
        lower < s[j].id < trigger,
    ensures
        !c.contains(j as usize) ==> forall|k: int|
            0 <= k < c.len() ==> s[#[trigger] c[k] as int].id >= s[j].id,
{
    assert(lies_between(s[j], lower, trigger));
    if !c.contains(j as usize) {
        assert forall|k: int| 0 <= k < c.len() implies s[#[trigger] c[k] as int].id >= s[j].id by {
            assert(searched_before(s, c[k] as int, j));
        }
    }
}

} // verus!
