//! Retention: age windows in which the oldest snapshot of each bucket stays.

use vstd::prelude::*;

use crate::config::schema::{ContainerCfg, ThinPolicy};
use crate::store::{newest, Frozen, KindClass, SnapshotMeta};
#[allow(unused_imports)]
use crate::store::meta::{class_of, never_thinned};
#[allow(unused_imports)]
use crate::store::{is_newest, newest_index, SnapshotKind};
use crate::util::time::{age, Duration, Timestamp};
#[allow(unused_imports)]
use crate::util::time::{elapsed, whole_seconds};

verus! {

/// How long snapshots stay.
#[derive(Clone, Copy, Debug, PartialEq, Eq, Structural)]
pub struct Windows {
    pub keep_all: Duration,
    pub hourly: Duration,
    pub daily: Duration,
    pub weekly: Duration,
    pub safety_ttl: Duration,
}

impl Windows {
    /// The windows of a project's retention policy.
    pub fn from_thin(p: &ThinPolicy) -> (r: Windows)
        ensures
            r.keep_all == p.keep_all,
            r.hourly == p.hourly,
            r.daily == p.daily,
            r.weekly == p.weekly,
            r.safety_ttl == p.safety_ttl,
    {
        Windows {
            keep_all: p.keep_all,
            hourly: p.hourly,
            daily: p.daily,
            weekly: p.weekly,
            safety_ttl: p.safety_ttl,
        }
    }

    /// The windows of a root: no hourly one, and a week for safety.
    pub fn from_container(c: &ContainerCfg) -> (r: Windows)
        ensures
            r.keep_all == c.keep_all,
            r.hourly.ns == 0,
            r.daily == c.daily,
            r.weekly == c.weekly,
            r.safety_ttl.ns == 604_800_000_000_000,
    {
        Windows {
            keep_all: c.keep_all,
            hourly: Duration::zero(),
            daily: c.daily,
            weekly: c.weekly,
            safety_ttl: Duration::from_secs(7 * 86400),
        }
    }
}

/// Whether policy (thinning or collapse) may ever consider a snapshot for deletion: it is not
/// held, its kind allows it at its age, and it was not there when the project froze.
pub open spec fn deletable(
    m: SnapshotMeta,
    now: Timestamp,
    safety_ttl: Duration,
    frozen: Option<&Frozen>,
    thin_after_freeze: bool,
) -> bool {
    &&& !m.hold
    &&& match class_of(m.kind) {
        KindClass::Thinnable => true,
        KindClass::Safety => elapsed(now, m.created) > safety_ttl.ns,
        KindClass::Keep => false,
    }
    &&& match frozen {
        None => true,
        Some(f) => thin_after_freeze && m.created.ns > f.since.ns,
    }
}

/// May policy (thinning or collapse) ever consider this snapshot for deletion?
pub fn policy_deletable(
    m: &SnapshotMeta,
    now: Timestamp,
    safety_ttl: Duration,
    frozen: Option<&Frozen>,
    thin_after_freeze: bool,
) -> (r: bool)
    ensures
        r == deletable(*m, now, safety_ttl, frozen, thin_after_freeze),
{
    if m.hold {
        return false;
    }
    let class_ok = match m.kind.class() {
        KindClass::Thinnable => true,
        KindClass::Safety => age(now, m.created).ns > safety_ttl.ns,
        KindClass::Keep => false,
    };
    let frozen_ok = match frozen {
        None => true,
        Some(f) => thin_after_freeze && m.created.ns > f.since.ns,
    };
    class_ok && frozen_ok
}

pub const HOUR: i128 = 3600;

pub const DAY: i128 = 86_400;

pub const WEEK: i128 = 604_800;

/// 1970-01-01 was a Thursday; shift so weeks start on Monday.
pub const WEEK_OFFSET: i128 = 345_600;

/// Snapshot `a` comes before `b` in time, or has the smaller id at the same instant.
pub open spec fn earlier(a: SnapshotMeta, b: SnapshotMeta) -> bool {
    a.created.ns < b.created.ns || (a.created.ns == b.created.ns && a.id < b.id)
}

pub open spec fn not_later(a: SnapshotMeta, b: SnapshotMeta) -> bool {
    !earlier(b, a)
}

/// Position `a` comes before position `b` in time; snapshots that agree in instant and id keep
/// their order.
pub open spec fn precedes(s: Seq<SnapshotMeta>, a: int, b: int) -> bool {
    earlier(s[a], s[b]) || (not_later(s[a], s[b]) && a < b)
}

/// Everything that decides about one list of snapshots.
pub struct Retention<'a> {
    pub now: Timestamp,
    pub windows: Windows,
    pub frozen: Option<&'a Frozen>,
    pub thin_after_freeze: bool,
}

/// The stretch of time of the given width that an instant lies in.
pub open spec fn bucket(t: Timestamp, width: int, offset: int) -> int {
    (whole_seconds(t.ns as int) - offset) / width
}

/// Position `i` is up for deletion: policy allows it and it has not the id of the newest one.
pub open spec fn candidate(s: Seq<SnapshotMeta>, ret: Retention, i: int) -> bool {
    &&& 0 <= i < s.len()
    &&& newest_index(s) is Some ==> s[i].id != s[newest_index(s)->0].id
    &&& deletable(s[i], ret.now, ret.windows.safety_ttl, ret.frozen, ret.thin_after_freeze)
}

/// Position `i` is the oldest candidate of its bucket, in a window that reaches it.
pub open spec fn represents(
    s: Seq<SnapshotMeta>,
    ret: Retention,
    i: int,
    window: Duration,
    width: int,
    offset: int,
) -> bool {
    &&& candidate(s, ret, i)
    &&& window.ns > 0
    &&& elapsed(ret.now, s[i].created) <= window.ns
    &&& forall|j: int|
        (#[trigger] candidate(s, ret, j) && elapsed(ret.now, s[j].created) <= window.ns && bucket(
            s[j].created,
            width,
            offset,
        ) == bucket(s[i].created, width, offset)) ==> not_later(s[i], s[j])
}

/// A candidate that stays: it is recent, or it represents an hour, a day or a week.
pub open spec fn stays(s: Seq<SnapshotMeta>, ret: Retention, i: int) -> bool {
    candidate(s, ret, i) && (elapsed(ret.now, s[i].created) <= ret.windows.keep_all.ns
        || represents(s, ret, i, ret.windows.hourly, HOUR as int, 0) || represents(
        s,
        ret,
        i,
        ret.windows.daily,
        DAY as int,
        0,
    ) || represents(s, ret, i, ret.windows.weekly, WEEK as int, WEEK_OFFSET as int))
}

/// A snapshot id that stays: some candidate with that id does.
pub open spec fn stays_id(s: Seq<SnapshotMeta>, ret: Retention, id: u64) -> bool {
    exists|i: int| #[trigger] stays(s, ret, i) && s[i].id == id
}

/// Position `i` goes.
pub open spec fn goes(s: Seq<SnapshotMeta>, ret: Retention, i: int) -> bool {
    candidate(s, ret, i) && !stays_id(s, ret, s[i].id)
}

/// Whether the positions `p` hold `i`.
pub open spec fn lists(p: Seq<usize>, i: int) -> bool {
    exists|k: int| 0 <= k < p.len() && #[trigger] p[k] == i
}

/// The positions `p` list exactly those below `n` for which `f` holds, each once, the earliest
/// snapshot first.
pub open spec fn in_time_order(
    s: Seq<SnapshotMeta>,
    p: Seq<usize>,
    n: int,
    f: spec_fn(int) -> bool,
) -> bool {
    &&& forall|k: int| 0 <= k < p.len() ==> 0 <= #[trigger] p[k] < n && f(p[k] as int)
    &&& forall|i: int| 0 <= i < n && #[trigger] f(i) ==> lists(p, i)
    &&& forall|j: int, k: int|
        0 <= j < k < p.len() ==> precedes(s, #[trigger] p[j] as int, #[trigger] p[k] as int)
}

/// The ids at the given positions.
pub open spec fn ids_at(s: Seq<SnapshotMeta>, p: Seq<usize>) -> Seq<u64> {
    Seq::new(p.len(), |k: int| s[p[k] as int].id)
}

/// The quotient of a division that rounds down.
fn floor_div(x: i128, w: i128) -> (r: i128)
    requires
        w > 0,
        x > i128::MIN,
    ensures
        r == x as int / w as int,
{
    if x >= 0 {
        x / w
    } else {
        let y: i128 = -x - 1;
        let q: i128 = y / w;
        let t: i128 = y % w;
        proof {
            vstd::arithmetic::div_mod::lemma_fundamental_div_mod(y as int, w as int);
            assert(x as int == (-(q as int) - 1) * (w as int) + (w - t - 1)) by (nonlinear_arith)
                requires
                    y == -x - 1,
                    y == w * q + t,
            ;
            vstd::arithmetic::div_mod::lemma_fundamental_div_mod_converse(
                x as int,
                w as int,
                -(q as int) - 1,
                w - t - 1,
            );
            assert(0 <= q <= y) by (nonlinear_arith)
                requires
                    y == w * q + t,
                    w > 0,
                    y >= 0,
                    0 <= t < w,
            ;
        }
        -q - 1
    }
}

fn bucket_of(t: Timestamp, width: i128, offset: i128) -> (r: i128)
    requires
        width > 0,
        0 <= offset <= WEEK,
    ensures
        r == bucket(t, width as int, offset as int),
{
    let sec: i128 = t.as_second();
    floor_div(sec - offset, width)
}

/// Puts position `i` among the positions `p`, behind those of earlier snapshots.
pub(crate) fn insert_by_time(
    snaps: &Vec<SnapshotMeta>,
    p: &mut Vec<usize>,
    i: usize,
    Ghost(f): Ghost<spec_fn(int) -> bool>,
)
    requires
        i < snaps@.len(),
        f(i as int),
        in_time_order(snaps@, old(p)@, i as int, f),
    ensures
        in_time_order(snaps@, final(p)@, i + 1, f),
        final(p)@.len() == old(p)@.len() + 1,
{
    let ghost before = p@;
    let mut k: usize = p.len();
    while k > 0 && (snaps[i].created.ns < snaps[p[k - 1]].created.ns || (snaps[i].created.ns
        == snaps[p[k - 1]].created.ns && snaps[i].id < snaps[p[k - 1]].id))
        invariant
            k <= p@.len(),
            p@ == before,
            i < snaps@.len(),
            in_time_order(snaps@, before, i as int, f),
            forall|j: int| k <= j < p@.len() ==> earlier(snaps@[i as int], snaps@[#[trigger] p@[j] as int]),
        decreases k,
    {
        k -= 1;
    }
    p.insert(k, i);
    proof {
        let q = p@;
        assert(q =~= before.insert(k as int, i));
        assert forall|j: int| 0 <= j < q.len() implies 0 <= #[trigger] q[j] < i + 1 && f(
            q[j] as int,
        ) by {
            if j < k {
                assert(q[j] == before[j]);
            } else if j > k {
                assert(q[j] == before[j - 1]);
            }
        }
        assert forall|x: int| 0 <= x < i + 1 && #[trigger] f(x) implies lists(q, x) by {
            if x < i {
                assert(lists(before, x));
                let j = choose|j: int| 0 <= j < before.len() && #[trigger] before[j] == x;
                if j < k {
                    assert(q[j] == x);
                } else {
                    assert(q[j + 1] == x);
                }
            } else {
                assert(q[k as int] == i);
            }
        }
        assert forall|j: int, l: int| 0 <= j < l < q.len() implies precedes(
            snaps@,
            #[trigger] q[j] as int,
            #[trigger] q[l] as int,
        ) by {
            let jb = if j < k {
                j
            } else {
                j - 1
            };
            let lb = if l < k {
                l
            } else {
                l - 1
            };
            if j == k {
                assert(q[l] == before[lb]);
                assert(earlier(snaps@[i as int], snaps@[before[lb] as int]));
            } else if l == k {
                assert(q[j] == before[jb]);
                if k > 0 && jb < k - 1 {
                    assert(precedes(snaps@, before[jb] as int, before[k - 1] as int));
                }
            } else {
                assert(q[j] == before[jb]);
                assert(q[l] == before[lb]);
            }
        }
    }
}

/// Whether `id` is among `ids`.
fn has_id(ids: &Vec<u64>, id: u64) -> (r: bool)
    ensures
        r == ids@.contains(id),
{
    let mut i: usize = 0;
    while i < ids.len()
        invariant
            i <= ids@.len(),
            forall|k: int| 0 <= k < i ==> #[trigger] ids@[k] != id,
        decreases ids@.len() - i,
    {
        if ids[i] == id {
            return true;
        }
        i += 1;
    }
    false
}

fn has_bucket(b: &Vec<i128>, x: i128) -> (r: bool)
    ensures
        r == b@.contains(x),
{
    let mut i: usize = 0;
    while i < b.len()
        invariant
            i <= b@.len(),
            forall|k: int| 0 <= k < i ==> #[trigger] b@[k] != x,
        decreases b@.len() - i,
    {
        if b[i] == x {
            return true;
        }
        i += 1;
    }
    false
}

/// The candidates, the earliest first.
fn candidates(snaps: &Vec<SnapshotMeta>, ret: &Retention) -> (r: Vec<usize>)
    ensures
        in_time_order(snaps@, r@, snaps@.len() as int, |i: int| candidate(snaps@, *ret, i)),
{
    let newest_id: Option<u64> = match newest(snaps) {
        Some(m) => Some(m.id),
        None => None,
    };
    let ghost f = |i: int| candidate(snaps@, *ret, i);
    let mut p: Vec<usize> = Vec::new();
    let mut i: usize = 0;
    while i < snaps.len()
        invariant
            i <= snaps@.len(),
            f == (|i: int| candidate(snaps@, *ret, i)),
            newest_index(snaps@) is None ==> newest_id is None,
            newest_index(snaps@) is Some ==> newest_id == Some(
                snaps@[newest_index(snaps@)->0].id,
            ),
            in_time_order(snaps@, p@, i as int, f),
        decreases snaps@.len() - i,
    {
        let m = &snaps[i];
        let is_newest_id = match newest_id {
            Some(id) => id == m.id,
            None => false,
        };
        if !is_newest_id && policy_deletable(
            m,
            ret.now,
            ret.windows.safety_ttl,
            ret.frozen,
            ret.thin_after_freeze,
        ) {
            assert(f(i as int));
            insert_by_time(snaps, &mut p, i, Ghost(f));
        } else {
            assert(!f(i as int));
        }
        i += 1;
    }
    p
}

spec fn has_number(seen: Seq<i128>, x: int) -> bool {
    exists|b: int| 0 <= b < seen.len() && #[trigger] seen[b] == x
}

/// One of the first `k` candidates represents the bucket `x`.
spec fn marked(
    s: Seq<SnapshotMeta>,
    ret: Retention,
    c: Seq<usize>,
    window: Duration,
    width: int,
    offset: int,
    k: int,
    x: int,
) -> bool {
    exists|j: int|
        0 <= j < k && represents(s, ret, (#[trigger] c[j]) as int, window, width, offset) && bucket(
            s[c[j] as int].created,
            width,
            offset,
        ) == x
}

/// One of the first `k` candidates represents a bucket and has the given id.
spec fn kept_by(
    s: Seq<SnapshotMeta>,
    ret: Retention,
    c: Seq<usize>,
    window: Duration,
    width: int,
    offset: int,
    k: int,
    id: u64,
) -> bool {
    exists|j: int|
        0 <= j < k && represents(s, ret, (#[trigger] c[j]) as int, window, width, offset)
            && s[c[j] as int].id == id
}

/// The first candidate of a bucket within a window represents the bucket.
proof fn lemma_first_represents(
    s: Seq<SnapshotMeta>,
    ret: Retention,
    c: Seq<usize>,
    window: Duration,
    width: int,
    offset: int,
    k: int,
)
    requires
        in_time_order(s, c, s.len() as int, |i: int| candidate(s, ret, i)),
        0 <= k < c.len(),
        window.ns > 0,
        elapsed(ret.now, s[c[k] as int].created) <= window.ns,
        forall|j: int|
            0 <= j < k && elapsed(ret.now, s[(#[trigger] c[j]) as int].created) <= window.ns
                ==> bucket(s[c[j] as int].created, width, offset) != bucket(
                s[c[k] as int].created,
                width,
                offset,
            ),
    ensures
        represents(s, ret, c[k] as int, window, width, offset),
{
    let cand = |i: int| candidate(s, ret, i);
    let at = c[k] as int;
    assert(cand(at));
    assert forall|j: int|
        (#[trigger] candidate(s, ret, j) && elapsed(ret.now, s[j].created) <= window.ns && bucket(
            s[j].created,
            width,
            offset,
        ) == bucket(s[at].created, width, offset)) implies not_later(s[at], s[j]) by {
        assert(cand(j));
        assert(lists(c, j));
        let q = choose|q: int| 0 <= q < c.len() && #[trigger] c[q] == j;
        if q > k {
            assert(precedes(s, c[k] as int, c[q] as int));
        }
    }
}

proof fn lemma_push_contains(a: Seq<u64>, x: u64)
    ensures
        forall|id: u64| #[trigger] a.push(x).contains(id) <==> (a.contains(id) || id == x),
{
    assert forall|id: u64| #[trigger] a.push(x).contains(id) <==> (a.contains(id) || id == x) by {
        assert(a.push(x)[a.len() as int] == x);
        if a.contains(id) {
            let z = a.index_of(id);
            assert(a.push(x)[z] == id);
        }
        if a.push(x).contains(id) {
            let z = a.push(x).index_of(id);
            if z < a.len() {
                assert(a[z] == id);
            }
        }
    }
}

/// Adds to `keep` the ids of the candidates that represent a bucket of one window.
fn keep_window(
    snaps: &Vec<SnapshotMeta>,
    ret: &Retention,
    cands: &Vec<usize>,
    window: Duration,
    width: i128,
    offset: i128,
    keep: &mut Vec<u64>,
)
    requires
        in_time_order(snaps@, cands@, snaps@.len() as int, |i: int| candidate(snaps@, *ret, i)),
        width > 0,
        0 <= offset <= WEEK,
    ensures
        forall|id: u64| #[trigger]
            final(keep)@.contains(id) <==> (old(keep)@.contains(id) || exists|i: int|
                #[trigger] represents(snaps@, *ret, i, window, width as int, offset as int)
                    && snaps@[i].id == id),
{
    let ghost s = snaps@;
    let ghost c = cands@;
    let ghost w = width as int;
    let ghost o = offset as int;
    let ghost first = keep@;
    if window.ns == 0 {
        return ;
    }
    let ghost cand = |i: int| candidate(s, *ret, i);
    let mut seen: Vec<i128> = Vec::new();
    let mut k: usize = 0;
    while k < cands.len()
        invariant
            k <= c.len(),
            c == cands@,
            s == snaps@,
            w == width,
            o == offset,
            width > 0,
            0 <= offset <= WEEK,
            window.ns > 0,
            cand == (|i: int| candidate(s, *ret, i)),
            in_time_order(s, c, s.len() as int, cand),
            forall|j: int|
                0 <= j < k && elapsed(ret.now, s[(#[trigger] c[j]) as int].created) <= window.ns
                    ==> has_number(seen@, bucket(s[c[j] as int].created, w, o)),
            forall|x: int| #[trigger]
                has_number(seen@, x) ==> marked(s, *ret, c, window, w, o, k as int, x),
            forall|id: u64| #[trigger]
                keep@.contains(id) <==> (first.contains(id) || kept_by(
                    s,
                    *ret,
                    c,
                    window,
                    w,
                    o,
                    k as int,
                    id,
                )),
        decreases c.len() - k,
    {
        let at: usize = cands[k];
        assert(cand(c[k as int] as int));
        let m = &snaps[at];
        let ghost kept = keep@;
        let ghost before = seen@;
        let ghost rep = represents(s, *ret, at as int, window, w, o);
        let ghost here = bucket(s[at as int].created, w, o);
        if age(ret.now, m.created).ns <= window.ns {
            let b: i128 = bucket_of(m.created, width, offset);
            if !has_bucket(&seen, b) {
                proof {
                    assert(!has_number(before, here)) by {
                        if has_number(before, here) {
                            let z = choose|z: int| 0 <= z < before.len() && #[trigger] before[z] == here;
                            assert(before.contains(b));
                        }
                    }
                    lemma_first_represents(s, *ret, c, window, w, o, k as int);
                    lemma_push_contains(kept, m.id);
                }
                seen.push(b);
                keep.push(m.id);
                proof {
                    assert forall|x: int| #[trigger] has_number(seen@, x) <==> (has_number(
                        before,
                        x,
                    ) || x == here) by {
                        assert(seen@[before.len() as int] == here);
                        if has_number(before, x) {
                            let z = choose|z: int| 0 <= z < before.len() && #[trigger] before[z] == x;
                            assert(seen@[z] == x);
                        }
                        if has_number(seen@, x) {
                            let z = choose|z: int| 0 <= z < seen@.len() && #[trigger] seen@[z] == x;
                            if z < before.len() {
                                assert(before[z] == x);
                            }
                        }
                    }
                }
            } else {
                proof {
                    let z = before.index_of(b);
                    assert(before[z] == here);
                    assert(has_number(before, here));
                    if rep {
                        let j = choose|j: int|
                            0 <= j < k && represents(
                                s,
                                *ret,
                                (#[trigger] c[j]) as int,
                                window,
                                w,
                                o,
                            ) && bucket(s[c[j] as int].created, w, o) == here;
                        assert(candidate(s, *ret, c[j] as int));
                        assert(not_later(s[at as int], s[c[j] as int]));
                        assert(precedes(s, c[j] as int, c[k as int] as int));
                        assert(s[c[j] as int].id == s[at as int].id);
                        assert(kept_by(s, *ret, c, window, w, o, k as int, s[at as int].id));
                    }
                }
            }
        }
        proof {
            assert(c[k as int] == at);
            assert forall|x: int| #[trigger] has_number(seen@, x) implies marked(
                s,
                *ret,
                c,
                window,
                w,
                o,
                k + 1,
                x,
            ) by {
                if has_number(before, x) {
                    assert(marked(s, *ret, c, window, w, o, k as int, x));
                }
            }
            assert forall|id: u64| #[trigger] keep@.contains(id) <==> (first.contains(id)
                || kept_by(s, *ret, c, window, w, o, k + 1, id)) by {
                if kept_by(s, *ret, c, window, w, o, k + 1, id) {
                    let j = choose|j: int|
                        0 <= j < k + 1 && represents(
                            s,
                            *ret,
                            (#[trigger] c[j]) as int,
                            window,
                            w,
                            o,
                        ) && s[c[j] as int].id == id;
                    if j < k {
                        assert(kept_by(s, *ret, c, window, w, o, k as int, id));
                        assert(kept.contains(id));
                    }
                }
                if keep@.contains(id) && !first.contains(id) && kept.contains(id) {
                    assert(kept_by(s, *ret, c, window, w, o, k as int, id));
                }
            }
        }
        k += 1;
    }
    proof {
        assert forall|id: u64| #[trigger] keep@.contains(id) <==> (first.contains(id) || exists|
            i: int,
        | #[trigger] represents(s, *ret, i, window, w, o) && s[i].id == id) by {
            if kept_by(s, *ret, c, window, w, o, k as int, id) {
                let j = choose|j: int|
                    0 <= j < k && represents(s, *ret, (#[trigger] c[j]) as int, window, w, o)
                        && s[c[j] as int].id == id;
                assert(represents(s, *ret, c[j] as int, window, w, o));
            }
            if exists|i: int| #[trigger]
                represents(s, *ret, i, window, w, o) && s[i].id == id {
                let i = choose|i: int| #[trigger]
                    represents(s, *ret, i, window, w, o) && s[i].id == id;
                assert(cand(i));
                assert(lists(c, i));
                let j = choose|j: int| 0 <= j < c.len() && #[trigger] c[j] == i;
                assert(kept_by(s, *ret, c, window, w, o, k as int, id));
            }
        }
    }
}

/// `ids` are those of the snapshots that retention lets go, the earliest first.
pub open spec fn lets_go(s: Seq<SnapshotMeta>, ret: Retention, ids: Seq<u64>) -> bool {
    exists|p: Seq<usize>|
        #[trigger] ids_at(s, p) == ids && in_time_order(
            s,
            p,
            s.len() as int,
            |i: int| goes(s, ret, i),
        )
}

/// The snapshots that retention lets go, the earliest first.
pub fn select_deletions(
    snaps: &Vec<SnapshotMeta>,
    now: Timestamp,
    w: &Windows,
    frozen: Option<&Frozen>,
    thin_after_freeze: bool,
) -> (r: Vec<u64>)
    ensures
        lets_go(
            snaps@,
            Retention { now, windows: *w, frozen, thin_after_freeze },
            r@,
        ),
{
    let ret = Retention { now, windows: *w, frozen, thin_after_freeze };
    let ghost s = snaps@;
    let cands = candidates(snaps, &ret);
    let ghost c = cands@;
    let ghost cand = |i: int| candidate(s, ret, i);
    assert(in_time_order(s, c, s.len() as int, cand));
    let mut keep: Vec<u64> = Vec::new();
    let mut k: usize = 0;
    while k < cands.len()
        invariant
            k <= c.len(),
            c == cands@,
            s == snaps@,
            cand == (|i: int| candidate(s, ret, i)),
            in_time_order(s, c, s.len() as int, cand),
            forall|id: u64| #[trigger]
                keep@.contains(id) <==> exists|j: int|
                    0 <= j < k && elapsed(ret.now, s[(#[trigger] c[j]) as int].created)
                        <= ret.windows.keep_all.ns && s[c[j] as int].id == id,
        decreases c.len() - k,
    {
        assert(cand(c[k as int] as int));
        let m = &snaps[cands[k]];
        let ghost kept = keep@;
        if age(ret.now, m.created).ns <= ret.windows.keep_all.ns {
            keep.push(m.id);
        }
        proof {
            assert forall|id: u64| #[trigger] keep@.contains(id) <==> exists|j: int|
                0 <= j < k + 1 && elapsed(ret.now, s[(#[trigger] c[j]) as int].created)
                    <= ret.windows.keep_all.ns && s[c[j] as int].id == id by {
                if keep@.contains(id) {
                    let z = keep@.index_of(id);
                    if z < kept.len() {
                        assert(kept[z] == id);
                        assert(kept.contains(id));
                    } else {
                        assert(s[c[k as int] as int].id == id);
                    }
                }
                if exists|j: int|
                    0 <= j < k + 1 && elapsed(ret.now, s[(#[trigger] c[j]) as int].created)
                        <= ret.windows.keep_all.ns && s[c[j] as int].id == id {
                    let j = choose|j: int|
                        0 <= j < k + 1 && elapsed(ret.now, s[(#[trigger] c[j]) as int].created)
                            <= ret.windows.keep_all.ns && s[c[j] as int].id == id;
                    if j < k {
                        assert(kept.contains(id));
                        let z = kept.index_of(id);
                        assert(keep@[z] == id);
                    } else {
                        assert(keep@[kept.len() as int] == id);
                    }
                }
            }
        }
        k += 1;
    }
    let ghost k0 = keep@;
    keep_window(snaps, &ret, &cands, ret.windows.hourly, HOUR, 0, &mut keep);
    let ghost k1 = keep@;
    keep_window(snaps, &ret, &cands, ret.windows.daily, DAY, 0, &mut keep);
    let ghost k2 = keep@;
    keep_window(snaps, &ret, &cands, ret.windows.weekly, WEEK, WEEK_OFFSET, &mut keep);
    proof {
        assert forall|id: u64| #[trigger] keep@.contains(id) <==> stays_id(s, ret, id) by {
            assert(keep@.contains(id) <==> (k2.contains(id) || exists|i: int| #[trigger]
                represents(s, ret, i, ret.windows.weekly, WEEK as int, WEEK_OFFSET as int)
                    && s[i].id == id));
            assert(k2.contains(id) <==> (k1.contains(id) || exists|i: int| #[trigger]
                represents(s, ret, i, ret.windows.daily, DAY as int, 0) && s[i].id == id));
            assert(k1.contains(id) <==> (k0.contains(id) || exists|i: int| #[trigger]
                represents(s, ret, i, ret.windows.hourly, HOUR as int, 0) && s[i].id == id));
            if keep@.contains(id) {
                if k0.contains(id) {
                    let j = choose|j: int|
                        0 <= j < c.len() && elapsed(ret.now, s[(#[trigger] c[j]) as int].created)
                            <= ret.windows.keep_all.ns && s[c[j] as int].id == id;
                    assert(cand(c[j] as int));
                    assert(stays(s, ret, c[j] as int));
                } else if k1.contains(id) {
                    let i = choose|i: int| #[trigger]
                        represents(s, ret, i, ret.windows.hourly, HOUR as int, 0) && s[i].id == id;
                    assert(stays(s, ret, i));
                } else if k2.contains(id) {
                    let i = choose|i: int| #[trigger]
                        represents(s, ret, i, ret.windows.daily, DAY as int, 0) && s[i].id == id;
                    assert(stays(s, ret, i));
                } else {
                    let i = choose|i: int| #[trigger]
                        represents(s, ret, i, ret.windows.weekly, WEEK as int, WEEK_OFFSET as int)
                            && s[i].id == id;
                    assert(stays(s, ret, i));
                }
            }
            if stays_id(s, ret, id) {
                let i = choose|i: int| #[trigger] stays(s, ret, i) && s[i].id == id;
                assert(cand(i));
                assert(lists(c, i));
                let j = choose|j: int| 0 <= j < c.len() && #[trigger] c[j] == i;
                if elapsed(ret.now, s[i].created) <= ret.windows.keep_all.ns {
                    assert(k0.contains(id));
                }
            }
        }
    }
    let mut out: Vec<u64> = Vec::new();
    let ghost mut p = Seq::<usize>::empty();
    let ghost gone = |i: int| goes(s, ret, i);
    let mut k: usize = 0;
    while k < cands.len()
        invariant
            k <= c.len(),
            c == cands@,
            s == snaps@,
            cand == (|i: int| candidate(s, ret, i)),
            gone == (|i: int| goes(s, ret, i)),
            in_time_order(s, c, s.len() as int, cand),
            forall|id: u64| #[trigger] keep@.contains(id) <==> stays_id(s, ret, id),
            out@ == ids_at(s, p),
            forall|z: int|
                0 <= z < p.len() ==> gone(#[trigger] p[z] as int) && exists|j: int|
                    0 <= j < k && #[trigger] c[j] == p[z],
            forall|j: int| 0 <= j < k && gone(#[trigger] c[j] as int) ==> p.contains(c[j]),
            forall|y: int, z: int|
                0 <= y < z < p.len() ==> precedes(
                    s,
                    #[trigger] p[y] as int,
                    #[trigger] p[z] as int,
                ),
        decreases c.len() - k,
    {
        assert(cand(c[k as int] as int));
        let at: usize = cands[k];
        let id: u64 = snaps[at].id;
        if !has_id(&keep, id) {
            let ghost before = p;
            proof {
                p = p.push(at);
                assert(gone(at as int));
                assert forall|y: int, z: int| 0 <= y < z < p.len() implies precedes(
                    s,
                    #[trigger] p[y] as int,
                    #[trigger] p[z] as int,
                ) by {
                    if z == before.len() {
                        let j = choose|j: int| 0 <= j < k && #[trigger] c[j] == before[y];
                        assert(c[k as int] == at);
                    }
                }
                assert forall|z: int| 0 <= z < p.len() implies gone(#[trigger] p[z] as int)
                    && exists|j: int| 0 <= j < k + 1 && #[trigger] c[j] == p[z] by {
                    if z < before.len() {
                        let j = choose|j: int| 0 <= j < k && #[trigger] c[j] == before[z];
                        assert(c[j] == p[z]);
                    } else {
                        assert(c[k as int] == p[z]);
                    }
                }
                assert forall|j: int|
                    0 <= j < k + 1 && gone(#[trigger] c[j] as int) implies p.contains(c[j]) by {
                    if j < k {
                        let z = before.index_of(c[j]);
                        assert(p[z] == c[j]);
                    } else {
                        assert(p[before.len() as int] == c[j]);
                    }
                }
            }
            out.push(id);
            assert(out@ =~= ids_at(s, p));
        } else {
            assert(!gone(at as int));
        }
        k += 1;
    }
    proof {
        assert forall|i: int| 0 <= i < s.len() && #[trigger] gone(i) implies lists(p, i) by {
            assert(cand(i));
            assert(lists(c, i));
            let j = choose|j: int| 0 <= j < c.len() && #[trigger] c[j] == i;
            assert(gone(c[j] as int));
            let z = p.index_of(c[j]);
            assert(p[z] == i);
        }
        assert forall|z: int| 0 <= z < p.len() implies 0 <= #[trigger] p[z] < s.len() && gone(
            p[z] as int,
        ) by {}
        assert(in_time_order(s, p, s.len() as int, gone));
    }
    out
}

/// Collapse: everything policy may delete except the newest snapshot, in the order given.
pub fn collapse_deletions(
    snaps: &Vec<SnapshotMeta>,
    now: Timestamp,
    safety_ttl: Duration,
    frozen: Option<&Frozen>,
) -> (r: Vec<u64>)
    ensures
        r@ == collapsed_ids(snaps@, snaps@.len() as int, now, safety_ttl, frozen is Some),
{
    if frozen.is_some() {
        proof {
            lemma_collapse_frozen(snaps@, snaps@.len() as int, now, safety_ttl);
        }
        return Vec::new();
    }
    let newest_id: Option<u64> = match newest(snaps) {
        Some(m) => Some(m.id),
        None => None,
    };
    let mut out: Vec<u64> = Vec::new();
    let mut i: usize = 0;
    while i < snaps.len()
        invariant
            i <= snaps@.len(),
            newest_index(snaps@) is None ==> newest_id is None,
            newest_index(snaps@) is Some ==> newest_id == Some(
                snaps@[newest_index(snaps@)->0].id,
            ),
            out@ == collapsed_ids(snaps@, i as int, now, safety_ttl, false),
        decreases snaps@.len() - i,
    {
        let m = &snaps[i];
        let is_newest_id = match newest_id {
            Some(id) => id == m.id,
            None => false,
        };
        if !is_newest_id && policy_deletable(m, now, safety_ttl, None, false) {
            out.push(m.id);
        }
        i += 1;
    }
    out
}

/// Whether collapse deletes the snapshot at position `i`.
pub open spec fn collapses(
    s: Seq<SnapshotMeta>,
    i: int,
    now: Timestamp,
    safety_ttl: Duration,
    frozen: bool,
) -> bool {
    &&& !frozen
    &&& newest_index(s) is Some ==> s[i].id != s[newest_index(s)->0].id
    &&& deletable(s[i], now, safety_ttl, None, false)
}

/// The ids that collapse deletes among the first `n` snapshots.
pub open spec fn collapsed_ids(
    s: Seq<SnapshotMeta>,
    n: int,
    now: Timestamp,
    safety_ttl: Duration,
    frozen: bool,
) -> Seq<u64>
    decreases n,
{
    if n <= 0 {
        Seq::empty()
    } else {
        let rest = collapsed_ids(s, n - 1, now, safety_ttl, frozen);
        if collapses(s, n - 1, now, safety_ttl, frozen) {
            rest.push(s[n - 1].id)
        } else {
            rest
        }
    }
}

proof fn lemma_collapse_frozen(s: Seq<SnapshotMeta>, n: int, now: Timestamp, safety_ttl: Duration)
    ensures
        collapsed_ids(s, n, now, safety_ttl, true) == Seq::<u64>::empty(),
    decreases n,
{
    if n > 0 {
        lemma_collapse_frozen(s, n - 1, now, safety_ttl);
    }
}

/// A snapshot that nothing protects: not the newest, not held, of no kind that is kept, such as
/// the manual, imported and received ones, and of a safety kind only after its time.
pub open spec fn unprotected(s: Seq<SnapshotMeta>, i: int, now: Timestamp, ttl: Duration) -> bool {
    &&& !is_newest(s, i)
    &&& !s[i].hold
    &&& class_of(s[i].kind) != KindClass::Keep
    &&& s[i].kind != SnapshotKind::Manual
    &&& s[i].kind != SnapshotKind::Import
    &&& s[i].kind != SnapshotKind::Received
    &&& class_of(s[i].kind) == KindClass::Safety ==> elapsed(now, s[i].created) > ttl.ns
}

/// Neither retention nor collapse lets a protected snapshot go, and retention lets none go that
/// is recent enough to keep them all.
pub proof fn law_protected_snapshots_stay(s: Seq<SnapshotMeta>, ret: Retention, i: int, frozen: bool)
    requires
        0 <= i < s.len(),
    ensures
        goes(s, ret, i) ==> unprotected(s, i, ret.now, ret.windows.safety_ttl),
        goes(s, ret, i) ==> elapsed(ret.now, s[i].created) > ret.windows.keep_all.ns,
        collapses(s, i, ret.now, ret.windows.safety_ttl, frozen) ==> unprotected(
            s,
            i,
            ret.now,
            ret.windows.safety_ttl,
        ),
{
    if is_newest(s, i) {
        let n = newest_index(s)->0;
        assert(is_newest(s, n));
        crate::store::lemma_newest_unique(s, i, n);
    }
    if elapsed(ret.now, s[i].created) <= ret.windows.keep_all.ns && goes(s, ret, i) {
        assert(stays(s, ret, i));
    }
}

/// While a project is frozen, retention lets nothing go that was there when it froze, and
/// nothing at all where thinning after a freeze is off; collapse deletes nothing.
pub proof fn law_frozen_protects(s: Seq<SnapshotMeta>, ret: Retention, i: int, ttl: Duration)
    requires
        ret.frozen is Some,
    ensures
        goes(s, ret, i) ==> ret.thin_after_freeze && s[i].created.ns > ret.frozen->0.since.ns,
        collapsed_ids(s, s.len() as int, ret.now, ttl, true) == Seq::<u64>::empty(),
{
    lemma_collapse_frozen(s, s.len() as int, ret.now, ttl);
}

/// Collapse leaves exactly the newest snapshot and those that policy may not delete.
pub proof fn law_collapse_exact(
    s: Seq<SnapshotMeta>,
    n: int,
    now: Timestamp,
    ttl: Duration,
    frozen: bool,
    id: u64,
)
    requires
        0 <= n <= s.len(),
    ensures
        collapsed_ids(s, n, now, ttl, frozen).contains(id) <==> exists|i: int|
            0 <= i < n && #[trigger] collapses(s, i, now, ttl, frozen) && s[i].id == id,
    decreases n,
{
    if n > 0 {
        law_collapse_exact(s, n - 1, now, ttl, frozen, id);
        let rest = collapsed_ids(s, n - 1, now, ttl, frozen);
        lemma_push_contains(rest, s[n - 1].id);
        if collapses(s, n - 1, now, ttl, frozen) {
            if s[n - 1].id == id {
                assert(collapses(s, n - 1, now, ttl, frozen));
            }
        }
    }
}

/// The position of an earliest candidate with the given bucket within a window, among the
/// first `n` positions.
proof fn lemma_earliest(
    s: Seq<SnapshotMeta>,
    ret: Retention,
    window: Duration,
    width: int,
    offset: int,
    n: int,
    i: int,
) -> (e: int)
    requires
        0 <= i < n <= s.len(),
        candidate(s, ret, i),
        elapsed(ret.now, s[i].created) <= window.ns,
    ensures
        0 <= e < n,
        candidate(s, ret, e),
        elapsed(ret.now, s[e].created) <= window.ns,
        bucket(s[e].created, width, offset) == bucket(s[i].created, width, offset),
        forall|j: int|
            0 <= j < n && #[trigger] candidate(s, ret, j) && elapsed(ret.now, s[j].created)
                <= window.ns && bucket(s[j].created, width, offset) == bucket(
                s[i].created,
                width,
                offset,
            ) ==> not_later(s[e], s[j]),
    decreases n,
{
    let b = bucket(s[i].created, width, offset);
    let l = n - 1;
    let fits = candidate(s, ret, l) && elapsed(ret.now, s[l].created) <= window.ns && bucket(
        s[l].created,
        width,
        offset,
    ) == b;
    if i < l {
        let e = lemma_earliest(s, ret, window, width, offset, l, i);
        if fits && earlier(s[l], s[e]) {
            l
        } else {
            e
        }
    } else {
        if exists|k: int|
            0 <= k < l && #[trigger] candidate(s, ret, k) && elapsed(ret.now, s[k].created)
                <= window.ns && bucket(s[k].created, width, offset) == b {
            let k = choose|k: int|
                0 <= k < l && #[trigger] candidate(s, ret, k) && elapsed(ret.now, s[k].created)
                    <= window.ns && bucket(s[k].created, width, offset) == b;
            let e = lemma_earliest(s, ret, window, width, offset, l, k);
            if earlier(s[l], s[e]) {
                l
            } else {
                e
            }
        } else {
            l
        }
    }
}

/// Every hour, day and week within its window that has a candidate keeps one: the oldest.
pub proof fn law_every_bucket_keeps_one(
    s: Seq<SnapshotMeta>,
    ret: Retention,
    window: Duration,
    width: int,
    offset: int,
    i: int,
)
    requires
        (window == ret.windows.hourly && width == HOUR && offset == 0) || (window
            == ret.windows.daily && width == DAY && offset == 0) || (window == ret.windows.weekly
            && width == WEEK && offset == WEEK_OFFSET),
        window.ns > 0,
        candidate(s, ret, i),
        elapsed(ret.now, s[i].created) <= window.ns,
    ensures
        exists|e: int|
            #[trigger] stays(s, ret, e) && represents(s, ret, e, window, width, offset) && bucket(
                s[e].created,
                width,
                offset,
            ) == bucket(s[i].created, width, offset),
{
    let e = lemma_earliest(s, ret, window, width, offset, s.len() as int, i);
    assert(represents(s, ret, e, window, width, offset));
    assert(stays(s, ret, e));
}

/// Thinning again at the same instant lets nothing more go: `t` is what thinning left of `s`.
pub proof fn law_thinning_is_idempotent(
    s: Seq<SnapshotMeta>,
    t: Seq<SnapshotMeta>,
    ret: Retention,
    j: int,
)
    requires
        forall|k: int|
            0 <= k < t.len() ==> exists|i: int|
                0 <= i < s.len() && s[i] == #[trigger] t[k] && !#[trigger] goes(s, ret, i),
        forall|i: int|
            0 <= i < s.len() && !#[trigger] goes(s, ret, i) ==> exists|k: int|
                0 <= k < t.len() && #[trigger] t[k] == s[i],
    ensures
        !goes(t, ret, j),
{
    if goes(t, ret, j) {
        let i = choose|i: int| 0 <= i < s.len() && s[i] == t[j] && !#[trigger] goes(s, ret, i);
        // the newest of both have the same id
        let ns = newest_index(s)->0;
        let nt = newest_index(t)->0;
        crate::store::lemma_newest(s);
        crate::store::lemma_newest(t);
        if goes(s, ret, ns) {
            law_protected_snapshots_stay(s, ret, ns, false);
        }
        let kn = choose|k: int| 0 <= k < t.len() && #[trigger] t[k] == s[ns];
        let ni = choose|i: int| 0 <= i < s.len() && s[i] == t[nt] && !#[trigger] goes(s, ret, i);
        assert(crate::store::as_new(t[nt], t[kn]));
        assert(crate::store::as_new(s[ns], s[ni]));
        assert(s[ns].id == t[nt].id);
        assert(candidate(s, ret, i));
        assert(stays_id(s, ret, s[i].id));
        let e = choose|e: int| #[trigger] stays(s, ret, e) && s[e].id == s[i].id;
        assert(!goes(s, ret, e)) by {
            assert(stays_id(s, ret, s[e].id));
        }
        let k = choose|k: int| 0 <= k < t.len() && #[trigger] t[k] == s[e];
        assert(candidate(t, ret, k));
        assert forall|z: int| #[trigger] candidate(t, ret, z) implies exists|y: int|
            candidate(s, ret, y) && s[y] == t[z] by {
            let y = choose|y: int| 0 <= y < s.len() && s[y] == t[z] && !#[trigger] goes(s, ret, y);
            assert(candidate(s, ret, y));
        }
        assert(stays(t, ret, k)) by {
            if represents(s, ret, e, ret.windows.hourly, HOUR as int, 0) {
                assert(represents(t, ret, k, ret.windows.hourly, HOUR as int, 0));
            }
            if represents(s, ret, e, ret.windows.daily, DAY as int, 0) {
                assert(represents(t, ret, k, ret.windows.daily, DAY as int, 0));
            }
            if represents(s, ret, e, ret.windows.weekly, WEEK as int, WEEK_OFFSET as int) {
                assert(represents(t, ret, k, ret.windows.weekly, WEEK as int, WEEK_OFFSET as int));
            }
        }
        assert(stays_id(t, ret, t[j].id));
    }
}

/// An instant lies before a second of the epoch, where fractions of seconds are cut towards the
/// epoch.
pub open spec fn before_second(t: Timestamp, m: int) -> bool {
    if m > 0 {
        t.ns < m * 1_000_000_000
    } else {
        t.ns <= (m - 1) * 1_000_000_000
    }
}

/// The seconds at which stretches of the given width begin.
pub open spec fn edge(k: int, width: int, offset: int) -> int {
    k * width + offset
}

/// A stretch begins between two instants: one of them lies before its first second, the other not.
pub open spec fn parted(a: Timestamp, b: Timestamp, width: int, offset: int) -> bool {
    exists|k: int|
        before_second(a, #[trigger] edge(k, width, offset)) != before_second(
            b,
            edge(k, width, offset),
        )
}

proof fn lemma_before_second(t: Timestamp, m: int)
    ensures
        before_second(t, m) <==> whole_seconds(t.ns as int) < m,
{
    let ns = t.ns as int;
    if ns >= 0 {
        vstd::arithmetic::div_mod::lemma_fundamental_div_mod(ns, 1_000_000_000);
    } else {
        vstd::arithmetic::div_mod::lemma_fundamental_div_mod(-ns, 1_000_000_000);
    }
}

proof fn lemma_bucket_begins(t: Timestamp, width: int, offset: int, k: int)
    requires
        width > 0,
    ensures
        before_second(t, edge(k, width, offset)) <==> bucket(t, width, offset) < k,
{
    let x = whole_seconds(t.ns as int) - offset;
    let q = x / width;
    lemma_before_second(t, edge(k, width, offset));
    vstd::arithmetic::div_mod::lemma_fundamental_div_mod(x, width);
    let m = x % width;
    assert(x == width * q + m && 0 <= m < width);
    assert(x < k * width <==> q < k) by (nonlinear_arith)
        requires
            x == width * q + m,
            0 <= m < width,
    ;
}

/// Two instants count as one stretch of time exactly where none begins between them: no multiple
/// of the width past the offset, in seconds, separates them.
pub proof fn law_stretches_end_at_their_edges(a: Timestamp, b: Timestamp, width: int, offset: int)
    requires
        width > 0,
    ensures
        bucket(a, width, offset) == bucket(b, width, offset) <==> !parted(a, b, width, offset),
{
    let x = bucket(a, width, offset);
    let y = bucket(b, width, offset);
    if x == y {
        if parted(a, b, width, offset) {
            let k = choose|k: int|
                before_second(a, #[trigger] edge(k, width, offset)) != before_second(
                    b,
                    edge(k, width, offset),
                );
            lemma_bucket_begins(a, width, offset, k);
            lemma_bucket_begins(b, width, offset, k);
        }
    } else {
        let k = if x < y {
            y
        } else {
            x
        };
        lemma_bucket_begins(a, width, offset, k);
        lemma_bucket_begins(b, width, offset, k);
        assert(before_second(a, edge(k, width, offset)) != before_second(
            b,
            edge(k, width, offset),
        ));
    }
}

/// No two snapshots have the same id.
pub open spec fn ids_differ(s: Seq<SnapshotMeta>) -> bool {
    forall|i: int, j: int|
        0 <= i < s.len() && 0 <= j < s.len() && i != j ==> (#[trigger] s[i]).id != (
        #[trigger] s[j]).id
}

/// Nothing forbids that a snapshot goes: a newer one is there, nobody holds it, and it was made
/// by the tool for the record or, longer ago than the time for safety, before a command that could
/// do damage. With a freeze it has to be younger than that, and thinning has to go on.
pub open spec fn unneeded(s: Seq<SnapshotMeta>, ret: Retention, i: int) -> bool {
    let m = s[i];
    &&& exists|j: int|
        0 <= j < s.len() && ((#[trigger] s[j]).snapshot_otransid > m.snapshot_otransid || (
        s[j].snapshot_otransid == m.snapshot_otransid && s[j].id > m.id))
    &&& !m.hold
    &&& m.kind == SnapshotKind::Auto || m.kind == SnapshotKind::Hook || m.kind
        == SnapshotKind::Collapse || m.kind == SnapshotKind::Adopt || ((m.kind == SnapshotKind::Pre
        || m.kind == SnapshotKind::Post || m.kind == SnapshotKind::Rollback || m.kind
        == SnapshotKind::PreRestore) && ret.now.ns - m.created.ns > ret.windows.safety_ttl.ns)
    &&& ret.frozen is Some ==> ret.thin_after_freeze && m.created.ns > ret.frozen->0.since.ns
}

/// Among the snapshots that may go and that a window reaches, the one at `i` is the first of its
/// stretch of time: whatever is older lies before the stretch.
pub open spec fn opens_stretch(
    s: Seq<SnapshotMeta>,
    ret: Retention,
    i: int,
    window: Duration,
    width: int,
    offset: int,
) -> bool {
    &&& window.ns > 0
    &&& ret.now.ns - s[i].created.ns <= window.ns
    &&& forall|j: int|
        0 <= j < s.len() && #[trigger] unneeded(s, ret, j) && ret.now.ns - s[j].created.ns
            <= window.ns && (s[j].created.ns < s[i].created.ns || (s[j].created.ns
            == s[i].created.ns && s[j].id < s[i].id)) ==> parted(
            s[j].created,
            s[i].created,
            width,
            offset,
        )
}

proof fn lemma_candidate_unneeded(s: Seq<SnapshotMeta>, ret: Retention, i: int)
    requires
        ids_differ(s),
        0 <= i < s.len(),
    ensures
        candidate(s, ret, i) <==> unneeded(s, ret, i),
{
    crate::store::lemma_newest(s);
    let n = newest_index(s)->0;
    assert(is_newest(s, n));
    assert(crate::store::as_new(s[n], s[i]));
    if unneeded(s, ret, i) && n == i {
        let j = choose|j: int|
            0 <= j < s.len() && ((#[trigger] s[j]).snapshot_otransid > s[i].snapshot_otransid || (
            s[j].snapshot_otransid == s[i].snapshot_otransid && s[j].id > s[i].id));
        assert(crate::store::as_new(s[n], s[j]));
    }
    if n != i {
        assert(s[n].id != s[i].id);
    }
}

proof fn lemma_represents_opens(
    s: Seq<SnapshotMeta>,
    ret: Retention,
    i: int,
    window: Duration,
    width: int,
    offset: int,
)
    requires
        ids_differ(s),
        0 <= i < s.len(),
        unneeded(s, ret, i),
        width > 0,
    ensures
        represents(s, ret, i, window, width, offset) <==> opens_stretch(
            s,
            ret,
            i,
            window,
            width,
            offset,
        ),
{
    lemma_candidate_unneeded(s, ret, i);
    if represents(s, ret, i, window, width, offset) {
        assert forall|j: int|
            0 <= j < s.len() && #[trigger] unneeded(s, ret, j) && ret.now.ns - s[j].created.ns
                <= window.ns && (s[j].created.ns < s[i].created.ns || (s[j].created.ns
                == s[i].created.ns && s[j].id < s[i].id)) implies parted(
            s[j].created,
            s[i].created,
            width,
            offset,
        ) by {
            lemma_candidate_unneeded(s, ret, j);
            law_stretches_end_at_their_edges(s[j].created, s[i].created, width, offset);
        }
    }
    if opens_stretch(s, ret, i, window, width, offset) {
        assert forall|j: int|
            (#[trigger] candidate(s, ret, j) && elapsed(ret.now, s[j].created) <= window.ns
                && bucket(s[j].created, width, offset) == bucket(s[i].created, width, offset))
            implies not_later(s[i], s[j]) by {
            lemma_candidate_unneeded(s, ret, j);
            law_stretches_end_at_their_edges(s[j].created, s[i].created, width, offset);
        }
    }
}

/// Retention lets exactly those snapshots go that nothing forbids to go, that are older than the
/// time in which all stay, and that are not the first of their hour, day or week, counted from
/// Monday, in UTC and within the window of each. The earlier ones come first.
pub proof fn law_retention_keeps_the_first_of_each_stretch(
    s: Seq<SnapshotMeta>,
    ret: Retention,
    ids: Seq<u64>,
    i: int,
)
    requires
        lets_go(s, ret, ids),
        ids_differ(s),
        0 <= i < s.len(),
    ensures
        ids.contains(s[i].id) <==> {
            &&& unneeded(s, ret, i)
            &&& ret.now.ns - s[i].created.ns > ret.windows.keep_all.ns
            &&& !opens_stretch(s, ret, i, ret.windows.hourly, 3_600, 0)
            &&& !opens_stretch(s, ret, i, ret.windows.daily, 86_400, 0)
            &&& !opens_stretch(s, ret, i, ret.windows.weekly, 604_800, 345_600)
        },
        forall|x: int, y: int, j: int|
            0 <= x < y < ids.len() && #[trigger] ids[x] == s[i].id && 0 <= j < s.len()
                && #[trigger] ids[y] == (#[trigger] s[j]).id ==> s[i].created.ns
                <= s[j].created.ns,
{
    let p = choose|p: Seq<usize>|
        #[trigger] ids_at(s, p) == ids && in_time_order(
            s,
            p,
            s.len() as int,
            |k: int| goes(s, ret, k),
        );
    let gone = |k: int| goes(s, ret, k);
    assert(in_time_order(s, p, s.len() as int, gone));
    if ids.contains(s[i].id) {
        let x = ids.index_of(s[i].id);
        assert(ids[x] == s[p[x] as int].id);
        assert(gone(p[x] as int));
        assert(p[x] == i);
    }
    if goes(s, ret, i) {
        assert(gone(i));
        assert(lists(p, i));
        let x = choose|x: int| 0 <= x < p.len() && #[trigger] p[x] == i;
        assert(ids[x] == s[i].id);
    }
    lemma_candidate_unneeded(s, ret, i);
    if unneeded(s, ret, i) {
        lemma_represents_opens(s, ret, i, ret.windows.hourly, 3_600, 0);
        lemma_represents_opens(s, ret, i, ret.windows.daily, 86_400, 0);
        lemma_represents_opens(s, ret, i, ret.windows.weekly, 604_800, 345_600);
        if stays_id(s, ret, s[i].id) {
            let e = choose|e: int| #[trigger] stays(s, ret, e) && s[e].id == s[i].id;
            assert(e == i);
        } else {
            assert(!stays(s, ret, i));
        }
    }
    assert forall|x: int, y: int, j: int|
        0 <= x < y < ids.len() && #[trigger] ids[x] == s[i].id && 0 <= j < s.len()
            && #[trigger] ids[y] == (#[trigger] s[j]).id implies s[i].created.ns
        <= s[j].created.ns by {
        assert(gone(p[x] as int) && gone(p[y] as int));
        assert(ids[x] == s[p[x] as int].id && ids[y] == s[p[y] as int].id);
        assert(p[x] == i && p[y] == j);
        assert(precedes(s, p[x] as int, p[y] as int));
    }
}

/// Collapse lets exactly those snapshots go that nothing forbids to go, and none of a frozen
/// project.
pub proof fn law_collapse_leaves_what_is_needed(
    s: Seq<SnapshotMeta>,
    windows: Windows,
    now: Timestamp,
    frozen: bool,
    i: int,
)
    requires
        ids_differ(s),
        0 <= i < s.len(),
    ensures
        collapsed_ids(s, s.len() as int, now, windows.safety_ttl, frozen).contains(s[i].id)
            <==> !frozen && unneeded(
            s,
            (Retention { now, windows, frozen: None, thin_after_freeze: false }),
            i,
        ),
{
    let ret = Retention { now, windows, frozen: None, thin_after_freeze: false };
    law_collapse_exact(s, s.len() as int, now, windows.safety_ttl, frozen, s[i].id);
    lemma_candidate_unneeded(s, ret, i);
    if exists|j: int|
        0 <= j < s.len() && #[trigger] collapses(s, j, now, windows.safety_ttl, frozen) && s[j].id
            == s[i].id {
        let j = choose|j: int|
            0 <= j < s.len() && #[trigger] collapses(s, j, now, windows.safety_ttl, frozen)
                && s[j].id == s[i].id;
        assert(i == j);
    }
    if candidate(s, ret, i) && !frozen {
        assert(collapses(s, i, now, windows.safety_ttl, frozen));
    }
}

/// What was recovered, imported or received is held and of a kind that stays: neither retention nor
/// a collapse ever deletes it, and released from its hold it still stays.
pub proof fn law_brought_in_snapshots_are_never_deleted(
    m: SnapshotMeta,
    now: Timestamp,
    safety_ttl: Duration,
    frozen: Option<&Frozen>,
    thin_after_freeze: bool,
)
    requires
        never_thinned(m),
    ensures
        !deletable(m, now, safety_ttl, frozen, thin_after_freeze),
        !deletable(
            SnapshotMeta { hold: false, ..m },
            now,
            safety_ttl,
            frozen,
            thin_after_freeze,
        ),
        m.hold,
{
}

} // verus!
