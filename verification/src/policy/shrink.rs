//! Shrink guard: detect that a project lost a large part of its content.
//!
//! The comparison is against a high-water mark since the last acknowledgement, so a series of
//! small deletions trips the guard once the cumulative loss crosses the threshold.

use vstd::prelude::*;

use crate::config::schema::ShrinkPolicy;
use crate::store::RefStats;
use crate::util::text::{cat2, cat3, cat5, dec_u64};
#[allow(unused_imports)]
use crate::util::text::{dec, texts};
use crate::util::walk::TreeStats;

verus! {

/// How one count compares with the reference where fractions come in, and the figures of the
/// messages.
pub struct Gauge {
    /// The files are down to the catastrophic fraction of the reference.
    pub catastrophic: bool,
    /// The lost fraction of the files is above the permitted one.
    pub files_over: bool,
    /// The lost fraction of the bytes is above the permitted one.
    pub bytes_over: bool,
    /// The lost files and bytes in percent.
    pub files_pct: String,
    pub bytes_pct: String,
    /// The bytes of the reference and of the new count, as people read them.
    pub bytes_before: String,
    pub bytes_after: String,
}

pub open spec fn lost(from: u64, to: u64) -> int {
    if from >= to {
        from - to
    } else {
        0
    }
}

/// What is said of the files, where too many are gone.
pub open spec fn files_reason(
    reference: RefStats,
    new: TreeStats,
    p: ShrinkPolicy,
    g: Gauge,
) -> Option<Seq<char>> {
    let rf = dec(reference.files as nat);
    if reference.files >= 10 && g.catastrophic {
        Some(
            "catastrophic: files "@ + rf + " -> "@ + dec(new.files as nat) + " (snapshot "@ + dec(
                reference.files_snap as nat,
            ) + " had "@ + rf + ")"@,
        )
    } else if g.files_over && lost(reference.files, new.files) >= p.min_files {
        Some(
            "files "@ + rf + " -> "@ + dec(new.files as nat) + " (-"@ + g.files_pct@
                + "%, high-water in snapshot "@ + dec(reference.files_snap as nat) + ")"@,
        )
    } else {
        None
    }
}

/// What is said of the bytes, where too many are gone.
pub open spec fn bytes_reason(
    reference: RefStats,
    new: TreeStats,
    p: ShrinkPolicy,
    g: Gauge,
) -> Option<Seq<char>> {
    if g.bytes_over && lost(reference.bytes, new.bytes) >= p.min_bytes {
        Some(
            "bytes "@ + g.bytes_before@ + " -> "@ + g.bytes_after@ + " (-"@ + g.bytes_pct@
                + "%, high-water in snapshot "@ + dec(reference.bytes_snap as nat) + ")"@,
        )
    } else {
        None
    }
}

/// A sentinel that was there and is gone.
pub open spec fn sentinel_lost(prev: TreeStats, new: TreeStats, s: Seq<char>) -> bool {
    prev.sentinels@.contains_key(s) && prev.sentinels@[s] && new.sentinels@.contains_key(s)
        && !new.sentinels@[s]
}

/// What is said of the sentinels that are gone.
pub open spec fn sentinel_reasons(
    prev: Option<&TreeStats>,
    new: TreeStats,
    sentinels: Seq<Seq<char>>,
) -> Seq<Seq<char>>
    decreases sentinels.len(),
{
    if sentinels.len() == 0 || prev is None {
        Seq::empty()
    } else {
        let rest = sentinel_reasons(prev, new, sentinels.drop_last());
        if sentinel_lost(*prev->0, new, sentinels.last()) {
            rest.push("sentinel "@ + sentinels.last() + " removed"@)
        } else {
            rest
        }
    }
}

pub open spec fn opt_seq(o: Option<Seq<char>>) -> Seq<Seq<char>> {
    match o {
        Some(x) => seq![x],
        None => seq![],
    }
}

/// Why the guard trips; it does not where there is no reason.
pub open spec fn reasons(
    reference: RefStats,
    prev: Option<&TreeStats>,
    new: TreeStats,
    p: ShrinkPolicy,
    sentinels: Seq<Seq<char>>,
    g: Gauge,
) -> Seq<Seq<char>> {
    if !p.enabled || !new.complete {
        Seq::empty()
    } else {
        opt_seq(files_reason(reference, new, p, g)) + opt_seq(bytes_reason(reference, new, p, g))
            + sentinel_reasons(prev, new, sentinels)
    }
}

fn lost_count(from: u64, to: u64) -> (r: u64)
    ensures
        r == lost(from, to),
{
    if from >= to {
        from - to
    } else {
        0
    }
}

/// Why the guard trips on `new`; it does not where there is no reason.
pub fn evaluate(
    reference: &RefStats,
    prev: Option<&TreeStats>,
    new: &TreeStats,
    p: &ShrinkPolicy,
    sentinels: &Vec<String>,
    g: &Gauge,
) -> (r: Vec<String>)
    ensures
        texts(r@) == reasons(*reference, prev, *new, *p, texts(sentinels@), *g),
{
    let mut out: Vec<String> = Vec::new();
    assert(texts(out@) =~= Seq::<Seq<char>>::empty());
    if !p.enabled || !new.complete {
        return out;
    }
    let rf = dec_u64(reference.files);
    let nf = dec_u64(new.files);
    if reference.files >= 10 && g.catastrophic {
        let mut m = cat5(
            "catastrophic: files ",
            rf.as_str(),
            " -> ",
            nf.as_str(),
            " (snapshot ",
        );
        m.append(dec_u64(reference.files_snap).as_str());
        m.append(" had ");
        m.append(rf.as_str());
        m.append(")");
        out.push(m);
    } else if g.files_over && lost_count(reference.files, new.files) >= p.min_files {
        let mut m = cat5("files ", rf.as_str(), " -> ", nf.as_str(), " (-");
        m.append(g.files_pct.as_str());
        m.append("%, high-water in snapshot ");
        m.append(dec_u64(reference.files_snap).as_str());
        m.append(")");
        out.push(m);
    }
    assert(texts(out@) =~= opt_seq(files_reason(*reference, *new, *p, *g)));
    let ghost first = texts(out@);
    if g.bytes_over && lost_count(reference.bytes, new.bytes) >= p.min_bytes {
        let mut m = cat5(
            "bytes ",
            g.bytes_before.as_str(),
            " -> ",
            g.bytes_after.as_str(),
            " (-",
        );
        m.append(g.bytes_pct.as_str());
        m.append("%, high-water in snapshot ");
        m.append(dec_u64(reference.bytes_snap).as_str());
        m.append(")");
        out.push(m);
    }
    assert(texts(out@) =~= first + opt_seq(bytes_reason(*reference, *new, *p, *g)));
    let ghost second = texts(out@);
    let ghost all = texts(sentinels@);
    if let Some(before) = prev {
        let mut i: usize = 0;
        assert(second =~= second + sentinel_reasons(prev, *new, all.take(0)));
        while i < sentinels.len()
            invariant
                i <= sentinels@.len(),
                all == texts(sentinels@),
                prev == Some(before),
                texts(out@) == second + sentinel_reasons(prev, *new, all.take(i as int)),
            decreases sentinels@.len() - i,
        {
            assert(all.take(i + 1).drop_last() =~= all.take(i as int));
            assert(all.take(i + 1).last() == sentinels@[i as int]@);
            let s = sentinels[i].as_str();
            let was = match before.sentinels.get(s) {
                Some(b) => *b,
                None => false,
            };
            let gone = match new.sentinels.get(s) {
                Some(b) => !*b,
                None => false,
            };
            if was && gone {
                let ghost o = texts(out@);
                let m = cat3("sentinel ", s, " removed");
                let ghost mv = m@;
                out.push(m);
                assert(texts(out@) =~= o.push(mv));
                assert(second + sentinel_reasons(prev, *new, all.take(i + 1)) =~= o.push(mv));
            }
            i += 1;
        }
        assert(all.take(all.len() as int) =~= all);
    }
    assert(texts(out@) =~= second + sentinel_reasons(prev, *new, all));
    out
}

/// The high-water mark after a complete count.
pub open spec fn raised(r: RefStats, new: TreeStats, new_id: u64) -> RefStats {
    if !new.complete {
        r
    } else {
        RefStats {
            files: if new.files >= r.files {
                new.files
            } else {
                r.files
            },
            files_snap: if new.files >= r.files {
                new_id
            } else {
                r.files_snap
            },
            bytes: if new.bytes >= r.bytes {
                new.bytes
            } else {
                r.bytes
            },
            bytes_snap: if new.bytes >= r.bytes {
                new_id
            } else {
                r.bytes_snap
            },
        }
    }
}

/// Raises the high-water mark to a complete count.
pub fn raise(reference: &mut RefStats, new: &TreeStats, new_id: u64)
    ensures
        *final(reference) == raised(*old(reference), *new, new_id),
{
    if !new.complete {
        return ;
    }
    if new.files >= reference.files {
        reference.files = new.files;
        reference.files_snap = new_id;
    }
    if new.bytes >= reference.bytes {
        reference.bytes = new.bytes;
        reference.bytes_snap = new_id;
    }
}

/// The high-water mark that a count starts.
pub open spec fn mark_of(new: TreeStats, new_id: u64) -> RefStats {
    RefStats { files: new.files, files_snap: new_id, bytes: new.bytes, bytes_snap: new_id }
}

/// The high-water mark that a count starts.
pub fn reset(new: &TreeStats, new_id: u64) -> (r: RefStats)
    ensures
        r == mark_of(*new, new_id),
{
    RefStats { files: new.files, files_snap: new_id, bytes: new.bytes, bytes_snap: new_id }
}

/// The high-water mark after a series of counts, each with the id of its snapshot.
pub open spec fn raised_by(r: RefStats, counts: Seq<(TreeStats, u64)>) -> RefStats
    decreases counts.len(),
{
    if counts.len() == 0 {
        r
    } else {
        raised(raised_by(r, counts.drop_last()), counts.last().0, counts.last().1)
    }
}

/// The complete count at `i` is the last that reached the number of files `n`: none after it had
/// as many.
pub open spec fn last_with_files(counts: Seq<(TreeStats, u64)>, i: int, n: u64) -> bool {
    &&& 0 <= i < counts.len()
    &&& counts[i].0.complete
    &&& counts[i].0.files == n
    &&& forall|j: int|
        i < j < counts.len() && (#[trigger] counts[j]).0.complete ==> counts[j].0.files < n
}

/// The complete count at `i` is the last that reached the number of bytes `n`: none after it had
/// as many.
pub open spec fn last_with_bytes(counts: Seq<(TreeStats, u64)>, i: int, n: u64) -> bool {
    &&& 0 <= i < counts.len()
    &&& counts[i].0.complete
    &&& counts[i].0.bytes == n
    &&& forall|j: int|
        i < j < counts.len() && (#[trigger] counts[j]).0.complete ==> counts[j].0.bytes < n
}

/// No complete count had as many files as the mark.
pub open spec fn files_below(counts: Seq<(TreeStats, u64)>, r: RefStats) -> bool {
    forall|i: int|
        0 <= i < counts.len() && (#[trigger] counts[i]).0.complete ==> counts[i].0.files < r.files
}

/// No complete count had as many bytes as the mark.
pub open spec fn bytes_below(counts: Seq<(TreeStats, u64)>, r: RefStats) -> bool {
    forall|i: int|
        0 <= i < counts.len() && (#[trigger] counts[i]).0.complete ==> counts[i].0.bytes < r.bytes
}

/// The mark never goes down, and stays at the highest of all complete counts: what is lost in
/// small steps is compared with what there once was. Of files and of bytes alike, the mark is
/// what it was before, with its snapshot, where no complete count reached it; else it is that of a
/// complete count, and names the snapshot of the last one that reached it.
pub proof fn law_losses_add_up(r: RefStats, counts: Seq<(TreeStats, u64)>)
    ensures
        raised_by(r, counts).files >= r.files,
        raised_by(r, counts).bytes >= r.bytes,
        forall|i: int|
            0 <= i < counts.len() && (#[trigger] counts[i]).0.complete ==> raised_by(r, counts).files
                >= counts[i].0.files && raised_by(r, counts).bytes >= counts[i].0.bytes,
        if files_below(counts, r) {
            raised_by(r, counts).files == r.files && raised_by(r, counts).files_snap == r.files_snap
        } else {
            exists|i: int| #[trigger]
                last_with_files(counts, i, raised_by(r, counts).files) && raised_by(
                    r,
                    counts,
                ).files_snap == counts[i].1
        },
        if bytes_below(counts, r) {
            raised_by(r, counts).bytes == r.bytes && raised_by(r, counts).bytes_snap == r.bytes_snap
        } else {
            exists|i: int| #[trigger]
                last_with_bytes(counts, i, raised_by(r, counts).bytes) && raised_by(
                    r,
                    counts,
                ).bytes_snap == counts[i].1
        },
    decreases counts.len(),
{
    if counts.len() > 0 {
        let rest = counts.drop_last();
        let last = counts.len() - 1;
        let before = raised_by(r, rest);
        let m = raised_by(r, counts);
        law_losses_add_up(r, rest);
        assert(counts[last] == counts.last());
        assert(forall|i: int| 0 <= i < last ==> #[trigger] rest[i] == counts[i]);
        assert forall|i: int|
            0 <= i < counts.len() && (#[trigger] counts[i]).0.complete implies m.files
            >= counts[i].0.files && m.bytes >= counts[i].0.bytes by {
            if i < last {
                assert(rest[i] == counts[i]);
            }
        }
        let reached = counts[last].0.complete && counts[last].0.files >= before.files;
        if reached {
            assert(!files_below(counts, r));
            assert(last_with_files(counts, last, m.files));
        } else if files_below(rest, r) {
            assert forall|i: int|
                0 <= i < counts.len() && (#[trigger] counts[i]).0.complete implies counts[i].0.files
                < r.files by {
                if i < last {
                    assert(rest[i] == counts[i]);
                }
            }
        } else {
            let i = choose|i: int| #[trigger]
                last_with_files(rest, i, before.files) && before.files_snap == rest[i].1;
            assert(counts[i] == rest[i]);
            assert forall|j: int|
                i < j < counts.len() && (#[trigger] counts[j]).0.complete implies counts[j].0.files
                < before.files by {
                if j < last {
                    assert(rest[j] == counts[j]);
                }
            }
            assert(last_with_files(counts, i, m.files));
            let k = choose|k: int|
                0 <= k < rest.len() && (#[trigger] rest[k]).0.complete && rest[k].0.files
                    >= r.files;
            assert(counts[k] == rest[k]);
        }
        let reached = counts[last].0.complete && counts[last].0.bytes >= before.bytes;
        if reached {
            assert(!bytes_below(counts, r));
            assert(last_with_bytes(counts, last, m.bytes));
        } else if bytes_below(rest, r) {
            assert forall|i: int|
                0 <= i < counts.len() && (#[trigger] counts[i]).0.complete implies counts[i].0.bytes
                < r.bytes by {
                if i < last {
                    assert(rest[i] == counts[i]);
                }
            }
        } else {
            let i = choose|i: int| #[trigger]
                last_with_bytes(rest, i, before.bytes) && before.bytes_snap == rest[i].1;
            assert(counts[i] == rest[i]);
            assert forall|j: int|
                i < j < counts.len() && (#[trigger] counts[j]).0.complete implies counts[j].0.bytes
                < before.bytes by {
                if j < last {
                    assert(rest[j] == counts[j]);
                }
            }
            assert(last_with_bytes(counts, i, m.bytes));
            let k = choose|k: int|
                0 <= k < rest.len() && (#[trigger] rest[k]).0.complete && rest[k].0.bytes
                    >= r.bytes;
            assert(counts[k] == rest[k]);
        }
    }
}

/// A count that is incomplete, or a guard that is switched off, never trips.
pub proof fn law_no_trip_without_a_full_count(
    reference: RefStats,
    prev: Option<&TreeStats>,
    new: TreeStats,
    p: ShrinkPolicy,
    sentinels: Seq<Seq<char>>,
    g: Gauge,
)
    requires
        !p.enabled || !new.complete,
    ensures
        reasons(reference, prev, new, p, sentinels, g).len() == 0,
{
}

/// Each loss trips the guard alone: with the guard on and a complete count there is a reason
/// exactly where the files are down to the catastrophic fraction of ten or more, or too large a
/// part of them and at least the smallest number that counts are gone, or the same holds of the
/// bytes, whatever became of the files, or a sentinel that was there is not. Without the guard or
/// a complete count there is none.
pub proof fn law_each_loss_trips_alone(
    reference: RefStats,
    prev: Option<&TreeStats>,
    new: TreeStats,
    p: ShrinkPolicy,
    sentinels: Seq<Seq<char>>,
    g: Gauge,
)
    ensures
        reasons(reference, prev, new, p, sentinels, g).len() > 0 <==> p.enabled && new.complete && {
            ||| reference.files >= 10 && g.catastrophic
            ||| g.files_over && (reference.files - new.files >= p.min_files || p.min_files == 0)
            ||| g.bytes_over && (reference.bytes - new.bytes >= p.min_bytes || p.min_bytes == 0)
            ||| prev is Some && exists|i: int|
                0 <= i < sentinels.len() && prev->0.sentinels@.contains_key(
                    #[trigger] sentinels[i],
                ) && prev->0.sentinels@[sentinels[i]] && new.sentinels@.contains_key(sentinels[i])
                    && !new.sentinels@[sentinels[i]]
        },
{
    if prev is Some {
        lemma_some_sentinel_lost(*prev->0, new, sentinels);
    }
}

/// There is something to say of the sentinels where one is lost.
proof fn lemma_some_sentinel_lost(prev: TreeStats, new: TreeStats, sentinels: Seq<Seq<char>>)
    ensures
        sentinel_reasons(Some(&prev), new, sentinels).len() > 0 <==> exists|i: int|
            0 <= i < sentinels.len() && prev.sentinels@.contains_key(#[trigger] sentinels[i])
                && prev.sentinels@[sentinels[i]] && new.sentinels@.contains_key(sentinels[i])
                && !new.sentinels@[sentinels[i]],
    decreases sentinels.len(),
{
    if sentinels.len() > 0 {
        let rest = sentinels.drop_last();
        lemma_some_sentinel_lost(prev, new, rest);
        let l = sentinels.len() - 1;
        assert(forall|i: int| 0 <= i < l ==> #[trigger] rest[i] == sentinels[i]);
        if exists|i: int|
            0 <= i < rest.len() && prev.sentinels@.contains_key(#[trigger] rest[i])
                && prev.sentinels@[rest[i]] && new.sentinels@.contains_key(rest[i])
                && !new.sentinels@[rest[i]] {
            let i = choose|i: int|
                0 <= i < rest.len() && prev.sentinels@.contains_key(#[trigger] rest[i])
                    && prev.sentinels@[rest[i]] && new.sentinels@.contains_key(rest[i])
                    && !new.sentinels@[rest[i]];
            assert(sentinels[i] == rest[i]);
        }
        assert(sentinels[l] == sentinels.last());
        if exists|i: int|
            0 <= i < sentinels.len() && prev.sentinels@.contains_key(#[trigger] sentinels[i])
                && prev.sentinels@[sentinels[i]] && new.sentinels@.contains_key(sentinels[i])
                && !new.sentinels@[sentinels[i]] {
            let i = choose|i: int|
                0 <= i < sentinels.len() && prev.sentinels@.contains_key(#[trigger] sentinels[i])
                    && prev.sentinels@[sentinels[i]] && new.sentinels@.contains_key(sentinels[i])
                    && !new.sentinels@[sentinels[i]];
            if i < l {
                assert(rest[i] == sentinels[i]);
            }
        }
    }
}

/// Every loss is named once: without sentinels there is one reason for lost files and one for lost
/// bytes, and each further sentinel adds one exactly where it was there and is not.
pub proof fn law_every_loss_is_named(
    reference: RefStats,
    prev: &TreeStats,
    new: TreeStats,
    p: ShrinkPolicy,
    sentinels: Seq<Seq<char>>,
    s: Seq<char>,
    g: Gauge,
)
    requires
        p.enabled,
        new.complete,
    ensures
        reasons(reference, Some(prev), new, p, Seq::empty(), g).len() == (if (reference.files >= 10
            && g.catastrophic) || (g.files_over && (reference.files - new.files >= p.min_files
            || p.min_files == 0)) {
            1int
        } else {
            0
        }) + (if g.bytes_over && (reference.bytes - new.bytes >= p.min_bytes || p.min_bytes == 0) {
            1int
        } else {
            0
        }),
        ({
            let less = reasons(reference, Some(prev), new, p, sentinels, g);
            let more = reasons(reference, Some(prev), new, p, sentinels.push(s), g);
            if prev.sentinels@.contains_key(s) && prev.sentinels@[s] && new.sentinels@.contains_key(
                s,
            ) && !new.sentinels@[s] {
                more == less.push("sentinel "@ + s + " removed"@)
            } else {
                more == less
            }
        }),
{
    let all = sentinels.push(s);
    assert(all.drop_last() =~= sentinels);
    assert(all.last() == s);
    let head = opt_seq(files_reason(reference, new, p, g)) + opt_seq(
        bytes_reason(reference, new, p, g),
    );
    assert(head + sentinel_reasons(Some(prev), new, sentinels).push(
        "sentinel "@ + s + " removed"@,
    ) =~= (head + sentinel_reasons(Some(prev), new, sentinels)).push(
        "sentinel "@ + s + " removed"@,
    ));
}

/// A mark is the most that any complete count showed: it never falls, no complete count is above
/// it, and it names the snapshot that it is from, the later one of equals. Counts that are not
/// complete leave it alone.
pub proof fn law_marks_are_the_most_that_was_counted(r: RefStats, new: TreeStats, id: u64)
    ensures
        ({
            let m = raised(r, new, id);
            &&& !new.complete ==> m == r
            &&& m.files >= r.files && m.bytes >= r.bytes
            &&& new.complete ==> m.files >= new.files && m.bytes >= new.bytes
            &&& m.files == r.files || m.files == new.files
            &&& m.bytes == r.bytes || m.bytes == new.bytes
            &&& new.complete && new.files >= r.files ==> m.files_snap == id
            &&& new.complete && new.bytes >= r.bytes ==> m.bytes_snap == id
            &&& new.files < r.files ==> m.files_snap == r.files_snap
            &&& new.bytes < r.bytes ==> m.bytes_snap == r.bytes_snap
        }),
{
}

} // verus!
