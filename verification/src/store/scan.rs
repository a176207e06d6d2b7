//! What the entries of a project's directory in the store are.

use vstd::prelude::*;

use crate::store::{ProjectRecord, SnapshotMeta, Unit};
#[allow(unused_imports)]
use crate::store::snapshot_place;
use crate::util::text::{ends_with, parse_u64, str_lt, trim_end_matches};
#[allow(unused_imports)]
use crate::util::text::{
    dec, ends, is_digit, law_number_round_trip, lemma_dec_digits, lemma_last_or_before,
    lemma_lt_irreflexive, lemma_lt_total, lemma_lt_transitive, parsed, strip_all, text_lt, texts,
};

verus! {

/// What the name of an entry says.
#[derive(Clone, Copy, Debug, PartialEq, Eq, Structural)]
pub enum EntryClass {
    /// A snapshot that was being made.
    Tmp,
    /// A snapshot.
    Id(u64),
    Other,
}

/// What the name of an entry says: a number with the ending of things being made, a number, or
/// neither.
pub open spec fn class_of_name(name: Seq<char>) -> EntryClass {
    if ends(name, ".tmp"@) && parsed(strip_all(name, ".tmp"@), u64::MAX as nat) is Some {
        EntryClass::Tmp
    } else {
        match parsed(name, u64::MAX as nat) {
            Some(n) => EntryClass::Id(n as u64),
            None => EntryClass::Other,
        }
    }
}

/// What the name of an entry says.
pub fn classify(name: &str) -> (r: EntryClass)
    ensures
        r == class_of_name(name@),
{
    proof {
        reveal_strlit(".tmp");
    }
    if ends_with(name, ".tmp") && parse_u64(trim_end_matches(name, ".tmp").as_str()).is_some() {
        return EntryClass::Tmp;
    }
    match parse_u64(name) {
        Some(n) => EntryClass::Id(n),
        None => EntryClass::Other,
    }
}

/// One entry, with what was found below it where its name is an id.
pub struct ScanEntry {
    pub name: String,
    pub path: String,
    /// The snapshot itself is there.
    pub has_snapshot: bool,
    /// The record, where it is there and readable.
    pub meta: Option<SnapshotMeta>,
}

/// What a scan of a unit directory found.
pub struct Scan {
    pub snapshots: Vec<SnapshotMeta>,
    /// The snapshot is there but its record is missing or unreadable.
    pub without_meta: Vec<(u64, String)>,
    /// The record is there but the snapshot is gone.
    pub without_snapshot: Vec<u64>,
    /// Leftovers of snapshots that were being made.
    pub tmp_dirs: Vec<String>,
}

/// `m` put behind the snapshots whose id is not greater.
pub open spec fn insert_by_id(s: Seq<SnapshotMeta>, m: SnapshotMeta) -> Seq<SnapshotMeta>
    decreases s.len(),
{
    if s.len() == 0 || s.last().id <= m.id {
        s.push(m)
    } else {
        insert_by_id(s.drop_last(), m).push(s.last())
    }
}

/// The complete snapshots among the first `n` entries, by id.
pub open spec fn complete_upto(e: Seq<ScanEntry>, n: int) -> Seq<SnapshotMeta>
    decreases n,
{
    if n <= 0 {
        Seq::empty()
    } else {
        let rest = complete_upto(e, n - 1);
        let x = e[n - 1];
        if class_of_name(x.name@) is Id && x.has_snapshot && x.meta is Some {
            insert_by_id(rest, x.meta->0)
        } else {
            rest
        }
    }
}

/// The snapshots without a record among the first `n` entries, by id: their ids.
pub open spec fn without_meta_upto(e: Seq<ScanEntry>, n: int) -> Seq<u64>
    decreases n,
{
    if n <= 0 {
        Seq::empty()
    } else {
        let rest = without_meta_upto(e, n - 1);
        let x = e[n - 1];
        if class_of_name(x.name@) is Id && x.has_snapshot && x.meta is None {
            insert_number(rest, class_of_name(x.name@)->Id_0)
        } else {
            rest
        }
    }
}

pub open spec fn insert_number(s: Seq<u64>, m: u64) -> Seq<u64>
    decreases s.len(),
{
    if s.len() == 0 || s.last() <= m {
        s.push(m)
    } else {
        insert_number(s.drop_last(), m).push(s.last())
    }
}

/// The records without a snapshot among the first `n` entries, in the order of the entries.
pub open spec fn without_snapshot_upto(e: Seq<ScanEntry>, n: int) -> Seq<u64>
    decreases n,
{
    if n <= 0 {
        Seq::empty()
    } else {
        let rest = without_snapshot_upto(e, n - 1);
        let x = e[n - 1];
        if class_of_name(x.name@) is Id && !x.has_snapshot && x.meta is Some {
            rest.push(class_of_name(x.name@)->Id_0)
        } else {
            rest
        }
    }
}

/// The paths of the entries being made among the first `n`.
pub open spec fn tmp_upto(e: Seq<ScanEntry>, n: int) -> Seq<Seq<char>>
    decreases n,
{
    if n <= 0 {
        Seq::empty()
    } else {
        let rest = tmp_upto(e, n - 1);
        if class_of_name(e[n - 1].name@) is Tmp {
            rest.push(e[n - 1].path@)
        } else {
            rest
        }
    }
}

pub open spec fn first_numbers(v: Seq<(u64, String)>) -> Seq<u64> {
    Seq::new(v.len(), |i: int| v[i].0)
}

fn insert_meta(v: &mut Vec<SnapshotMeta>, m: SnapshotMeta)
    ensures
        final(v)@ == insert_by_id(old(v)@, m),
{
    let ghost s = v@;
    let mut k: usize = v.len();
    let ghost mut tail = Seq::<SnapshotMeta>::empty();
    assert(s.take(k as int) =~= s);
    assert(insert_by_id(s, m) =~= insert_by_id(s.take(k as int), m) + tail);
    while k > 0 && v[k - 1].id > m.id
        invariant
            k <= s.len(),
            v@ == s,
            tail == s.skip(k as int),
            insert_by_id(s, m) == insert_by_id(s.take(k as int), m) + tail,
        decreases k,
    {
        proof {
            let t = s.take(k as int);
            assert(t.drop_last() =~= s.take(k - 1));
            let longer = s.skip(k - 1);
            assert(longer =~= seq![t.last()] + tail);
            assert(insert_by_id(t, m) + tail =~= insert_by_id(s.take(k - 1), m) + longer);
            tail = longer;
        }
        k -= 1;
    }
    v.insert(k, m);
    assert(s.take(k as int).push(m) + s.skip(k as int) =~= s.insert(k as int, m));
}

/// Sorts the entries of a unit directory into what they are.
pub fn scan(unit: &Unit, entries: Vec<ScanEntry>) -> (r: Scan)
    ensures
        r.snapshots@ == complete_upto(entries@, entries@.len() as int),
        first_numbers(r.without_meta@) == without_meta_upto(entries@, entries@.len() as int),
        forall|i: int|
            0 <= i < r.without_meta@.len() ==> (#[trigger] r.without_meta@[i]).1@ == snapshot_place(
                unit.dir@,
                r.without_meta@[i].0,
            ),
        r.without_snapshot@ == without_snapshot_upto(entries@, entries@.len() as int),
        texts(r.tmp_dirs@) == tmp_upto(entries@, entries@.len() as int),
{
    let ghost e = entries@;
    let mut rest = entries;
    let mut snapshots: Vec<SnapshotMeta> = Vec::new();
    let mut without_meta: Vec<(u64, String)> = Vec::new();
    let mut without_snapshot: Vec<u64> = Vec::new();
    let mut tmp_dirs: Vec<String> = Vec::new();
    let n: usize = rest.len();
    let mut i: usize = 0;
    assert(e.skip(0) =~= e);
    assert(first_numbers(without_meta@) =~= Seq::<u64>::empty());
    assert(texts(tmp_dirs@) =~= Seq::<Seq<char>>::empty());
    while i < n
        invariant
            i <= n,
            n == e.len(),
            rest@ == e.skip(i as int),
            snapshots@ == complete_upto(e, i as int),
            first_numbers(without_meta@) == without_meta_upto(e, i as int),
            forall|k: int|
                0 <= k < without_meta@.len() ==> (#[trigger] without_meta@[k]).1@ == snapshot_place(
                    unit.dir@,
                    without_meta@[k].0,
                ),
            without_snapshot@ == without_snapshot_upto(e, i as int),
            texts(tmp_dirs@) == tmp_upto(e, i as int),
        decreases n - i,
    {
        let x = rest.remove(0);
        assert(x == e[i as int]);
        assert(rest@ =~= e.skip(i + 1));
        match classify(x.name.as_str()) {
            EntryClass::Tmp => {
                let ghost before = texts(tmp_dirs@);
                let ghost p = x.path@;
                tmp_dirs.push(x.path);
                assert(texts(tmp_dirs@) =~= before.push(p));
            },
            EntryClass::Id(id) => {
                match x.meta {
                    Some(m) => if x.has_snapshot {
                        insert_meta(&mut snapshots, m);
                    } else {
                        without_snapshot.push(id);
                    },
                    None => if x.has_snapshot {
                        let p = unit.snapshot_path(id);
                        insert_place(&mut without_meta, id, p, Ghost(unit.dir@));
                    },
                }
            },
            EntryClass::Other => {},
        }
        i += 1;
    }
    Scan { snapshots, without_meta, without_snapshot, tmp_dirs }
}

fn insert_place(v: &mut Vec<(u64, String)>, id: u64, p: String, Ghost(dir): Ghost<Seq<char>>)
    requires
        p@ == snapshot_place(dir, id),
        forall|k: int|
            0 <= k < old(v)@.len() ==> (#[trigger] old(v)@[k]).1@ == snapshot_place(
                dir,
                old(v)@[k].0,
            ),
    ensures
        first_numbers(final(v)@) == insert_number(first_numbers(old(v)@), id),
        forall|k: int|
            0 <= k < final(v)@.len() ==> (#[trigger] final(v)@[k]).1@ == snapshot_place(
                dir,
                final(v)@[k].0,
            ),
{
    let ghost all = v@;
    let ghost s = first_numbers(v@);
    let mut k: usize = v.len();
    let ghost mut tail = Seq::<u64>::empty();
    assert(s.take(k as int) =~= s);
    assert(insert_number(s, id) =~= insert_number(s.take(k as int), id) + tail);
    while k > 0 && v[k - 1].0 > id
        invariant
            k <= s.len(),
            v@ == all,
            s == first_numbers(all),
            tail == s.skip(k as int),
            insert_number(s, id) == insert_number(s.take(k as int), id) + tail,
        decreases k,
    {
        proof {
            let t = s.take(k as int);
            assert(t.last() == all[k - 1].0);
            assert(t.drop_last() =~= s.take(k - 1));
            let longer = s.skip(k - 1);
            assert(longer =~= seq![t.last()] + tail);
            assert(insert_number(t, id) + tail =~= insert_number(s.take(k - 1), id) + longer);
            tail = longer;
        }
        k -= 1;
    }
    assert(k > 0 ==> s.take(k as int).last() == all[k - 1].0);
    v.insert(k, (id, p));
    assert(first_numbers(v@) =~= s.take(k as int).push(id) + s.skip(k as int));
}

/// The number that an entry of a unit directory takes up: that of a snapshot, made or being
/// made.
pub open spec fn taken_number(name: Seq<char>) -> Option<nat> {
    parsed(strip_all(name, ".tmp"@), u64::MAX as nat)
}

/// `n` is the highest number that any of the names takes up, or zero.
pub open spec fn highest(names: Seq<Seq<char>>, n: nat) -> bool {
    &&& forall|i: int|
        0 <= i < names.len() && taken_number(#[trigger] names[i]) is Some ==> taken_number(
            names[i],
        )->0 <= n
    &&& n == 0 || exists|i: int|
        0 <= i < names.len() && taken_number(#[trigger] names[i]) == Some(n)
}

/// Next id: one more than any id present (snapshots, records, those being made). There is none
/// behind the highest number.
pub fn next_id(names: &Vec<String>) -> (r: Option<u64>)
    ensures
        match r {
            Some(id) => id > 0 && highest(texts(names@), (id - 1) as nat),
            None => highest(texts(names@), u64::MAX as nat),
        },
{
    let ghost all = texts(names@);
    let mut max: u64 = 0;
    let mut i: usize = 0;
    while i < names.len()
        invariant
            i <= names@.len(),
            all == texts(names@),
            forall|k: int|
                0 <= k < i && taken_number(#[trigger] all[k]) is Some ==> taken_number(all[k])->0
                    <= max,
            max == 0 || exists|k: int|
                0 <= k < i && taken_number(#[trigger] all[k]) == Some(max as nat),
        decreases names@.len() - i,
    {
        proof {
            reveal_strlit(".tmp");
        }
        assert(all[i as int] == names@[i as int]@);
        if let Some(id) = parse_u64(trim_end_matches(names[i].as_str(), ".tmp").as_str()) {
            if id > max {
                max = id;
                assert(taken_number(all[i as int]) == Some(max as nat));
            }
        }
        i += 1;
    }
    if max == u64::MAX {
        None
    } else {
        Some(max + 1)
    }
}

/// A new id is that of no snapshot, made or being made.
pub proof fn law_next_id_is_fresh(names: Seq<Seq<char>>, id: u64, i: int)
    requires
        id > 0,
        highest(names, (id - 1) as nat),
        0 <= i < names.len(),
    ensures
        taken_number(names[i]) != Some(id as nat),
        class_of_name(names[i]) != EntryClass::Id(id),
{
    if class_of_name(names[i]) == EntryClass::Id(id) {
        // a plain number has no ending to take away
        lemma_number_has_no_ending(names[i]);
    }
}

proof fn lemma_number_has_no_ending(name: Seq<char>)
    requires
        parsed(name, u64::MAX as nat) is Some,
    ensures
        strip_all(name, ".tmp"@) == name,
{
    reveal_strlit(".tmp");
    if ends(name, ".tmp"@) {
        let d = crate::util::text::unsigned_part(name);
        let t = name.skip(name.len() - 4);
        assert(t[3] == 'p');
        assert(name.last() == 'p');
        assert(d.last() == name.last());
        assert(crate::util::text::is_digit(d[d.len() - 1]));
    }
}

/// Sorts units by name.
pub fn sort_units(units: Vec<(Unit, ProjectRecord)>) -> (r: Vec<(Unit, ProjectRecord)>)
    ensures
        r@ == sorted_by_name(units@),
{
    let ghost all = units@;
    let mut rest = units;
    let mut out: Vec<(Unit, ProjectRecord)> = Vec::new();
    let n: usize = rest.len();
    let mut i: usize = 0;
    assert(all.skip(0) =~= all);
    assert(out@ =~= sorted_by_name(all.take(0)));
    while i < n
        invariant
            i <= n,
            n == all.len(),
            rest@ == all.skip(i as int),
            out@ == sorted_by_name(all.take(i as int)),
        decreases n - i,
    {
        let x = rest.remove(0);
        assert(rest@ =~= all.skip(i + 1));
        assert(all.take(i + 1).drop_last() =~= all.take(i as int));
        let ghost s = out@;
        let ghost m = x;
        let mut k: usize = out.len();
        let ghost mut tail = Seq::<(Unit, ProjectRecord)>::empty();
        assert(s.take(k as int) =~= s);
        assert(insert_by_name(s, m) =~= insert_by_name(s.take(k as int), m) + tail);
        while k > 0 && str_lt(x.0.name.as_str(), out[k - 1].0.name.as_str())
            invariant
                k <= s.len(),
                out@ == s,
                m == x,
                tail == s.skip(k as int),
                insert_by_name(s, m) == insert_by_name(s.take(k as int), m) + tail,
            decreases k,
        {
            proof {
                let t = s.take(k as int);
                assert(t.drop_last() =~= s.take(k - 1));
                let longer = s.skip(k - 1);
                assert(longer =~= seq![t.last()] + tail);
                assert(insert_by_name(t, m) + tail =~= insert_by_name(s.take(k - 1), m) + longer);
                tail = longer;
            }
            k -= 1;
        }
        out.insert(k, x);
        assert(s.take(k as int).push(m) + s.skip(k as int) =~= s.insert(k as int, m));
        i += 1;
    }
    assert(all.take(all.len() as int) =~= all);
    out
}

/// `m` put behind the units whose name does not sort after its own.
pub open spec fn insert_by_name(
    s: Seq<(Unit, ProjectRecord)>,
    m: (Unit, ProjectRecord),
) -> Seq<(Unit, ProjectRecord)>
    decreases s.len(),
{
    if s.len() == 0 || !text_lt(m.0.name@, s.last().0.name@) {
        s.push(m)
    } else {
        insert_by_name(s.drop_last(), m).push(s.last())
    }
}

/// The units by name.
pub open spec fn sorted_by_name(s: Seq<(Unit, ProjectRecord)>) -> Seq<(Unit, ProjectRecord)>
    decreases s.len(),
{
    if s.len() == 0 {
        Seq::empty()
    } else {
        insert_by_name(sorted_by_name(s.drop_last()), s.last())
    }
}

/// A number names a snapshot, and a number with the ending of things being made one that is not
/// finished; both take the number up.
pub proof fn law_numbers_name_snapshots(n: nat)
    requires
        n <= u64::MAX,
    ensures
        class_of_name(dec(n)) == EntryClass::Id(n as u64),
        class_of_name(dec(n) + ".tmp"@) == EntryClass::Tmp,
        taken_number(dec(n)) == Some(n),
        taken_number(dec(n) + ".tmp"@) == Some(n),
{
    reveal_strlit(".tmp");
    law_number_round_trip(n, u64::MAX as nat);
    lemma_dec_digits(n);
    let d = dec(n);
    let t = d + ".tmp"@;
    if ends(d, ".tmp"@) {
        assert(d.skip(d.len() - 4)[3] == 'p');
        assert(d[d.len() - 1] == 'p');
        assert(is_digit(d[d.len() - 1]));
    }
    assert(t.skip(t.len() - 4) =~= ".tmp"@);
    assert(t.take(t.len() - 4) =~= d);
    assert(strip_all(d, ".tmp"@) == d);
}

/// Entry `x` is a finished snapshot with the record `m`.
pub open spec fn is_complete(x: ScanEntry, m: SnapshotMeta) -> bool {
    class_of_name(x.name@) is Id && x.has_snapshot && x.meta == Some(m)
}

/// A scan finds each snapshot that is there with its record, and no other, in order of the ids.
pub proof fn law_scans_find_every_complete_snapshot(e: Seq<ScanEntry>, n: int, m: SnapshotMeta)
    requires
        0 <= n <= e.len(),
    ensures
        complete_upto(e, n).contains(m) <==> exists|i: int|
            0 <= i < n && is_complete(#[trigger] e[i], m),
        forall|j: int, k: int|
            0 <= j < k < complete_upto(e, n).len() ==> (#[trigger] complete_upto(e, n)[j]).id <= (
            #[trigger] complete_upto(e, n)[k]).id,
    decreases n,
{
    if n > 0 {
        law_scans_find_every_complete_snapshot(e, n - 1, m);
        let x = e[n - 1];
        let q = complete_upto(e, n - 1);
        if class_of_name(x.name@) is Id && x.has_snapshot && x.meta is Some {
            lemma_insert_by_id(q, x.meta->0, m);
        }
        if exists|i: int| 0 <= i < n - 1 && is_complete(#[trigger] e[i], m) {
            let i = choose|i: int| 0 <= i < n - 1 && is_complete(#[trigger] e[i], m);
            assert(0 <= i < n && is_complete(e[i], m));
        }
        if is_complete(x, m) {
            assert(0 <= n - 1 < n && is_complete(e[n - 1], m));
        }
        if exists|i: int| 0 <= i < n && is_complete(#[trigger] e[i], m) {
            let i = choose|i: int| 0 <= i < n && is_complete(#[trigger] e[i], m);
            if i < n - 1 {
                assert(0 <= i < n - 1 && is_complete(e[i], m));
            }
        }
    }
}

proof fn lemma_insert_by_id(s: Seq<SnapshotMeta>, m: SnapshotMeta, y: SnapshotMeta)
    requires
        forall|j: int, k: int| 0 <= j < k < s.len() ==> (#[trigger] s[j]).id <= (#[trigger] s[k]).id,
    ensures
        insert_by_id(s, m).contains(y) <==> s.contains(y) || y == m,
        forall|j: int, k: int|
            0 <= j < k < insert_by_id(s, m).len() ==> (#[trigger] insert_by_id(s, m)[j]).id <= (
            #[trigger] insert_by_id(s, m)[k]).id,
    decreases s.len(),
{
    let r = insert_by_id(s, m);
    if s.len() == 0 || s.last().id <= m.id {
        lemma_last_or_before(r, y);
        assert(r.drop_last() =~= s);
    } else {
        let t = s.drop_last();
        assert(forall|j: int| 0 <= j < t.len() ==> t[j] == s[j]);
        lemma_insert_by_id(t, m, y);
        lemma_last_or_before(r, y);
        lemma_last_or_before(s, y);
        let q = insert_by_id(t, m);
        assert(r.drop_last() =~= q);
        assert forall|j: int, k: int| 0 <= j < k < r.len() implies (#[trigger] r[j]).id <= (
        #[trigger] r[k]).id by {
            if k == q.len() {
                lemma_insert_by_id(t, m, q[j]);
                assert(q.contains(q[j]));
                if t.contains(q[j]) {
                    let i = choose|i: int| 0 <= i < t.len() && t[i] == q[j];
                    assert(s[i].id <= s[s.len() - 1].id);
                }
            }
        }
    }
}

/// A snapshot without a record is listed by its number, a record without a snapshot as well, and
/// what is being made by its place; each entry is listed once at most.
pub proof fn law_scans_list_what_is_not_complete(e: Seq<ScanEntry>, x: ScanEntry, id: u64)
    ensures
        ({
            let n = e.len() as int;
            let f = e.push(x);
            let class = class_of_name(x.name@);
            &&& class is Id && !x.has_snapshot && x.meta is Some
                ==> without_snapshot_upto(f, n + 1) == without_snapshot_upto(e, n).push(
                class->Id_0,
            )
            &&& !(class is Id && !x.has_snapshot && x.meta is Some) ==> without_snapshot_upto(
                f,
                n + 1,
            ) == without_snapshot_upto(e, n)
            &&& class is Tmp ==> tmp_upto(f, n + 1) == tmp_upto(e, n).push(x.path@)
            &&& class !is Tmp ==> tmp_upto(f, n + 1) == tmp_upto(e, n)
            &&& class is Id && x.has_snapshot && x.meta is None ==> (without_meta_upto(
                f,
                n + 1,
            ).contains(id) <==> without_meta_upto(e, n).contains(id) || id == class->Id_0)
            &&& !(class is Id && x.has_snapshot && x.meta is None) ==> without_meta_upto(f, n + 1)
                == without_meta_upto(e, n)
        }),
{
    let n = e.len() as int;
    lemma_scan_begins(e, e.push(x), n);
    lemma_insert_number(without_meta_upto(e, n), class_of_name(x.name@)->Id_0, id);
}

proof fn lemma_scan_begins(a: Seq<ScanEntry>, b: Seq<ScanEntry>, n: int)
    requires
        n <= a.len() <= b.len(),
        forall|i: int| 0 <= i < a.len() ==> #[trigger] a[i] == b[i],
    ensures
        without_snapshot_upto(a, n) == without_snapshot_upto(b, n),
        tmp_upto(a, n) == tmp_upto(b, n),
        without_meta_upto(a, n) == without_meta_upto(b, n),
    decreases n,
{
    if n > 0 {
        lemma_scan_begins(a, b, n - 1);
        assert(a[n - 1] == b[n - 1]);
    }
}

proof fn lemma_insert_number(s: Seq<u64>, m: u64, y: u64)
    ensures
        insert_number(s, m).contains(y) <==> s.contains(y) || y == m,
    decreases s.len(),
{
    let r = insert_number(s, m);
    lemma_last_or_before(r, y);
    if s.len() == 0 || s.last() <= m {
        assert(r.drop_last() =~= s);
    } else {
        lemma_insert_number(s.drop_last(), m, y);
        lemma_last_or_before(s, y);
        assert(r.drop_last() =~= insert_number(s.drop_last(), m));
    }
}

/// Units that are sorted are the same ones, in order of their names.
pub proof fn law_units_are_sorted_by_name(
    s: Seq<(Unit, ProjectRecord)>,
    u: (Unit, ProjectRecord),
)
    ensures
        sorted_by_name(s).len() == s.len(),
        sorted_by_name(s).contains(u) <==> s.contains(u),
        forall|j: int, k: int|
            0 <= j < k < s.len() ==> !text_lt(
                (#[trigger] sorted_by_name(s)[k]).0.name@,
                (#[trigger] sorted_by_name(s)[j]).0.name@,
            ),
    decreases s.len(),
{
    if s.len() > 0 {
        law_units_are_sorted_by_name(s.drop_last(), u);
        lemma_last_or_before(s, u);
        lemma_insert_by_name(sorted_by_name(s.drop_last()), s.last(), u);
    }
}

proof fn lemma_insert_by_name(
    s: Seq<(Unit, ProjectRecord)>,
    m: (Unit, ProjectRecord),
    y: (Unit, ProjectRecord),
)
    requires
        forall|j: int, k: int|
            0 <= j < k < s.len() ==> !text_lt((#[trigger] s[k]).0.name@, (#[trigger] s[j]).0.name@),
    ensures
        insert_by_name(s, m).len() == s.len() + 1,
        insert_by_name(s, m).contains(y) <==> s.contains(y) || y == m,
        forall|j: int, k: int|
            0 <= j < k < insert_by_name(s, m).len() ==> !text_lt(
                (#[trigger] insert_by_name(s, m)[k]).0.name@,
                (#[trigger] insert_by_name(s, m)[j]).0.name@,
            ),
    decreases s.len(),
{
    let r = insert_by_name(s, m);
    if s.len() == 0 || !text_lt(m.0.name@, s.last().0.name@) {
        lemma_last_or_before(r, y);
        assert(r.drop_last() =~= s);
        assert forall|j: int, k: int| 0 <= j < k < r.len() implies !text_lt(
            (#[trigger] r[k]).0.name@,
            (#[trigger] r[j]).0.name@,
        ) by {
            if k == s.len() {
                let z = s.last().0.name@;
                let a = r[j].0.name@;
                assert(j < s.len() - 1 ==> !text_lt(s[s.len() - 1].0.name@, s[j].0.name@));
                if text_lt(m.0.name@, a) {
                    lemma_lt_total(z, a);
                    if text_lt(a, z) {
                        lemma_lt_transitive(m.0.name@, a, z);
                    }
                }
            }
        }
    } else {
        let t = s.drop_last();
        assert(forall|j: int| 0 <= j < t.len() ==> t[j] == s[j]);
        lemma_insert_by_name(t, m, y);
        lemma_last_or_before(r, y);
        lemma_last_or_before(s, y);
        let q = insert_by_name(t, m);
        assert(r.drop_last() =~= q);
        assert forall|j: int, k: int| 0 <= j < k < r.len() implies !text_lt(
            (#[trigger] r[k]).0.name@,
            (#[trigger] r[j]).0.name@,
        ) by {
            if k == q.len() {
                lemma_insert_by_name(t, m, q[j]);
                assert(q.contains(q[j]));
                let z = s.last().0.name@;
                if t.contains(q[j]) {
                    let i = choose|i: int| 0 <= i < t.len() && t[i] == q[j];
                    assert(!text_lt(s[s.len() - 1].0.name@, s[i].0.name@));
                } else {
                    if text_lt(z, m.0.name@) {
                        lemma_lt_transitive(z, m.0.name@, z);
                        lemma_lt_irreflexive(z);
                    }
                }
            }
        }
    }
}

/// Snapshots without a record are listed in order of their numbers.
pub proof fn law_numbers_are_listed_in_order(e: Seq<ScanEntry>, n: int)
    requires
        0 <= n <= e.len(),
    ensures
        forall|j: int, k: int|
            0 <= j < k < without_meta_upto(e, n).len() ==> #[trigger] without_meta_upto(e, n)[j]
                <= #[trigger] without_meta_upto(e, n)[k],
    decreases n,
{
    if n > 0 {
        law_numbers_are_listed_in_order(e, n - 1);
        let x = e[n - 1];
        if class_of_name(x.name@) is Id && x.has_snapshot && x.meta is None {
            lemma_numbers_sorted(without_meta_upto(e, n - 1), class_of_name(x.name@)->Id_0);
        }
    }
}

proof fn lemma_numbers_sorted(s: Seq<u64>, m: u64)
    requires
        forall|j: int, k: int| 0 <= j < k < s.len() ==> #[trigger] s[j] <= #[trigger] s[k],
    ensures
        forall|j: int, k: int|
            0 <= j < k < insert_number(s, m).len() ==> #[trigger] insert_number(s, m)[j]
                <= #[trigger] insert_number(s, m)[k],
    decreases s.len(),
{
    if s.len() > 0 && s.last() > m {
        let t = s.drop_last();
        assert(forall|j: int| 0 <= j < t.len() ==> t[j] == s[j]);
        lemma_numbers_sorted(t, m);
        let q = insert_number(t, m);
        let r = insert_number(s, m);
        assert forall|j: int, k: int| 0 <= j < k < r.len() implies #[trigger] r[j]
            <= #[trigger] r[k] by {
            if k == q.len() {
                lemma_insert_number(t, m, q[j]);
                assert(q.contains(q[j]));
                if t.contains(q[j]) {
                    let i = choose|i: int| 0 <= i < t.len() && t[i] == q[j];
                    assert(s[i] <= s[s.len() - 1]);
                }
            }
        }
    }
}

} // verus!
