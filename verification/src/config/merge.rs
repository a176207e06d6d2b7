//! Layered merge of policy tables that remembers where each value came from.

use vstd::prelude::*;

use crate::config::value::{copy_value, find_name, Table, Value};
#[allow(unused_imports)]
use crate::config::value::{
    distinct, has_name, lemma_entry, lemma_push_entry, lemma_set_entry, model, overlaid, position,
    table_model, table_wf, wf, Model,
};
use crate::config::schema::{is_policy_key, Config, ProfileCfg};
#[allow(unused_imports)]
use crate::config::schema::policy_key;
use crate::util::strmap::StrMap;
#[allow(unused_imports)]
use crate::util::strmap::sorted_keys;
use crate::util::text::{cat3, list_has, trim_end_matches};
#[allow(unused_imports)]
use crate::util::text::{lemma_filter_kept, lemma_last_or_before, strip_all, texts};

verus! {

/// Whether `n` is the dotted name of a plain value inside `v`, where `prefix` names `v`.
pub open spec fn leaf_name(prefix: Seq<char>, v: Model, n: Seq<char>) -> bool
    decreases v,
{
    match v {
        Model::Table(t) => exists|k: Seq<char>|
            #[trigger] t.contains_key(k) && leaf_name(prefix + k + "."@, t[k], n),
        _ => n == strip_all(prefix, "."@),
    }
}

/// The origins after the plain values inside `v` have been noted as coming from `origin`.
pub open spec fn noted(
    old: Map<Seq<char>, String>,
    new: Map<Seq<char>, String>,
    prefix: Seq<char>,
    v: Model,
    origin: Seq<char>,
) -> bool {
    forall|n: Seq<char>|
        {
            &&& #[trigger] new.contains_key(n) <==> (old.contains_key(n) || leaf_name(prefix, v, n))
            &&& leaf_name(prefix, v, n) ==> new[n]@ == origin
            &&& old.contains_key(n) && !leaf_name(prefix, v, n) ==> new[n] == old[n]
        }
}

/// One of the first `i` entries holds a plain value with the dotted name `n`.
spec fn leaf_before(prefix: Seq<char>, t: Table, i: int, n: Seq<char>) -> bool {
    exists|j: int|
        0 <= j < i && leaf_name(
            prefix + (#[trigger] t.entries@[j]).0@ + "."@,
            model(t.entries@[j].1),
            n,
        )
}

proof fn lemma_leaf_before(prefix: Seq<char>, t: Table, n: Seq<char>)
    requires
        distinct(t.entries@),
    ensures
        leaf_before(prefix, t, t.entries@.len() as int, n) <==> leaf_name(
            prefix,
            Model::Table(table_model(t)),
            n,
        ),
{
    let m = table_model(t);
    let e = t.entries@;
    if leaf_before(prefix, t, e.len() as int, n) {
        let j = choose|j: int|
            0 <= j < e.len() && leaf_name(
                prefix + (#[trigger] e[j]).0@ + "."@,
                model(e[j].1),
                n,
            );
        lemma_entry(t, j);
        let k = e[j].0@;
        assert(m.contains_key(k) && leaf_name(prefix + k + "."@, m[k], n));
        let v = Model::Table(m);
        assert(v->Table_0.contains_key(k) && leaf_name(prefix + k + "."@, v->Table_0[k], n));
        assert(leaf_name(prefix, v, n));
    }
    if leaf_name(prefix, Model::Table(m), n) {
        let k = choose|k: Seq<char>|
            #[trigger] m.contains_key(k) && leaf_name(prefix + k + "."@, m[k], n);
        let j = position(e, k);
        assert(has_name(e, k));
        lemma_entry(t, j);
        assert(e[j].0@ == k);
        assert(leaf_before(prefix, t, e.len() as int, n));
    }
}

/// Notes where the plain values inside `v` come from.
fn record_leaves(prefix: &str, v: &Value, origin: &str, origins: &mut StrMap<String>)
    requires
        wf(*v),
    ensures
        noted(old(origins)@, final(origins)@, prefix@, model(*v), origin@),
    decreases v,
{
    match v {
        Value::Table(t) => {
            record_table(prefix, t, origin, origins);
        },
        _ => {
            proof {
                reveal_strlit(".");
            }
            let key = trim_end_matches(prefix, ".");
            origins.insert(key, origin.to_owned());
        },
    }
}

/// Notes where the plain values inside a table come from.
fn record_table(prefix: &str, t: &Table, origin: &str, origins: &mut StrMap<String>)
    requires
        table_wf(*t),
    ensures
        noted(
            old(origins)@,
            final(origins)@,
            prefix@,
            Model::Table(table_model(*t)),
            origin@,
        ),
    decreases t,
{
    let ghost first = origins@;
    let mut i: usize = 0;
    while i < t.entries.len()
        invariant
            i <= t.entries@.len(),
            table_wf(*t),
            forall|n: Seq<char>|
                {
                    &&& #[trigger] origins@.contains_key(n) <==> (first.contains_key(n)
                        || leaf_before(prefix@, *t, i as int, n))
                    &&& leaf_before(prefix@, *t, i as int, n) ==> origins@[n]@ == origin@
                    &&& first.contains_key(n) && !leaf_before(prefix@, *t, i as int, n)
                        ==> origins@[n] == first[n]
                },
        decreases t.entries@.len() - i,
    {
        let ghost before = origins@;
        let p = cat3(prefix, t.entries[i].0.as_str(), ".");
        let ghost here = model(t.entries@[i as int].1);
        record_leaves(p.as_str(), &t.entries[i].1, origin, origins);
        proof {
            assert forall|n: Seq<char>| #[trigger] leaf_before(prefix@, *t, i + 1, n) <==> (
            leaf_before(prefix@, *t, i as int, n) || leaf_name(p@, here, n)) by {
                if leaf_before(prefix@, *t, i + 1, n) {
                    let j = choose|j: int|
                        0 <= j < i + 1 && leaf_name(
                            prefix@ + (#[trigger] t.entries@[j]).0@ + "."@,
                            model(t.entries@[j].1),
                            n,
                        );
                    if j < i {
                        assert(leaf_before(prefix@, *t, i as int, n));
                    }
                }
                if leaf_name(p@, here, n) {
                    assert(leaf_name(
                        prefix@ + t.entries@[i as int].0@ + "."@,
                        model(t.entries@[i as int].1),
                        n,
                    ));
                }
            }
            assert(noted(before, origins@, p@, here, origin@));
        }
        i += 1;
    }
    proof {
        assert forall|n: Seq<char>| leaf_before(prefix@, *t, t.entries@.len() as int, n)
            <==> leaf_name(prefix@, Model::Table(table_model(*t)), n) by {
            lemma_leaf_before(prefix@, *t, n);
        }
    }
}

/// What `o` laid over `b` means for the name `k`.
spec fn laid(b: Map<Seq<char>, Model>, k: Seq<char>, v: Model) -> Model {
    if b.contains_key(k) {
        overlaid(b[k], v)
    } else {
        v
    }
}

/// The names of `b` after the first `i` entries of `o` have been laid over it.
spec fn laid_upto(b: Map<Seq<char>, Model>, o: Table, i: int) -> Map<Seq<char>, Model>
    decreases i,
{
    if i <= 0 {
        b
    } else {
        laid_upto(b, o, i - 1).insert(
            o.entries@[i - 1].0@,
            laid(b, o.entries@[i - 1].0@, model(o.entries@[i - 1].1)),
        )
    }
}

proof fn lemma_laid_upto(b: Map<Seq<char>, Model>, o: Table, i: int, k: Seq<char>)
    requires
        distinct(o.entries@),
        0 <= i <= o.entries@.len(),
    ensures
        laid_upto(b, o, i).contains_key(k) <==> (b.contains_key(k) || exists|j: int|
            0 <= j < i && (#[trigger] o.entries@[j]).0@ == k),
        forall|j: int|
            0 <= j < i && (#[trigger] o.entries@[j]).0@ == k ==> laid_upto(b, o, i)[k] == laid(
                b,
                k,
                model(o.entries@[j].1),
            ),
        (forall|j: int| 0 <= j < i ==> (#[trigger] o.entries@[j]).0@ != k) ==> laid_upto(
            b,
            o,
            i,
        )[k] == b[k],
    decreases i,
{
    if i > 0 {
        lemma_laid_upto(b, o, i - 1, k);
        assert(o.entries@[i - 1].0@ == k || o.entries@[i - 1].0@ != k);
    }
}

proof fn lemma_laid_all(b: Map<Seq<char>, Model>, o: Table)
    requires
        distinct(o.entries@),
    ensures
        Model::Table(laid_upto(b, o, o.entries@.len() as int)) == overlaid(
            Model::Table(b),
            Model::Table(table_model(o)),
        ),
{
    let n = o.entries@.len() as int;
    let y = table_model(o);
    let all = laid_upto(b, o, n);
    let want = overlaid(Model::Table(b), Model::Table(y))->Table_0;
    assert forall|k: Seq<char>| all.contains_key(k) <==> want.contains_key(k) by {
        lemma_laid_upto(b, o, n, k);
        if y.contains_key(k) {
            let j = position(o.entries@, k);
            assert(has_name(o.entries@, k));
            assert(o.entries@[j].0@ == k);
        }
    }
    assert forall|k: Seq<char>| want.contains_key(k) implies all[k] == want[k] by {
        lemma_laid_upto(b, o, n, k);
        if y.contains_key(k) {
            let j = position(o.entries@, k);
            assert(has_name(o.entries@, k));
            lemma_entry(o, j);
            assert(o.entries@[j].0@ == k);
            assert(all[k] == laid(b, k, model(o.entries@[j].1)));
        } else {
            assert forall|j: int| 0 <= j < n implies (#[trigger] o.entries@[j]).0@ != k by {
                lemma_entry(o, j);
            }
        }
    }
    assert(all =~= want);
}

/// Lays `overlay` over `base` and notes for each plain value of `overlay` that it comes from
/// `origin`.
#[verifier::spinoff_prover]
pub fn deep_merge(
    base: &mut Table,
    overlay: &Table,
    origin: &str,
    prefix: &str,
    origins: &mut StrMap<String>,
)
    requires
        table_wf(*old(base)),
        table_wf(*overlay),
    ensures
        table_wf(*final(base)),
        Model::Table(table_model(*final(base))) == overlaid(
            Model::Table(table_model(*old(base))),
            Model::Table(table_model(*overlay)),
        ),
        noted(
            old(origins)@,
            final(origins)@,
            prefix@,
            Model::Table(table_model(*overlay)),
            origin@,
        ),
    decreases overlay,
{
    let ghost b = table_model(*base);
    let ghost first = origins@;
    let ghost whole = *base;
    let mut i: usize = 0;
    while i < overlay.entries.len()
        invariant
            i <= overlay.entries@.len(),
            table_wf(*overlay),
            table_wf(*base),
            table_model(*base) == laid_upto(b, *overlay, i as int),
            forall|n: Seq<char>|
                {
                    &&& #[trigger] origins@.contains_key(n) <==> (first.contains_key(n)
                        || leaf_before(prefix@, *overlay, i as int, n))
                    &&& leaf_before(prefix@, *overlay, i as int, n) ==> origins@[n]@ == origin@
                    &&& first.contains_key(n) && !leaf_before(prefix@, *overlay, i as int, n)
                        ==> origins@[n] == first[n]
                },
        decreases overlay.entries@.len() - i,
    {
        let ghost before = origins@;
        let ghost start = *base;
        let k = overlay.entries[i].0.clone();
        let v = &overlay.entries[i].1;
        let key = cat3(prefix, k.as_str(), ".");
        let ghost here = model(*v);
        proof {
            lemma_laid_upto(b, *overlay, i as int, k@);
            assert forall|j: int| 0 <= j < i implies (#[trigger] overlay.entries@[j]).0@ != k@ by {
                assert(overlay.entries@[j].0@ != overlay.entries@[i as int].0@);
            }
        }
        match find_name(base, k.as_str()) {
            Some(j) => {
                proof {
                    lemma_entry(start, j as int);
                    assert(b[k@] == model(start.entries@[j as int].1));
                }
                let mut slot = (String::new(), Value::Other(String::new()));
                std::mem::swap(&mut slot, &mut base.entries[j]);
                let ghost taken = slot.1;
                let new: Value = match (slot.1, v) {
                    (Value::Table(mut inner), Value::Table(o)) => {
                        deep_merge(&mut inner, o, origin, key.as_str(), origins);
                        Value::Table(inner)
                    },
                    (_, v) => {
                        record_leaves(key.as_str(), v, origin, origins);
                        copy_value(v)
                    },
                };
                let ghost made = new;
                base.entries.set(j, (slot.0, new));
                proof {
                    assert(model(made) == overlaid(b[k@], here));
                    lemma_set_entry(start, *base, j as int, made);
                    assert forall|x: int| 0 <= x < base.entries@.len() implies wf(
                        (#[trigger] base.entries@[x]).1,
                    ) by {
                        if x != j {
                            assert(base.entries@[x] == start.entries@[x]);
                        }
                    }
                }
            },
            None => {
                let new = copy_value(v);
                let ghost made = new;
                record_leaves(key.as_str(), v, origin, origins);
                let ghost name = k;
                base.entries.push((k, new));
                proof {
                    lemma_push_entry(start, *base, name, made);
                    assert forall|x: int| 0 <= x < base.entries@.len() implies wf(
                        (#[trigger] base.entries@[x]).1,
                    ) by {
                        if x < start.entries@.len() {
                            assert(base.entries@[x] == start.entries@[x]);
                        }
                    }
                }
            },
        }
        proof {
            assert forall|n: Seq<char>| #[trigger] leaf_before(prefix@, *overlay, i + 1, n) <==> (
            leaf_before(prefix@, *overlay, i as int, n) || leaf_name(key@, here, n)) by {
                if leaf_before(prefix@, *overlay, i + 1, n) {
                    let j = choose|j: int|
                        0 <= j < i + 1 && leaf_name(
                            prefix@ + (#[trigger] overlay.entries@[j]).0@ + "."@,
                            model(overlay.entries@[j].1),
                            n,
                        );
                    if j < i {
                        assert(leaf_before(prefix@, *overlay, i as int, n));
                    }
                }
                if leaf_name(key@, here, n) {
                    assert(leaf_name(
                        prefix@ + overlay.entries@[i as int].0@ + "."@,
                        model(overlay.entries@[i as int].1),
                        n,
                    ));
                }
            }
            assert(noted(before, origins@, key@, here, origin@));
        }
        i += 1;
    }
    proof {
        lemma_laid_all(b, *overlay);
        assert forall|n: Seq<char>|
            leaf_before(prefix@, *overlay, overlay.entries@.len() as int, n) <==> leaf_name(
                prefix@,
                Model::Table(table_model(*overlay)),
                n,
            ) by {
            lemma_leaf_before(prefix@, *overlay, n);
        }
    }
}

/// What the program brings along: the lowest policy layer and the profiles.
pub struct Builtin {
    pub policy: Table,
    pub profiles: StrMap<ProfileCfg>,
}

/// Every table of a configuration has its names once.
pub open spec fn config_wf(b: Builtin, c: Config) -> bool {
    &&& table_wf(b.policy)
    &&& table_wf(c.defaults)
    &&& forall|k: Seq<char>| #[trigger]
        b.profiles@.contains_key(k) ==> table_wf(b.profiles@[k].policy)
    &&& forall|k: Seq<char>| #[trigger]
        c.profiles@.contains_key(k) ==> table_wf(c.profiles@[k].policy)
    &&& forall|k: Seq<char>| #[trigger]
        c.projects@.contains_key(k) ==> table_wf(c.projects@[k].policy)
}

/// The profile with a name: the configured one before the one that the program brings.
pub open spec fn profile_named(b: Builtin, c: Config, n: Seq<char>) -> Option<ProfileCfg> {
    if c.profiles@.contains_key(n) {
        Some(c.profiles@[n])
    } else if b.profiles@.contains_key(n) {
        Some(b.profiles@[n])
    } else {
        None
    }
}

/// The profile with a name.
pub fn find_profile<'a>(b: &'a Builtin, c: &'a Config, n: &str) -> (r: Option<&'a ProfileCfg>)
    ensures
        match r {
            Some(p) => profile_named(*b, *c, n@) == Some(*p),
            None => profile_named(*b, *c, n@) is None,
        },
{
    match c.profiles.get(n) {
        Some(p) => Some(p),
        None => b.profiles.get(n),
    }
}

/// The profiles that the detection order names, each where it is named first.
pub open spec fn named_first(b: Builtin, c: Config, order: Seq<Seq<char>>) -> Seq<Seq<char>>
    decreases order.len(),
{
    if order.len() == 0 {
        Seq::empty()
    } else {
        let p = named_first(b, c, order.drop_last());
        if profile_named(b, c, order.last()) is Some && !p.contains(order.last()) {
            p.push(order.last())
        } else {
            p
        }
    }
}

/// `all` lists every profile once: those that the detection order names, then the others by
/// name.
pub open spec fn in_detection_order(b: Builtin, c: Config, all: Seq<Seq<char>>) -> bool {
    let first = named_first(b, c, texts(c.global.profile_order@));
    &&& first.len() <= all.len()
    &&& all.take(first.len() as int) == first
    &&& sorted_keys(all.skip(first.len() as int))
    &&& forall|n: Seq<char>| #[trigger]
        all.skip(first.len() as int).contains(n) <==> (profile_named(b, c, n) is Some
            && !first.contains(n))
}

/// All profiles (built-in, replaced or extended by config) in detection order.
pub fn all_profiles(b: &Builtin, c: &Config) -> (r: Vec<String>)
    ensures
        in_detection_order(*b, *c, texts(r@)),
{
    let order = &c.global.profile_order;
    let ghost names = texts(order@);
    let mut out: Vec<String> = Vec::new();
    let mut i: usize = 0;
    assert(texts(out@) =~= named_first(*b, *c, names.take(0)));
    while i < order.len()
        invariant
            i <= order@.len(),
            names == texts(order@),
            texts(out@) == named_first(*b, *c, names.take(i as int)),
        decreases order@.len() - i,
    {
        assert(names.take(i + 1).drop_last() =~= names.take(i as int));
        assert(names.take(i + 1).last() == order@[i as int]@);
        if find_profile(b, c, order[i].as_str()).is_some() && !list_has(&out, order[i].as_str()) {
            let ghost before = texts(out@);
            out.push(order[i].clone());
            assert(texts(out@) =~= before.push(order@[i as int]@));
        }
        i += 1;
    }
    assert(names.take(names.len() as int) =~= names);
    let ghost first = texts(out@);
    let mut rest: StrMap<()> = StrMap::new();
    let from_config = c.profiles.entries();
    let mut k: usize = 0;
    while k < from_config.len()
        invariant
            k <= from_config@.len(),
            first == texts(out@),
            forall|n: Seq<char>| #[trigger]
                rest@.contains_key(n) <==> !first.contains(n) && exists|j: int|
                    0 <= j < k && (#[trigger] from_config@[j]).0@ == n,
        decreases from_config@.len() - k,
    {
        let ghost before = rest@;
        if !list_has(&out, from_config[k].0.as_str()) {
            rest.insert(from_config[k].0.clone(), ());
        }
        proof {
            let here = from_config@[k as int].0@;
            assert forall|n: Seq<char>| #[trigger] rest@.contains_key(n) <==> !first.contains(n)
                && exists|j: int| 0 <= j < k + 1 && (#[trigger] from_config@[j]).0@ == n by {
                if before.contains_key(n) {
                    let j = choose|j: int| 0 <= j < k && (#[trigger] from_config@[j]).0@ == n;
                    assert(0 <= j < k + 1 && from_config@[j].0@ == n);
                }
                if !first.contains(n) && exists|j: int|
                    0 <= j < k + 1 && (#[trigger] from_config@[j]).0@ == n {
                    let j = choose|j: int| 0 <= j < k + 1 && (#[trigger] from_config@[j]).0@ == n;
                    if j < k {
                        assert(before.contains_key(n));
                    }
                }
            }
        }
        k += 1;
    }
    let ghost mid = rest@;
    let brought = b.profiles.entries();
    let mut k: usize = 0;
    while k < brought.len()
        invariant
            k <= brought@.len(),
            first == texts(out@),
            forall|n: Seq<char>| #[trigger]
                rest@.contains_key(n) <==> mid.contains_key(n) || (!first.contains(n) && exists|
                    j: int,
                |
                    0 <= j < k && (#[trigger] brought@[j]).0@ == n),
        decreases brought@.len() - k,
    {
        let ghost before = rest@;
        if !list_has(&out, brought[k].0.as_str()) {
            rest.insert(brought[k].0.clone(), ());
        }
        proof {
            assert forall|n: Seq<char>| #[trigger] rest@.contains_key(n) <==> mid.contains_key(n)
                || (!first.contains(n) && exists|j: int|
                0 <= j < k + 1 && (#[trigger] brought@[j]).0@ == n) by {
                if before.contains_key(n) && !mid.contains_key(n) {
                    let j = choose|j: int| 0 <= j < k && (#[trigger] brought@[j]).0@ == n;
                    assert(0 <= j < k + 1 && brought@[j].0@ == n);
                }
                if !first.contains(n) && exists|j: int|
                    0 <= j < k + 1 && (#[trigger] brought@[j]).0@ == n {
                    let j = choose|j: int| 0 <= j < k + 1 && (#[trigger] brought@[j]).0@ == n;
                    if j < k {
                        assert(before.contains_key(n));
                    }
                }
            }
        }
        k += 1;
    }
    let sorted = rest.entries();
    let ghost tail = rest.keys();
    let mut k: usize = 0;
    while k < sorted.len()
        invariant
            k <= sorted@.len(),
            sorted@ == rest.pairs(),
            tail == rest.keys(),
            texts(out@) == first + tail.take(k as int),
        decreases sorted@.len() - k,
    {
        let ghost before = texts(out@);
        out.push(sorted[k].0.clone());
        assert(texts(out@) =~= before.push(tail[k as int]));
        assert(first + tail.take(k + 1) =~= (first + tail.take(k as int)).push(tail[k as int]));
        k += 1;
    }
    proof {
        let all = texts(out@);
        assert(tail.take(tail.len() as int) =~= tail);
        assert(all.take(first.len() as int) =~= first);
        assert(all.skip(first.len() as int) =~= tail);
        assert forall|n: Seq<char>| #[trigger] tail.contains(n) <==> (profile_named(*b, *c, n) is Some
            && !first.contains(n)) by {
            if tail.contains(n) {
                let j = tail.index_of(n);
                assert(sorted@[j].0@ == n);
                assert(rest@.contains_key(n));
                if mid.contains_key(n) {
                    let j = choose|j: int|
                        0 <= j < from_config@.len() && (#[trigger] from_config@[j]).0@ == n;
                    assert(c.profiles@.contains_key(from_config@[j].0@));
                } else {
                    let j = choose|j: int|
                        0 <= j < brought@.len() && (#[trigger] brought@[j]).0@ == n;
                    assert(b.profiles@.contains_key(brought@[j].0@));
                }
            }
            if profile_named(*b, *c, n) is Some && !first.contains(n) {
                if c.profiles@.contains_key(n) {
                    assert(mid.contains_key(n));
                }
                assert(rest@.contains_key(n));
                let j = choose|j: int| 0 <= j < sorted@.len() && sorted@[j].0@ == n;
                assert(tail[j] == n);
            }
        }
    }
    out
}

/// Whether one of the markers of a profile is present.
pub open spec fn marker_present(p: ProfileCfg, present: Seq<Seq<char>>) -> bool {
    exists|i: int| 0 <= i < p.markers@.len() && present.contains(#[trigger] texts(p.markers@)[i])
}

/// Whether there is a profile of that name with a marker that is present.
pub open spec fn recognised(
    b: Builtin,
    c: Config,
    present: Seq<Seq<char>>,
    n: Seq<char>,
) -> bool {
    match profile_named(b, c, n) {
        Some(p) => marker_present(p, present),
        None => false,
    }
}

/// The profiles whose markers are present, in detection order; the generic one where there is
/// none.
pub open spec fn detected(
    b: Builtin,
    c: Config,
    present: Seq<Seq<char>>,
    found: Seq<Seq<char>>,
) -> bool {
    exists|all: Seq<Seq<char>>|
        {
            &&& #[trigger] in_detection_order(b, c, all)
            &&& found == ({
                let f = all.filter(|n: Seq<char>| recognised(b, c, present, n));
                if f.len() == 0 {
                    seq!["generic"@]
                } else {
                    f
                }
            })
        }
}

fn has_marker(p: &ProfileCfg, present: &Vec<String>) -> (r: bool)
    ensures
        r == marker_present(*p, texts(present@)),
{
    let mut i: usize = 0;
    while i < p.markers.len()
        invariant
            i <= p.markers@.len(),
            forall|j: int|
                0 <= j < i ==> !texts(present@).contains(#[trigger] texts(p.markers@)[j]),
        decreases p.markers@.len() - i,
    {
        assert(texts(p.markers@)[i as int] == p.markers@[i as int]@);
        if list_has(present, p.markers[i].as_str()) {
            return true;
        }
        i += 1;
    }
    false
}

/// The profiles of a project in which the markers `present` were found.
pub fn detect_profiles(b: &Builtin, c: &Config, present: &Vec<String>) -> (r: Vec<String>)
    ensures
        detected(*b, *c, texts(present@), texts(r@)),
{
    let names = all_profiles(b, c);
    let ghost all = texts(names@);
    let ghost known = |n: Seq<char>| recognised(*b, *c, texts(present@), n);
    let mut out: Vec<String> = Vec::new();
    let mut i: usize = 0;
    proof {
        reveal(Seq::filter);
        assert(texts(out@) =~= all.take(0).filter(known));
    }
    while i < names.len()
        invariant
            i <= names@.len(),
            all == texts(names@),
            known == (|n: Seq<char>| recognised(*b, *c, texts(present@), n)),
            texts(out@) == all.take(i as int).filter(known),
        decreases names@.len() - i,
    {
        assert(all.take(i + 1) =~= all.take(i as int).push(names@[i as int]@));
        proof {
            all.take(i as int).lemma_filter_push(names@[i as int]@, known);
        }
        let hit = match find_profile(b, c, names[i].as_str()) {
            Some(p) => has_marker(p, present),
            None => false,
        };
        assert(hit == recognised(*b, *c, texts(present@), names@[i as int]@));
        assert(known(names@[i as int]@) == hit);
        if hit {
            let ghost before = texts(out@);
            out.push(names[i].clone());
            assert(texts(out@) =~= before.push(names@[i as int]@));
        }
        i += 1;
    }
    assert(all.take(all.len() as int) =~= all);
    assert(texts(out@).len() == out@.len());
    if out.len() == 0 {
        let r = vec!["generic".to_owned()];
        assert(texts(r@) =~= seq!["generic"@]);
        r
    } else {
        out
    }
}

/// The policy settings among the names of a table.
pub open spec fn policy_names(m: Map<Seq<char>, Model>) -> Map<Seq<char>, Model> {
    Map::new(|k: Seq<char>| m.contains_key(k) && policy_key(k), |k: Seq<char>| m[k])
}

/// The policy settings of a table.
pub fn policy_part(t: &Table) -> (r: Table)
    requires
        table_wf(*t),
    ensures
        table_wf(r),
        table_model(r) == policy_names(table_model(*t)),
{
    let mut out = Table { entries: Vec::new() };
    let ghost e = t.entries@;
    let mut i: usize = 0;
    assert(table_model(out) =~= Map::<Seq<char>, Model>::empty());
    while i < t.entries.len()
        invariant
            i <= e.len(),
            e == t.entries@,
            table_wf(*t),
            table_wf(out),
            forall|k: Seq<char>| #[trigger]
                table_model(out).contains_key(k) <==> exists|j: int|
                    0 <= j < i && (#[trigger] e[j]).0@ == k && policy_key(k),
            forall|j: int|
                0 <= j < i && policy_key((#[trigger] e[j]).0@) ==> table_model(out)[e[j].0@]
                    == model(e[j].1),
        decreases e.len() - i,
    {
        let k = t.entries[i].0.clone();
        if is_policy_key(k.as_str()) {
            let v = copy_value(&t.entries[i].1);
            let ghost before = out;
            let ghost made = v;
            let ghost name = k;
            proof {
                if has_name(before.entries@, k@) {
                    assert(table_model(before).contains_key(k@));
                    let j = choose|j: int|
                        0 <= j < i && (#[trigger] e[j]).0@ == k@ && policy_key(k@);
                    assert(e[j].0@ != e[i as int].0@);
                }
            }
            out.entries.push((k, v));
            proof {
                lemma_push_entry(before, out, name, made);
                assert forall|x: int| 0 <= x < out.entries@.len() implies wf(
                    (#[trigger] out.entries@[x]).1,
                ) by {
                    if x < before.entries@.len() {
                        assert(out.entries@[x] == before.entries@[x]);
                    }
                }
                assert forall|n: Seq<char>| #[trigger]
                    table_model(out).contains_key(n) <==> exists|j: int|
                        0 <= j < i + 1 && (#[trigger] e[j]).0@ == n && policy_key(n) by {
                    if table_model(before).contains_key(n) {
                        let j = choose|j: int|
                            0 <= j < i && (#[trigger] e[j]).0@ == n && policy_key(n);
                        assert(0 <= j < i + 1 && e[j].0@ == n);
                    }
                    if n == name@ {
                        assert(e[i as int].0@ == n);
                    }
                }
                assert forall|j: int| 0 <= j < i + 1 && policy_key((#[trigger] e[j]).0@) implies
                    table_model(out)[e[j].0@] == model(e[j].1) by {
                    if j < i {
                        assert(e[j].0@ != e[i as int].0@);
                    }
                }
            }
        } else {
            proof {
                assert forall|n: Seq<char>| #[trigger]
                    table_model(out).contains_key(n) <==> exists|j: int|
                        0 <= j < i + 1 && (#[trigger] e[j]).0@ == n && policy_key(n) by {
                    if table_model(out).contains_key(n) {
                        let j = choose|j: int|
                            0 <= j < i && (#[trigger] e[j]).0@ == n && policy_key(n);
                        assert(0 <= j < i + 1 && e[j].0@ == n);
                    }
                }
            }
        }
        i += 1;
    }
    proof {
        let m = table_model(*t);
        assert forall|k: Seq<char>| policy_names(m).contains_key(k) implies table_model(
            out,
        ).contains_key(k) && table_model(out)[k] == m[k] by {
            let j = position(e, k);
            assert(has_name(e, k));
            lemma_entry(*t, j);
            assert(e[j].0@ == k);
        }
        assert forall|k: Seq<char>| table_model(out).contains_key(k) implies policy_names(
            m,
        ).contains_key(k) by {
            let j = choose|j: int| 0 <= j < e.len() && (#[trigger] e[j]).0@ == k && policy_key(k);
            lemma_entry(*t, j);
        }
        assert(table_model(out) =~= policy_names(m));
    }
    out
}

/// Each profile that the detection order names comes once, and no text that is no profile.
pub proof fn law_named_profiles_come_once(
    b: Builtin,
    c: Config,
    order: Seq<Seq<char>>,
    n: Seq<char>,
)
    ensures
        named_first(b, c, order).contains(n) <==> order.contains(n) && (c.profiles@.contains_key(n)
            || b.profiles@.contains_key(n)),
        named_first(b, c, order).no_duplicates(),
    decreases order.len(),
{
    if order.len() > 0 {
        let t = order.drop_last();
        law_named_profiles_come_once(b, c, t, n);
        law_named_profiles_come_once(b, c, t, order.last());
        lemma_last_or_before(order, n);
        let p = named_first(b, c, t);
        let r = named_first(b, c, order);
        if r != p {
            lemma_last_or_before(r, n);
            assert(r.drop_last() =~= p);
            assert forall|i: int, j: int| 0 <= i < r.len() && 0 <= j < r.len() && i != j implies r[i]
                != r[j] by {
                if i < p.len() && j < p.len() {
                    assert(p[i] != p[j]);
                } else if i < p.len() {
                    assert(p.contains(p[i]));
                } else {
                    assert(p.contains(p[j]));
                }
            }
        }
    }
}

/// Every profile with a marker that is present is found, and no other; the generic one stands for
/// a project in which no marker is.
pub proof fn law_profiles_are_found_by_their_markers(
    b: Builtin,
    c: Config,
    present: Seq<Seq<char>>,
    found: Seq<Seq<char>>,
    n: Seq<char>,
)
    requires
        detected(b, c, present, found),
    ensures
        recognised(b, c, present, n) ==> found.contains(n),
        found.contains(n) ==> recognised(b, c, present, n) || found == seq!["generic"@],
        found.len() > 0,
        recognised(b, c, present, n) <==> (profile_named(b, c, n) matches Some(p) && exists|i: int|
            0 <= i < p.markers@.len() && present.contains((#[trigger] p.markers@[i])@)),
{
    let all = choose|all: Seq<Seq<char>>|
        {
            &&& #[trigger] in_detection_order(b, c, all)
            &&& found == ({
                let f = all.filter(|n: Seq<char>| recognised(b, c, present, n));
                if f.len() == 0 {
                    seq!["generic"@]
                } else {
                    f
                }
            })
        };
    let keep = |n: Seq<char>| recognised(b, c, present, n);
    let first = named_first(b, c, texts(c.global.profile_order@));
    let rest = all.skip(first.len() as int);
    let f = all.filter(keep);
    if recognised(b, c, present, n) {
        assert(all.contains(n)) by {
            if first.contains(n) {
                let i = choose|i: int| 0 <= i < first.len() && first[i] == n;
                assert(all.take(first.len() as int)[i] == n);
                assert(all[i] == n);
            } else {
                assert(rest.contains(n));
                let i = choose|i: int| 0 <= i < rest.len() && rest[i] == n;
                assert(all[first.len() + i] == n);
            }
        }
        let i = choose|i: int| 0 <= i < all.len() && all[i] == n;
        lemma_filter_keeps(all, keep, i);
    }
    if found.contains(n) && f.len() > 0 {
        let i = choose|i: int| 0 <= i < f.len() && f[i] == n;
        lemma_filter_kept(all, keep, i);
    }
    if profile_named(b, c, n) is Some {
        let p = profile_named(b, c, n)->0;
        if marker_present(p, present) {
            let i = choose|i: int|
                0 <= i < p.markers@.len() && present.contains(#[trigger] texts(p.markers@)[i]);
            assert(present.contains(p.markers@[i]@));
        }
        if exists|i: int| 0 <= i < p.markers@.len() && present.contains((#[trigger] p.markers@[i])@) {
            let i = choose|i: int|
                0 <= i < p.markers@.len() && present.contains((#[trigger] p.markers@[i])@);
            assert(present.contains(texts(p.markers@)[i]));
        }
    }
}

proof fn lemma_filter_keeps(s: Seq<Seq<char>>, keep: spec_fn(Seq<char>) -> bool, i: int)
    requires
        0 <= i < s.len(),
        keep(s[i]),
    ensures
        s.filter(keep).contains(s[i]),
    decreases s.len(),
{
    reveal(Seq::filter);
    let f = s.drop_last().filter(keep);
    if i < s.len() - 1 {
        lemma_filter_keeps(s.drop_last(), keep, i);
        let k = choose|k: int| 0 <= k < f.len() && f[k] == s[i];
        assert(s.filter(keep)[k] == s[i]);
    } else {
        assert(s.filter(keep)[f.len() as int] == s[i]);
    }
}

/// A configured profile replaces the one of the same name that the program brings.
pub proof fn law_configured_profiles_replace_others(b: Builtin, c: Config, n: Seq<char>)
    ensures
        c.profiles@.contains_key(n) ==> profile_named(b, c, n) == Some(c.profiles@[n]),
        !c.profiles@.contains_key(n) && b.profiles@.contains_key(n) ==> profile_named(b, c, n)
            == Some(b.profiles@[n]),
        !c.profiles@.contains_key(n) && !b.profiles@.contains_key(n) ==> profile_named(b, c, n)
            is None,
{
}

/// A plain value is named by the names that lead to it, with dots between them.
pub proof fn law_values_are_named_by_their_path(
    t: Map<Seq<char>, Model>,
    u: Map<Seq<char>, Model>,
    k: Seq<char>,
    j: Seq<char>,
)
    requires
        k.len() > 0 && k.last() != '.',
        j.len() > 0 && j.last() != '.',
        t.contains_key(k),
    ensures
        !(t[k] is Table) ==> leaf_name(Seq::empty(), Model::Table(t), k),
        t[k] == Model::Table(u) && u.contains_key(j) && !(u[j] is Table) ==> leaf_name(
            Seq::empty(),
            Model::Table(t),
            k + "."@ + j,
        ),
{
    reveal_strlit(".");
    let none = Seq::<char>::empty();
    let p = none + k + "."@;
    assert(p =~= k + "."@);
    lemma_strip_dot(k);
    lemma_strip_dot(k + "."@ + j);
    let v = Model::Table(t);
    if !(t[k] is Table) {
        lemma_leaf_below(none, v, k, k);
    }
    if t[k] == Model::Table(u) && u.contains_key(j) && !(u[j] is Table) {
        let n = k + "."@ + j;
        assert(p + j + "."@ =~= n + "."@);
        lemma_leaf_below(p, t[k], j, n);
        lemma_leaf_below(none, v, k, n);
    }
}

proof fn lemma_leaf_below(prefix: Seq<char>, v: Model, k: Seq<char>, n: Seq<char>)
    requires
        v is Table,
        v->Table_0.contains_key(k),
        leaf_name(prefix + k + "."@, v->Table_0[k], n),
    ensures
        leaf_name(prefix, v, n),
{
    assert(v->Table_0.contains_key(k) && leaf_name(prefix + k + "."@, v->Table_0[k], n));
}

proof fn lemma_strip_dot(s: Seq<char>)
    requires
        s.len() > 0,
        s.last() != '.',
    ensures
        strip_all(s + "."@, "."@) == s,
{
    reveal_strlit(".");
    let d = s + "."@;
    assert(d.skip(d.len() - 1) =~= "."@);
    assert(d.take(d.len() - 1) =~= s);
    if crate::util::text::ends(s, "."@) {
        assert(s.skip(s.len() - 1)[0] == '.');
    }
    reveal_with_fuel(strip_all, 2);
}

/// Profiles that the detection order names come before those that it does not, and these go by
/// name.
pub proof fn law_named_profiles_come_first(
    b: Builtin,
    c: Config,
    all: Seq<Seq<char>>,
    i: int,
    j: int,
)
    requires
        in_detection_order(b, c, all),
        0 <= i < all.len(),
        0 <= j < all.len(),
        texts(c.global.profile_order@).contains(all[i]),
        !texts(c.global.profile_order@).contains(all[j]),
    ensures
        i < j,
        profile_named(b, c, all[i]) is Some && profile_named(b, c, all[j]) is Some,
{
    let order = texts(c.global.profile_order@);
    let first = named_first(b, c, order);
    let k = first.len() as int;
    let rest = all.skip(k);
    law_named_profiles_come_once(b, c, order, all[i]);
    law_named_profiles_come_once(b, c, order, all[j]);
    if j < k {
        assert(all.take(k)[j] == all[j]);
        assert(first.contains(all[j]));
    } else {
        assert(rest[j - k] == all[j]);
        assert(rest.contains(all[j]));
    }
    if i < k {
        assert(all.take(k)[i] == all[i]);
        assert(first.contains(all[i]));
    } else {
        assert(rest[i - k] == all[i]);
        assert(rest.contains(all[i]));
    }
}

/// The detection order is gone through from the front.
pub proof fn law_detection_order_is_kept(
    b: Builtin,
    c: Config,
    order: Seq<Seq<char>>,
    n: Seq<char>,
)
    ensures
        profile_named(b, c, n) is Some && !named_first(b, c, order).contains(n) ==> named_first(
            b,
            c,
            order.push(n),
        ) == named_first(b, c, order).push(n),
        profile_named(b, c, n) is None || named_first(b, c, order).contains(n) ==> named_first(
            b,
            c,
            order.push(n),
        ) == named_first(b, c, order),
{
    assert(order.push(n).drop_last() =~= order);
}

} // verus!
