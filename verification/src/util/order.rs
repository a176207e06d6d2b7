//! Positions in order of their keys.

use vstd::prelude::*;

use crate::util::text::str_lt;
#[allow(unused_imports)]
use crate::util::text::{
    lemma_lt_irreflexive, lemma_lt_total, lemma_lt_transitive, text_lt, texts,
};

verus! {

/// Position `a` comes before position `b`: by key, then by position.
pub open spec fn comes_before(keys: Seq<u64>, a: int, b: int) -> bool {
    keys[a] < keys[b] || (keys[a] == keys[b] && a < b)
}

/// `o` lists every position once, in order of the keys, those with equal keys in their own order.
pub open spec fn is_stable_order(keys: Seq<u64>, o: Seq<usize>) -> bool {
    &&& o.len() == keys.len()
    &&& forall|k: int| 0 <= k < o.len() ==> (#[trigger] o[k]) < keys.len()
    &&& forall|k: int, l: int|
        0 <= k < l < o.len() ==> comes_before(keys, #[trigger] o[k] as int, #[trigger] o[l] as int)
    &&& forall|j: int| 0 <= j < keys.len() ==> #[trigger] o.contains(j as usize)
}

/// The positions in order of the keys.
pub fn stable_order(keys: &Vec<u64>) -> (o: Vec<usize>)
    ensures
        is_stable_order(keys@, o@),
{
    let mut o: Vec<usize> = Vec::new();
    let mut i: usize = 0;
    let ghost s = keys@;
    while i < keys.len()
        invariant
            i <= keys@.len(),
            s == keys@,
            o@.len() == i,
            forall|k: int| 0 <= k < o@.len() ==> (#[trigger] o@[k]) < i,
            forall|k: int, l: int|
                0 <= k < l < o@.len() ==> comes_before(
                    s,
                    #[trigger] o@[k] as int,
                    #[trigger] o@[l] as int,
                ),
            forall|j: int| 0 <= j < i ==> #[trigger] o@.contains(j as usize),
        decreases keys@.len() - i,
    {
        let mut at: usize = o.len();
        while at > 0 && keys[o[at - 1]] > keys[i]
            invariant
                at <= o@.len(),
                i < keys@.len(),
                s == keys@,
                forall|k: int| 0 <= k < o@.len() ==> (#[trigger] o@[k]) < i,
                forall|k: int|
                    at <= k < o@.len() ==> comes_before(s, i as int, #[trigger] o@[k] as int),
            decreases at,
        {
            at -= 1;
        }
        let ghost before = o@;
        assert forall|k: int| 0 <= k < at implies comes_before(
            s,
            #[trigger] before[k] as int,
            i as int,
        ) by {
            if k < at - 1 {
                assert(comes_before(s, before[k] as int, before[at - 1] as int));
            }
        }
        o.insert(at, i);
        proof {
            let full = o@;
            assert forall|k: int, l: int| 0 <= k < l < full.len() implies comes_before(
                s,
                #[trigger] full[k] as int,
                #[trigger] full[l] as int,
            ) by {
                if l < at {
                    assert(comes_before(s, before[k] as int, before[l] as int));
                } else if l == at {
                    assert(comes_before(s, before[k] as int, i as int));
                } else if k == at {
                    assert(comes_before(s, i as int, before[l - 1] as int));
                } else if k < at {
                    assert(comes_before(s, before[k] as int, before[l - 1] as int));
                } else {
                    assert(comes_before(s, before[k - 1] as int, before[l - 1] as int));
                }
            }
            assert forall|j: int| 0 <= j < i + 1 implies #[trigger] full.contains(j as usize) by {
                if j == i {
                    assert(full[at as int] == i);
                } else {
                    assert(before.contains(j as usize));
                    let w = before.index_of(j as usize);
                    if w < at {
                        assert(full[w] == j as usize);
                    } else {
                        assert(full[w + 1] == j as usize);
                    }
                }
            }
        }
        i += 1;
    }
    o
}

/// Name `a` comes before name `b`: by text, then by position.
pub open spec fn name_before(names: Seq<Seq<char>>, a: int, b: int) -> bool {
    text_lt(names[a], names[b]) || (names[a] == names[b] && a < b)
}

/// `o` lists every position once, in order of the names, equal ones in their own order.
pub open spec fn is_name_order(names: Seq<Seq<char>>, o: Seq<usize>) -> bool {
    &&& o.len() == names.len()
    &&& forall|k: int| 0 <= k < o.len() ==> (#[trigger] o[k]) < names.len()
    &&& forall|k: int, l: int|
        0 <= k < l < o.len() ==> name_before(names, #[trigger] o[k] as int, #[trigger] o[l] as int)
    &&& forall|j: int| 0 <= j < names.len() ==> #[trigger] o.contains(j as usize)
}

/// The positions in order of the names.
pub fn name_order(names: &Vec<String>) -> (o: Vec<usize>)
    ensures
        is_name_order(texts(names@), o@),
{
    let mut o: Vec<usize> = Vec::new();
    let mut i: usize = 0;
    let ghost s = texts(names@);
    while i < names.len()
        invariant
            i <= names@.len(),
            s == texts(names@),
            o@.len() == i,
            forall|k: int| 0 <= k < o@.len() ==> (#[trigger] o@[k]) < i,
            forall|k: int, l: int|
                0 <= k < l < o@.len() ==> name_before(
                    s,
                    #[trigger] o@[k] as int,
                    #[trigger] o@[l] as int,
                ),
            forall|j: int| 0 <= j < i ==> #[trigger] o@.contains(j as usize),
        decreases names@.len() - i,
    {
        let mut at: usize = o.len();
        while at > 0 && str_lt(names[i].as_str(), names[o[at - 1]].as_str())
            invariant
                at <= o@.len(),
                i < names@.len(),
                s == texts(names@),
                forall|k: int| 0 <= k < o@.len() ==> (#[trigger] o@[k]) < i,
                forall|k: int|
                    at <= k < o@.len() ==> name_before(s, i as int, #[trigger] o@[k] as int),
            decreases at,
        {
            at -= 1;
            assert(s[i as int] == names@[i as int]@);
            assert(s[o@[at as int] as int] == names@[o@[at as int] as int]@);
        }
        let ghost before = o@;
        assert forall|k: int| 0 <= k < at implies name_before(
            s,
            #[trigger] before[k] as int,
            i as int,
        ) by {
            let last = before[at - 1] as int;
            assert(s[i as int] == names@[i as int]@ && s[last] == names@[last]@);
            if s[last] != s[i as int] {
                lemma_lt_total(s[last], s[i as int]);
            }
            if k < at - 1 {
                assert(name_before(s, before[k] as int, last));
                if text_lt(s[before[k] as int], s[last]) && text_lt(s[last], s[i as int]) {
                    lemma_lt_transitive(s[before[k] as int], s[last], s[i as int]);
                }
            }
        }
        o.insert(at, i);
        proof {
            let full = o@;
            assert forall|k: int, l: int| 0 <= k < l < full.len() implies name_before(
                s,
                #[trigger] full[k] as int,
                #[trigger] full[l] as int,
            ) by {
                if l < at {
                    assert(name_before(s, before[k] as int, before[l] as int));
                } else if l == at {
                    assert(name_before(s, before[k] as int, i as int));
                } else if k == at {
                    assert(name_before(s, i as int, before[l - 1] as int));
                } else if k < at {
                    assert(name_before(s, before[k] as int, before[l - 1] as int));
                } else {
                    assert(name_before(s, before[k - 1] as int, before[l - 1] as int));
                }
            }
            assert forall|j: int| 0 <= j < i + 1 implies #[trigger] full.contains(j as usize) by {
                if j == i {
                    assert(full[at as int] == i);
                } else {
                    assert(before.contains(j as usize));
                    let w = before.index_of(j as usize);
                    if w < at {
                        assert(full[w] == j as usize);
                    } else {
                        assert(full[w + 1] == j as usize);
                    }
                }
            }
        }
        i += 1;
    }
    o
}

/// An order by keys is one of all positions, each once, with the keys never falling; what has the
/// same key keeps its order.
pub proof fn law_ordered_keys_never_fall(keys: Seq<u64>, o: Seq<usize>, k: int, l: int)
    requires
        is_stable_order(keys, o),
        0 <= k < l < o.len(),
    ensures
        keys[o[k] as int] <= keys[o[l] as int],
        keys[o[k] as int] == keys[o[l] as int] ==> o[k] < o[l],
        o.len() == keys.len(),
        o.no_duplicates(),
{
    assert(comes_before(keys, o[k] as int, o[l] as int));
    assert forall|i: int, j: int| 0 <= i < o.len() && 0 <= j < o.len() && i != j implies o[i]
        != o[j] by {
        if i < j {
            assert(comes_before(keys, o[i] as int, o[j] as int));
        } else {
            assert(comes_before(keys, o[j] as int, o[i] as int));
        }
    }
}

/// An order by names is one of all positions, each once, with no name after one that it precedes;
/// equal names keep their order.
pub proof fn law_ordered_names_never_fall(names: Seq<Seq<char>>, o: Seq<usize>, k: int, l: int)
    requires
        is_name_order(names, o),
        0 <= k < l < o.len(),
    ensures
        !text_lt(names[o[l] as int], names[o[k] as int]),
        names[o[k] as int] == names[o[l] as int] ==> o[k] < o[l],
        o.len() == names.len(),
        o.no_duplicates(),
{
    let a = names[o[k] as int];
    let b = names[o[l] as int];
    assert(name_before(names, o[k] as int, o[l] as int));
    lemma_lt_irreflexive(a);
    if text_lt(b, a) && text_lt(a, b) {
        lemma_lt_transitive(a, b, a);
    }
    assert forall|i: int, j: int| 0 <= i < o.len() && 0 <= j < o.len() && i != j implies o[i]
        != o[j] by {
        lemma_lt_irreflexive(names[o[i] as int]);
        if i < j {
            assert(name_before(names, o[i] as int, o[j] as int));
        } else {
            assert(name_before(names, o[j] as int, o[i] as int));
        }
    }
}

} // verus!
