//! Configuration tables: values under names, tables inside tables.

use vstd::prelude::*;

use crate::util::text::str_eq;
#[allow(unused_imports)]
use crate::util::text::texts;

verus! {

/// A value of a configuration file.
pub enum Value {
    Text(String),
    List(Vec<Value>),
    Table(Table),
    /// A number, a truth value or a date, as the file writes it.
    Other(String),
}

/// Named values; no name occurs twice.
pub struct Table {
    pub entries: Vec<(String, Value)>,
}

/// What a value means.
pub enum Model {
    Text(Seq<char>),
    List(Seq<Model>),
    Table(Map<Seq<char>, Model>),
    Other(Seq<char>),
}

/// The position of the name `k`.
pub open spec fn position(e: Seq<(String, Value)>, k: Seq<char>) -> int {
    choose|i: int| 0 <= i < e.len() && (#[trigger] e[i]).0@ == k
}

pub open spec fn has_name(e: Seq<(String, Value)>, k: Seq<char>) -> bool {
    exists|i: int| 0 <= i < e.len() && (#[trigger] e[i]).0@ == k
}

/// What a value means.
pub open spec fn model(v: Value) -> Model
    decreases v,
{
    match v {
        Value::Text(s) => Model::Text(s@),
        Value::List(l) => Model::List(
            Seq::new(
                l@.len(),
                |i: int|
                    if 0 <= i < l@.len() {
                        model(l@[i])
                    } else {
                        Model::Text(Seq::empty())
                    },
            ),
        ),
        Value::Table(t) => Model::Table(table_model(t)),
        Value::Other(s) => Model::Other(s@),
    }
}

/// The names of a table with what their values mean.
pub open spec fn table_model(t: Table) -> Map<Seq<char>, Model>
    decreases t,
{
    Map::new(
        |k: Seq<char>| has_name(t.entries@, k),
        |k: Seq<char>|
            {
                let i = position(t.entries@, k);
                if 0 <= i < t.entries@.len() {
                    model(t.entries@[i].1)
                } else {
                    Model::Text(Seq::empty())
                }
            },
    )
}

/// No table inside `v` has a name twice.
pub open spec fn wf(v: Value) -> bool
    decreases v,
{
    match v {
        Value::List(l) => forall|i: int| 0 <= i < l@.len() ==> wf(#[trigger] l@[i]),
        Value::Table(t) => table_wf(t),
        _ => true,
    }
}

/// Neither the table nor a table inside it has a name twice.
pub open spec fn table_wf(t: Table) -> bool
    decreases t,
{
    &&& distinct(t.entries@)
    &&& forall|i: int| 0 <= i < t.entries@.len() ==> wf((#[trigger] t.entries@[i]).1)
}

pub open spec fn distinct(e: Seq<(String, Value)>) -> bool {
    forall|i: int, j: int|
        0 <= i < j < e.len() ==> (#[trigger] e[i]).0@ != (#[trigger] e[j]).0@
}

/// `o` laid over `b`: tables are joined name by name, anything else is replaced.
pub open spec fn overlaid(b: Model, o: Model) -> Model
    decreases o,
{
    match (b, o) {
        (Model::Table(x), Model::Table(y)) => Model::Table(
            Map::new(
                |k: Seq<char>| x.contains_key(k) || y.contains_key(k),
                |k: Seq<char>|
                    if y.contains_key(k) {
                        if x.contains_key(k) {
                            overlaid(x[k], y[k])
                        } else {
                            y[k]
                        }
                    } else {
                        x[k]
                    },
            ),
        ),
        _ => o,
    }
}

/// Where names are distinct, each entry is what its name stands for.
pub proof fn lemma_entry(t: Table, i: int)
    requires
        distinct(t.entries@),
        0 <= i < t.entries@.len(),
    ensures
        table_model(t).contains_key(t.entries@[i].0@),
        position(t.entries@, t.entries@[i].0@) == i,
        table_model(t)[t.entries@[i].0@] == model(t.entries@[i].1),
{
    let e = t.entries@;
    let k = e[i].0@;
    assert(has_name(e, k));
    let p = position(e, k);
    assert(0 <= p < e.len() && e[p].0@ == k);
    if p < i {
        assert(e[p].0@ != e[i].0@);
    } else if i < p {
        assert(e[i].0@ != e[p].0@);
    }
}

/// An entry at the end adds its name.
pub proof fn lemma_push_entry(t: Table, u: Table, k: String, v: Value)
    requires
        distinct(t.entries@),
        !has_name(t.entries@, k@),
        u.entries@ == t.entries@.push((k, v)),
    ensures
        distinct(u.entries@),
        table_model(u) == table_model(t).insert(k@, model(v)),
{
    let e = t.entries@;
    let f = u.entries@;
    assert forall|i: int, j: int| 0 <= i < j < f.len() implies (#[trigger] f[i]).0@ != (
    #[trigger] f[j]).0@ by {
        assert(f[i] == e[i]);
        if j < e.len() {
            assert(f[j] == e[j]);
        }
    }
    assert forall|n: Seq<char>| has_name(f, n) <==> (has_name(e, n) || n == k@) by {
        if has_name(e, n) {
            let i = position(e, n);
            assert(f[i].0@ == n);
        }
        if has_name(f, n) {
            let i = position(f, n);
            if i < e.len() {
                assert(e[i].0@ == n);
            }
        }
        assert(f[e.len() as int].0@ == k@);
    }
    assert(table_model(u) =~= table_model(t).insert(k@, model(v))) by {
        lemma_entry(u, e.len() as int);
        assert forall|n: Seq<char>| has_name(e, n) implies table_model(u)[n] == table_model(t)[n] by {
            let i = position(e, n);
            assert(f[i] == e[i]);
            lemma_entry(t, i);
            lemma_entry(u, i);
        }
    }
}

/// A replaced value is what its name stands for; nothing else changes.
pub proof fn lemma_set_entry(t: Table, u: Table, i: int, v: Value)
    requires
        distinct(t.entries@),
        0 <= i < t.entries@.len(),
        u.entries@.len() == t.entries@.len(),
        forall|j: int|
            0 <= j < t.entries@.len() ==> (#[trigger] u.entries@[j]).0@ == t.entries@[j].0@,
        forall|j: int|
            0 <= j < t.entries@.len() && j != i ==> model((#[trigger] u.entries@[j]).1) == model(
                t.entries@[j].1,
            ),
        u.entries@[i].1 == v,
    ensures
        distinct(u.entries@),
        table_model(u) == table_model(t).insert(t.entries@[i].0@, model(v)),
{
    let e = t.entries@;
    let f = u.entries@;
    assert forall|n: Seq<char>| has_name(f, n) <==> has_name(e, n) by {
        if has_name(e, n) {
            let j = position(e, n);
            assert(f[j].0@ == n);
        }
        if has_name(f, n) {
            let j = position(f, n);
            assert(e[j].0@ == n);
        }
    }
    assert forall|a: int, b: int| 0 <= a < b < f.len() implies (#[trigger] f[a]).0@ != (
    #[trigger] f[b]).0@ by {
        assert(e[a].0@ != e[b].0@);
    }
    assert(table_model(u) =~= table_model(t).insert(e[i].0@, model(v))) by {
        lemma_entry(u, i);
        lemma_entry(t, i);
        assert(f[i].0@ == e[i].0@);
        assert forall|n: Seq<char>| has_name(e, n) && n != e[i].0@ implies table_model(u)[n]
            == table_model(t)[n] by {
            let j = position(e, n);
            lemma_entry(t, j);
            lemma_entry(u, j);
            assert(f[j].0@ == e[j].0@);
        }
    }
}

/// A copy of a value.
pub fn copy_value(v: &Value) -> (r: Value)
    requires
        wf(*v),
    ensures
        model(r) == model(*v),
        wf(r),
    decreases v,
{
    match v {
        Value::Text(s) => Value::Text(s.clone()),
        Value::Other(s) => Value::Other(s.clone()),
        Value::Table(t) => Value::Table(copy_table(t)),
        Value::List(l) => Value::List(copy_values(l)),
    }
}

fn copy_values(l: &Vec<Value>) -> (r: Vec<Value>)
    requires
        wf(Value::List(*l)),
    ensures
        model(Value::List(r)) == model(Value::List(*l)),
        wf(Value::List(r)),
    decreases l,
{
    let mut out: Vec<Value> = Vec::new();
    let mut i: usize = 0;
    while i < l.len()
        invariant
            i <= l@.len(),
            wf(Value::List(*l)),
            out@.len() == i,
            forall|k: int| 0 <= k < i ==> model(#[trigger] out@[k]) == model(l@[k]),
            forall|k: int| 0 <= k < i ==> wf(#[trigger] out@[k]),
        decreases l@.len() - i,
    {
        let ghost x = Value::List(*l);
        assert(x->List_0@[i as int] == l@[i as int]);
        let c = copy_value(&l[i]);
        out.push(c);
        i += 1;
    }
    proof {
        let a = model(Value::List(out))->List_0;
        let b = model(Value::List(*l))->List_0;
        assert(a =~= b) by {
            assert forall|k: int| 0 <= k < a.len() implies a[k] == b[k] by {
                assert(model(out@[k]) == model(l@[k]));
            }
        }
    }
    out
}

/// A copy of a table.
pub fn copy_table(t: &Table) -> (r: Table)
    requires
        table_wf(*t),
    ensures
        table_model(r) == table_model(*t),
        table_wf(r),
    decreases t,
{
    let mut out: Vec<(String, Value)> = Vec::new();
    let mut i: usize = 0;
    while i < t.entries.len()
        invariant
            i <= t.entries@.len(),
            out@.len() == i,
            forall|k: int|
                0 <= k < i ==> (#[trigger] out@[k]).0@ == t.entries@[k].0@ && model(out@[k].1)
                    == model(t.entries@[k].1),
            forall|k: int| 0 <= k < i ==> wf((#[trigger] out@[k]).1),
            table_wf(*t),
        decreases t.entries@.len() - i,
    {
        let c = copy_value(&t.entries[i].1);
        out.push((t.entries[i].0.clone(), c));
        i += 1;
    }
    let r = Table { entries: out };
    proof {
        let e = t.entries@;
        let f = r.entries@;
        assert forall|n: Seq<char>| has_name(f, n) <==> has_name(e, n) by {
            if has_name(e, n) {
                let j = position(e, n);
                assert(f[j].0@ == n);
            }
            if has_name(f, n) {
                let j = position(f, n);
                assert(e[j].0@ == n);
            }
        }
        assert forall|a: int, b: int| 0 <= a < b < f.len() implies (#[trigger] f[a]).0@ != (
        #[trigger] f[b]).0@ by {
            assert(e[a].0@ != e[b].0@);
        }
        assert(table_model(r) =~= table_model(*t)) by {
            assert forall|n: Seq<char>| has_name(e, n) implies table_model(r)[n] == table_model(
                *t,
            )[n] by {
                let j = position(e, n);
                lemma_entry(*t, j);
                lemma_entry(r, j);
                assert(f[j].0@ == e[j].0@);
            }
        }
    }
    r
}

/// The position of the name `k` in a table.
pub fn find_name(t: &Table, k: &str) -> (r: Option<usize>)
    ensures
        match r {
            Some(i) => i < t.entries@.len() && t.entries@[i as int].0@ == k@,
            None => !has_name(t.entries@, k@),
        },
{
    let mut i: usize = 0;
    while i < t.entries.len()
        invariant
            i <= t.entries@.len(),
            forall|j: int| 0 <= j < i ==> (#[trigger] t.entries@[j]).0@ != k@,
        decreases t.entries@.len() - i,
    {
        if str_eq(t.entries[i].0.as_str(), k) {
            return Some(i);
        }
        i += 1;
    }
    None
}

} // verus!
