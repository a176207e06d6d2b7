//! Step journal for multi-step operations, to tell later where a crash happened.

use vstd::prelude::*;

use crate::util::paths::path_join;
#[allow(unused_imports)]
use crate::util::paths::joined_path;
use crate::util::strmap::StrMap;
use crate::util::time::Timestamp;

verus! {

pub struct JournalEntry {
    pub op: String,
    pub step: u32,
    pub started: Timestamp,
    pub updated: Timestamp,
    pub data: StrMap<String>,
}

/// Where the journal of a directory is.
pub fn path_in(dir: &str) -> (r: String)
    ensures
        r@ == joined_path(dir@, "op.journal"@),
{
    path_join(dir, "op.journal")
}

/// Values by their keys; of two values with one key the later counts.
pub open spec fn values_of(data: Seq<(String, String)>) -> Map<Seq<char>, String>
    decreases data.len(),
{
    if data.len() == 0 {
        Map::empty()
    } else {
        values_of(data.drop_last()).insert(data.last().0@, data.last().1)
    }
}

impl JournalEntry {
    /// The entry of an operation that begins, with what is to be remembered of it.
    pub fn begin(op: &str, data: Vec<(String, String)>, now: Timestamp) -> (r: JournalEntry)
        ensures
            r.op@ == op@,
            r.step == 0,
            r.started == now,
            r.updated == now,
            r.data@ == values_of(data@),
    {
        let mut values: StrMap<String> = StrMap::new();
        let mut i: usize = 0;
        assert(data@.take(0) =~= Seq::<(String, String)>::empty());
        while i < data.len()
            invariant
                i <= data@.len(),
                values@ == values_of(data@.take(i as int)),
            decreases data@.len() - i,
        {
            assert(data@.take(i + 1).drop_last() =~= data@.take(i as int));
            values.insert(data[i].0.clone(), data[i].1.clone());
            i += 1;
        }
        assert(data@.take(i as int) =~= data@);
        JournalEntry { op: op.to_owned(), step: 0, started: now, updated: now, data: values }
    }

    /// The operation has come to step `n`.
    pub fn step(&mut self, n: u32, now: Timestamp)
        ensures
            *final(self) == (JournalEntry { step: n, updated: now, ..*old(self) }),
    {
        self.step = n;
        self.updated = now;
    }

    /// Remembers a value.
    pub fn set(&mut self, key: &str, value: String)
        ensures
            final(self).data@ == old(self).data@.insert(key@, value),
            *final(self) == (JournalEntry { data: final(self).data, ..*old(self) }),
    {
        self.data.insert(key.to_owned(), value);
    }
}

/// Of two values that are given for one key the later is remembered, and nothing else is.
pub proof fn law_later_values_are_remembered(
    data: Seq<(String, String)>,
    k: String,
    v: String,
    other: Seq<char>,
)
    ensures
        values_of(Seq::empty()) == Map::<Seq<char>, String>::empty(),
        values_of(data.push((k, v))).contains_key(k@),
        values_of(data.push((k, v)))[k@] == v,
        other != k@ ==> (values_of(data.push((k, v))).contains_key(other) <==> values_of(
            data,
        ).contains_key(other)),
        other != k@ && values_of(data).contains_key(other) ==> values_of(data.push((k, v)))[other]
            == values_of(data)[other],
{
    assert(data.push((k, v)).drop_last() =~= data);
}

} // verus!
