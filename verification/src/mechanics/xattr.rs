//! Extended attributes: the names in the list that the kernel gives, and which failures count.

use vstd::prelude::*;

use crate::outside;
use crate::util::text::{cat2, cat4};

verus! {

/// The names in a list: each ends at a zero byte, and empty ones are none.
pub open spec fn names_in(b: Seq<u8>, n: int) -> (Seq<Seq<u8>>, Seq<u8>)
    decreases n,
{
    if n <= 0 {
        (Seq::empty(), Seq::empty())
    } else {
        let (done, cur) = names_in(b, n - 1);
        if b[n - 1] != 0 {
            (done, cur.push(b[n - 1]))
        } else if cur.len() == 0 {
            (done, cur)
        } else {
            (done.push(cur), Seq::empty())
        }
    }
}

/// All names in a list, the last one whether or not a zero byte ends it.
pub open spec fn names_of(b: Seq<u8>) -> Seq<Seq<u8>> {
    let (done, cur) = names_in(b, b.len() as int);
    if cur.len() == 0 {
        done
    } else {
        done.push(cur)
    }
}

/// The bytes of names.
pub open spec fn bytes_of(v: Seq<Vec<u8>>) -> Seq<Seq<u8>> {
    Seq::new(v.len(), |i: int| v[i]@)
}

/// The names in a list that the kernel gives.
pub fn names(list: &Vec<u8>) -> (r: Vec<Vec<u8>>)
    ensures
        bytes_of(r@) == names_of(list@),
{
    let mut out: Vec<Vec<u8>> = Vec::new();
    let mut cur: Vec<u8> = Vec::new();
    let mut i: usize = 0;
    assert(bytes_of(out@) =~= Seq::<Seq<u8>>::empty());
    while i < list.len()
        invariant
            i <= list@.len(),
            (bytes_of(out@), cur@) == names_in(list@, i as int),
        decreases list@.len() - i,
    {
        let ghost before = bytes_of(out@);
        if list[i] != 0 {
            cur.push(list[i]);
        } else if cur.len() > 0 {
            out.push(cur);
            assert(bytes_of(out@) =~= before.push(cur@));
            cur = Vec::new();
        }
        i += 1;
    }
    if cur.len() > 0 {
        let ghost before = bytes_of(out@);
        out.push(cur);
        assert(bytes_of(out@) =~= before.push(cur@));
    }
    out
}

/// What becomes of an attribute that could not be set: some need privileges or a file system that
/// has them, and those are left out.
pub fn set_failed(
    denied: bool,
    unsupported: bool,
    name: &Vec<u8>,
    dst: &str,
    error: &str,
) -> (r: Result<(), String>)
    ensures
        match r {
            Ok(_) => denied || unsupported,
            Err(m) => !denied && !unsupported && m@ == "setxattr "@ + outside::lossy(name@)
                + " on "@ + dst@ + ": "@ + error@,
        },
{
    if denied || unsupported {
        return Ok(());
    }
    let text = outside::from_utf8_lossy(name.as_slice());
    let m = cat4("setxattr ", text.as_str(), " on ", dst);
    Err(cat2(cat2(m.as_str(), ": ").as_str(), error))
}

/// A name that a zero byte ends is the first of the list, and the rest are those of what comes
/// after it; a list that holds no zero byte is one name.
pub proof fn law_names_end_at_zero_bytes(name: Seq<u8>, rest: Seq<u8>)
    requires
        name.len() > 0,
        forall|i: int| 0 <= i < name.len() ==> #[trigger] name[i] != 0,
    ensures
        names_of(name) == seq![name],
        names_of(name.push(0) + rest) == seq![name] + names_of(rest),
        names_of(rest.insert(0, 0)) == names_of(rest),
        names_of(Seq::empty()).len() == 0,
{
    let b = name.push(0) + rest;
    lemma_unbroken(name, name, name.len() as int);
    lemma_unbroken(b, name, name.len() as int);
    assert(b[name.len() as int] == 0);
    assert(name.take(name.len() as int) =~= name);
    assert(Seq::<Seq<u8>>::empty().push(name) =~= seq![name]);
    assert(names_in(b, name.len() as int + 1) == (seq![name], Seq::<u8>::empty()));
    lemma_rest(b, rest, name.len() as int + 1, seq![name], rest.len() as int);
    let z = rest.insert(0, 0);
    assert(names_in(z, 0) == (Seq::<Seq<u8>>::empty(), Seq::<u8>::empty()));
    assert(names_in(z, 1) == (Seq::<Seq<u8>>::empty(), Seq::<u8>::empty()));
    lemma_rest(z, rest, 1, Seq::empty(), rest.len() as int);
    let (done, cur) = names_in(rest, rest.len() as int);
    assert((seq![name] + done).push(cur) =~= seq![name] + done.push(cur));
    assert(Seq::<Seq<u8>>::empty() + done =~= done);
}

proof fn lemma_unbroken(b: Seq<u8>, name: Seq<u8>, n: int)
    requires
        0 <= n <= name.len() <= b.len(),
        forall|i: int| 0 <= i < name.len() ==> #[trigger] name[i] != 0 && b[i] == name[i],
    ensures
        names_in(b, n) == (Seq::<Seq<u8>>::empty(), name.take(n)),
    decreases n,
{
    if n > 0 {
        lemma_unbroken(b, name, n - 1);
        assert(name[n - 1] != 0);
        assert(name.take(n - 1).push(b[n - 1]) =~= name.take(n));
    } else {
        assert(name.take(0) =~= Seq::<u8>::empty());
    }
}

proof fn lemma_rest(b: Seq<u8>, rest: Seq<u8>, at: int, first: Seq<Seq<u8>>, n: int)
    requires
        0 <= at,
        b.len() == at + rest.len(),
        forall|i: int| 0 <= i < rest.len() ==> b[at + i] == #[trigger] rest[i],
        names_in(b, at) == (first, Seq::<u8>::empty()),
        0 <= n <= rest.len(),
    ensures
        names_in(b, at + n) == (first + names_in(rest, n).0, names_in(rest, n).1),
    decreases n,
{
    if n > 0 {
        lemma_rest(b, rest, at, first, n - 1);
        assert(b[at + (n - 1)] == rest[n - 1]);
        let (done, cur) = names_in(rest, n - 1);
        assert((first + done).push(cur) =~= first + done.push(cur));
    } else {
        assert(first + Seq::<Seq<u8>>::empty() =~= first);
    }
}

} // verus!
