//! What the kernel says of processes.

use vstd::prelude::*;

#[allow(unused_imports)]
use crate::util::text::{lines_of, oct, starts, texts, trimmed};
use crate::util::text::{chars_of, lines, strip_prefix, trim};

verus! {

/// The value of the first line that begins with `key`.
pub open spec fn value_of(l: Seq<Seq<char>>, key: Seq<char>) -> Option<Seq<char>>
    decreases l.len(),
{
    if l.len() == 0 {
        None
    } else if starts(l[0], key) {
        Some(trimmed(l[0].skip(key.len() as int)))
    } else {
        value_of(l.skip(1), key)
    }
}

pub open spec fn is_octal(c: char) -> bool {
    '0' <= c && c <= '7'
}

/// Flags in octal that ask for more than reading: their last two bits are not both clear.
pub open spec fn asks_to_write(flags: Seq<char>) -> bool {
    &&& flags.len() > 0
    &&& forall|i: int| 0 <= i < flags.len() ==> is_octal(#[trigger] flags[i])
    &&& flags.last() != '0'
    &&& flags.last() != '4'
}

/// Whether a file was opened for writing, by the text of its `fdinfo`.
pub fn opened_for_writing(fdinfo: &str) -> (r: bool)
    ensures
        r == match value_of(lines_of(fdinfo@), "flags:"@) {
            Some(v) => asks_to_write(v),
            None => false,
        },
{
    let l = lines(fdinfo);
    let ghost all = lines_of(fdinfo@);
    let mut i: usize = 0;
    assert(all.skip(0) =~= all);
    while i < l.len()
        invariant
            i <= l@.len(),
            all == lines_of(fdinfo@),
            texts(l@) == all,
            value_of(all, "flags:"@) == value_of(all.skip(i as int), "flags:"@),
        decreases l@.len() - i,
    {
        assert(all[i as int] == l@[i as int]@);
        assert(all.skip(i as int)[0] == all[i as int]);
        assert(all.skip(i as int).skip(1) =~= all.skip(i + 1));
        match strip_prefix(l[i].as_str(), "flags:") {
            Some(rest) => {
                return all_octal_writing(trim(rest.as_str()).as_str());
            },
            None => {},
        }
        i += 1;
    }
    assert(all.skip(i as int).len() == 0);
    false
}

fn all_octal_writing(flags: &str) -> (r: bool)
    ensures
        r == asks_to_write(flags@),
{
    let v = chars_of(flags);
    if v.len() == 0 {
        return false;
    }
    let mut i: usize = 0;
    while i < v.len()
        invariant
            i <= v@.len(),
            v@ == flags@,
            forall|j: int| 0 <= j < i ==> is_octal(#[trigger] flags@[j]),
        decreases v@.len() - i,
    {
        if v[i] < '0' || v[i] > '7' {
            assert(!is_octal(flags@[i as int]));
            return false;
        }
        i += 1;
    }
    let last = v[v.len() - 1];
    last != '0' && last != '4'
}

/// The number that octal digits write.
pub open spec fn octal(s: Seq<char>) -> nat
    decreases s.len(),
{
    if s.len() == 0 {
        0
    } else {
        octal(s.drop_last()) * 8 + (s.last() as nat - '0' as nat) as nat
    }
}

/// A file is open for writing where its flags leave a remainder by four: the last two bits say
/// how it was opened, and only with none of them set it is merely read.
pub proof fn law_flags_say_how_a_file_was_opened(flags: Seq<char>)
    requires
        flags.len() > 0,
        forall|i: int| 0 <= i < flags.len() ==> '0' <= #[trigger] flags[i] <= '7',
    ensures
        asks_to_write(flags) <==> octal(flags) % 4 != 0,
{
    let d = flags.last();
    assert('0' <= flags[flags.len() - 1] <= '7');
    let k = octal(flags.drop_last());
    let n = (d as nat - '0' as nat) as nat;
    assert(octal(flags) == k * 8 + n);
    assert((k * 8 + n) % 4 == n % 4);
    assert forall|i: int| 0 <= i < flags.len() implies is_octal(#[trigger] flags[i]) by {}
}

/// The first line that begins with a key gives its value.
pub proof fn law_the_first_line_with_a_key_counts(
    l: Seq<Seq<char>>,
    key: Seq<char>,
    v: Seq<char>,
    line: Seq<char>,
)
    ensures
        value_of(Seq::empty(), key) is None,
        value_of(seq![key + v] + l, key) == Some(trimmed(v)),
        !starts(line, key) ==> value_of(seq![line] + l, key) == value_of(l, key),
{
    assert((seq![key + v] + l)[0] == key + v);
    assert((key + v).take(key.len() as int) =~= key);
    assert((key + v).skip(key.len() as int) =~= v);
    assert((seq![line] + l).skip(1) =~= l);
}

/// A number in octal reads back as that number.
pub proof fn law_octal_round_trip(n: nat)
    ensures
        octal(oct(n)) == n,
        forall|i: int| 0 <= i < oct(n).len() ==> '0' <= #[trigger] oct(n)[i] <= '7',
        oct(n).len() > 0,
    decreases n,
{
    reveal_with_fuel(octal, 2);
    if n < 8 {
        assert(oct(n).drop_last() =~= Seq::<char>::empty());
    } else {
        law_octal_round_trip(n / 8);
        assert(oct(n).drop_last() =~= oct(n / 8));
        assert forall|i: int| 0 <= i < oct(n).len() implies '0' <= #[trigger] oct(n)[i] <= '7' by {
            if i < oct(n / 8).len() {
                assert(oct(n)[i] == oct(n / 8)[i]);
            }
        }
    }
}

/// Flags that are not written in octal digits say nothing of writing.
pub proof fn law_only_octal_flags_ask_to_write(flags: Seq<char>, i: int)
    requires
        0 <= i < flags.len(),
        flags[i] < '0' || flags[i] > '7',
    ensures
        !asks_to_write(flags),
{
    if asks_to_write(flags) {
        assert(is_octal(flags[i]));
    }
}

} // verus!
