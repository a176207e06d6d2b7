//! Text as a sequence of characters: comparison, search, joining and decimal numbers.

use vstd::prelude::*;

verus! {

/// `String::push` appends one character.
pub assume_specification[ String::push ](s: &mut String, c: char)
    ensures
        final(s)@ == old(s)@.push(c),
;

/// The characters of `s`, in order.
pub fn chars_of(s: &str) -> (r: Vec<char>)
    ensures
        r@ == s@,
{
    let mut out: Vec<char> = Vec::new();
    for c in it: s.chars()
        invariant
            out@ == it.seq().take(it.index() as int),
            it.seq() == s@,
    {
        out.push(c);
    }
    assert(out@ =~= s@);
    out
}

/// The text made of `v[from..to]`.
pub fn string_of(v: &Vec<char>, from: usize, to: usize) -> (r: String)
    requires
        from <= to <= v@.len(),
    ensures
        r@ == v@.subrange(from as int, to as int),
{
    let mut out = String::new();
    let mut i: usize = from;
    while i < to
        invariant
            from <= i <= to <= v@.len(),
            out@ == v@.subrange(from as int, i as int),
        decreases to - i,
    {
        out.push(v[i]);
        i += 1;
    }
    out
}

/// Whether two texts hold the same characters.
pub fn str_eq(a: &str, b: &str) -> (r: bool)
    ensures
        r == (a@ == b@),
{
    let x = chars_of(a);
    let y = chars_of(b);
    if x.len() != y.len() {
        return false;
    }
    let mut i: usize = 0;
    while i < x.len()
        invariant
            i <= x@.len(),
            x@ == a@,
            y@ == b@,
            x@.len() == y@.len(),
            x@.take(i as int) == y@.take(i as int),
        decreases x@.len() - i,
    {
        if x[i] != y[i] {
            return false;
        }
        assert(x@.take(i + 1) =~= x@.take(i as int).push(x@[i as int]));
        assert(y@.take(i + 1) =~= y@.take(i as int).push(y@[i as int]));
        i += 1;
    }
    assert(x@ =~= x@.take(i as int));
    assert(y@ =~= y@.take(i as int));
    true
}

/// `a` followed by `b`.
pub fn cat2(a: &str, b: &str) -> (r: String)
    ensures
        r@ == a@ + b@,
{
    let mut r = a.to_owned();
    r.append(b);
    r
}

/// `a`, `b` and `c` in a row.
pub fn cat3(a: &str, b: &str, c: &str) -> (r: String)
    ensures
        r@ == a@ + b@ + c@,
{
    let mut r = a.to_owned();
    r.append(b);
    r.append(c);
    r
}

/// `a`, `b`, `c` and `d` in a row.
pub fn cat4(a: &str, b: &str, c: &str, d: &str) -> (r: String)
    ensures
        r@ == a@ + b@ + c@ + d@,
{
    let mut r = cat3(a, b, c);
    r.append(d);
    r
}

/// `a`, `b`, `c`, `d` and `e` in a row.
pub fn cat5(a: &str, b: &str, c: &str, d: &str, e: &str) -> (r: String)
    ensures
        r@ == a@ + b@ + c@ + d@ + e@,
{
    let mut r = cat4(a, b, c, d);
    r.append(e);
    r
}

/// The decimal digits of `n`, without leading zeros; `0` for zero.
pub open spec fn dec(n: nat) -> Seq<char>
    decreases n,
{
    if n < 10 {
        seq![digit(n)]
    } else {
        dec(n / 10).push(digit(n % 10))
    }
}

/// The character of a digit below ten.
pub open spec fn digit(d: nat) -> char {
    (48 + d) as char
}

fn digit_char(d: u64) -> (c: char)
    requires
        d < 10,
    ensures
        c == digit(d as nat),
{
    let b: u8 = 48 + d as u8;
    b as char
}

/// `n` in decimal.
pub fn dec_u64(n: u64) -> (r: String)
    ensures
        r@ == dec(n as nat),
    decreases n,
{
    if n < 10 {
        let mut s = String::new();
        s.push(digit_char(n));
        assert(s@ =~= seq![digit(n as nat)]);
        s
    } else {
        let mut s = dec_u64(n / 10);
        s.push(digit_char(n % 10));
        s
    }
}

/// `n` in decimal.
pub fn dec_u128(n: u128) -> (r: String)
    ensures
        r@ == dec(n as nat),
    decreases n,
{
    if n < 10 {
        dec_u64(n as u64)
    } else {
        let mut s = dec_u128(n / 10);
        s.push(digit_char((n % 10) as u64));
        s
    }
}

/// `n` in decimal, with a minus sign where it is negative.
pub open spec fn dec_int(n: int) -> Seq<char> {
    if n < 0 {
        "-"@ + dec((-n) as nat)
    } else {
        dec(n as nat)
    }
}

/// `n` in decimal, with a minus sign where it is negative.
pub fn dec_i32(n: i32) -> (r: String)
    ensures
        r@ == dec_int(n as int),
{
    if n < 0 {
        let m: i64 = -(n as i64);
        cat2("-", dec_u64(m as u64).as_str())
    } else {
        dec_u64(n as u64)
    }
}

/// The value of a run of decimal digits.
pub open spec fn value(s: Seq<char>) -> nat
    decreases s.len(),
{
    if s.len() == 0 {
        0
    } else {
        value(s.drop_last()) * 10 + (s.last() as nat - 48) as nat
    }
}

pub open spec fn is_digit(c: char) -> bool {
    '0' <= c <= '9'
}

pub open spec fn all_digits(s: Seq<char>) -> bool {
    forall|i: int| 0 <= i < s.len() ==> is_digit(#[trigger] s[i])
}

/// The digits of a number as it is written: a leading plus sign is dropped.
pub open spec fn unsigned_part(s: Seq<char>) -> Seq<char> {
    if s.len() > 0 && s[0] == '+' {
        s.skip(1)
    } else {
        s
    }
}

/// The number that `s` writes in decimal, where it is one and does not exceed `max`.
pub open spec fn parsed(s: Seq<char>, max: nat) -> Option<nat> {
    let d = unsigned_part(s);
    if d.len() > 0 && all_digits(d) && value(d) <= max {
        Some(value(d))
    } else {
        None
    }
}

/// A longer run of digits has at least the value of its beginning.
proof fn lemma_value_prefix(s: Seq<char>, i: int)
    requires
        0 <= i <= s.len(),
        all_digits(s),
    ensures
        value(s.take(i)) <= value(s),
    decreases s.len() - i,
{
    if i < s.len() {
        lemma_value_prefix(s, i + 1);
        assert(s.take(i + 1).drop_last() =~= s.take(i));
        assert(is_digit(s[i]));
    } else {
        assert(s.take(i) =~= s);
    }
}

/// The number written in `s`, if `s` is a decimal number that fits in 64 bits.
pub fn parse_u64(s: &str) -> (r: Option<u64>)
    ensures
        match r {
            Some(n) => parsed(s@, u64::MAX as nat) == Some(n as nat),
            None => parsed(s@, u64::MAX as nat) is None,
        },
{
    let v = chars_of(s);
    let start: usize = if v.len() > 0 && v[0] == '+' {
        1
    } else {
        0
    };
    let ghost d = unsigned_part(s@);
    assert(d =~= v@.skip(start as int));
    if start == v.len() {
        return None;
    }
    let mut n: u64 = 0;
    let mut i: usize = start;
    while i < v.len()
        invariant
            start <= i <= v@.len(),
            start <= 1,
            d == v@.skip(start as int),
            d == unsigned_part(s@),
            n == value(d.take(i - start)),
            forall|k: int| 0 <= k < i - start ==> is_digit(#[trigger] d[k]),
        decreases v@.len() - i,
    {
        let c = v[i];
        assert(d[i - start] == c);
        if c < '0' || c > '9' {
            assert(!is_digit(d[i - start]));
            return None;
        }
        let x: u64 = c as u64 - 48;
        proof {
            assert(d.take(i - start + 1).drop_last() =~= d.take(i - start));
            assert(d.take(i - start + 1).last() == c);
            if all_digits(d) {
                lemma_value_prefix(d, i - start + 1);
            }
        }
        if n > (u64::MAX - x) / 10 {
            assert(n * 10 + x > u64::MAX);
            return None;
        }
        n = n * 10 + x;
        i += 1;
    }
    assert(d.take(d.len() as int) =~= d);
    Some(n)
}

/// The number written in `s`, if `s` is a decimal number that fits in 32 bits.
pub fn parse_u32(s: &str) -> (r: Option<u32>)
    ensures
        match r {
            Some(n) => parsed(s@, u32::MAX as nat) == Some(n as nat),
            None => parsed(s@, u32::MAX as nat) is None,
        },
{
    match parse_u64(s) {
        Some(n) => if n <= u32::MAX as u64 {
            Some(n as u32)
        } else {
            None
        },
        None => None,
    }
}

pub proof fn lemma_dec_digits(n: nat)
    ensures
        dec(n).len() > 0,
        all_digits(dec(n)),
        value(dec(n)) == n,
        dec(n)[0] != '+',
    decreases n,
{
    reveal_with_fuel(value, 2);
    if n < 10 {
        assert(dec(n).drop_last() =~= Seq::<char>::empty());
    } else {
        lemma_dec_digits(n / 10);
        assert(dec(n).drop_last() =~= dec(n / 10));
        assert forall|i: int| 0 <= i < dec(n).len() implies is_digit(#[trigger] dec(n)[i]) by {
            if i < dec(n).len() - 1 {
                assert(is_digit(dec(n / 10)[i]));
            }
        }
    }
}

/// Reading back a written number gives the number.
pub proof fn law_number_round_trip(n: nat, max: nat)
    requires
        n <= max,
    ensures
        parsed(dec(n), max) == Some(n),
{
    lemma_dec_digits(n);
}

/// The texts of a vector of strings.
pub open spec fn texts(v: Seq<String>) -> Seq<Seq<char>> {
    Seq::new(v.len(), |i: int| v[i]@)
}

/// The pieces of `s` between the characters at which `at` holds: one more than there are such
/// characters.
pub open spec fn pieces(s: Seq<char>, at: spec_fn(char) -> bool) -> Seq<Seq<char>>
    decreases s.len(),
{
    if s.len() == 0 {
        seq![Seq::<char>::empty()]
    } else {
        let p = pieces(s.drop_last(), at);
        if at(s.last()) {
            p.push(Seq::empty())
        } else {
            p.drop_last().push(p.last().push(s.last()))
        }
    }
}

/// What only `c` is.
pub open spec fn just(c: char) -> spec_fn(char) -> bool {
    |x: char| x == c
}

/// The pieces of `s` between the occurrences of `c`.
pub open spec fn split_on(s: Seq<char>, c: char) -> Seq<Seq<char>> {
    pieces(s, just(c))
}

/// Splits `s` at every `c`.
pub fn split_char(s: &str, c: char) -> (r: Vec<String>)
    ensures
        texts(r@) == split_on(s@, c),
        r@.len() > 0,
{
    let v = chars_of(s);
    let mut out: Vec<String> = Vec::new();
    let mut cur = String::new();
    let mut i: usize = 0;
    assert(v@.take(0) =~= Seq::<char>::empty());
    assert(texts(out@).push(cur@) =~= split_on(v@.take(0), c));
    while i < v.len()
        invariant
            i <= v@.len(),
            texts(out@).push(cur@) == split_on(v@.take(i as int), c),
        decreases v@.len() - i,
    {
        let ghost before = texts(out@).push(cur@);
        assert(v@.take(i + 1).drop_last() =~= v@.take(i as int));
        assert(before.drop_last() =~= texts(out@));
        if v[i] == c {
            out.push(cur);
            cur = String::new();
            assert(texts(out@) =~= before);
        } else {
            cur.push(v[i]);
        }
        i += 1;
    }
    assert(v@.take(v@.len() as int) =~= s@);
    let ghost o = texts(out@).push(cur@);
    out.push(cur);
    assert(texts(out@) =~= o);
    out
}

/// Whether `c` counts as white space: the characters with the Unicode property White_Space.
pub open spec fn is_space(c: char) -> bool {
    let n = c as int;
    9 <= n <= 13 || n == 32 || n == 0x85 || n == 0xa0 || n == 0x1680 || 0x2000 <= n <= 0x200a || n
        == 0x2028 || n == 0x2029 || n == 0x202f || n == 0x205f || n == 0x3000
}

pub fn char_is_space(c: char) -> (r: bool)
    ensures
        r == is_space(c),
{
    let n: u32 = c as u32;
    9 <= n && n <= 13 || n == 32 || n == 0x85 || n == 0xa0 || n == 0x1680 || 0x2000 <= n && n
        <= 0x200a || n == 0x2028 || n == 0x2029 || n == 0x202f || n == 0x205f || n == 0x3000
}

/// The words of `s`: its pieces between white space that are not empty.
pub open spec fn words_of(s: Seq<char>) -> Seq<Seq<char>> {
    pieces(s, |x: char| is_space(x)).filter(|w: Seq<char>| w.len() > 0)
}

/// The words of `s`.
pub fn words(s: &str) -> (r: Vec<String>)
    ensures
        texts(r@) == words_of(s@),
{
    let v = chars_of(s);
    let mut out: Vec<String> = Vec::new();
    let mut cur = String::new();
    let mut i: usize = 0;
    let ghost at = |x: char| is_space(x);
    let ghost full = |w: Seq<char>| w.len() > 0;
    let ghost mut done = Seq::<Seq<char>>::empty();
    assert(v@.take(0) =~= Seq::<char>::empty());
    assert(done.push(cur@) =~= pieces(v@.take(0), at));
    proof {
        reveal(Seq::filter);
    }
    assert(texts(out@) =~= done.filter(full));
    while i < v.len()
        invariant
            i <= v@.len(),
            at == (|x: char| is_space(x)),
            full == (|w: Seq<char>| w.len() > 0),
            done.push(cur@) == pieces(v@.take(i as int), at),
            texts(out@) == done.filter(full),
        decreases v@.len() - i,
    {
        let ghost before = done.push(cur@);
        assert(v@.take(i + 1).drop_last() =~= v@.take(i as int));
        assert(before.drop_last() =~= done);
        if char_is_space(v[i]) {
            proof {
                done.lemma_filter_push(cur@, full);
            }
            let ghost o = texts(out@);
            if !cur.as_str().is_empty() {
                let ghost c = cur@;
                out.push(cur);
                assert(texts(out@) =~= o.push(c));
            }
            cur = String::new();
            proof {
                done = before;
            }
        } else {
            cur.push(v[i]);
        }
        i += 1;
    }
    assert(v@.take(v@.len() as int) =~= s@);
    proof {
        done.lemma_filter_push(cur@, full);
    }
    if !cur.as_str().is_empty() {
        let ghost o = texts(out@);
        let ghost c = cur@;
        out.push(cur);
        assert(texts(out@) =~= o.push(c));
    }
    out
}

/// `s` without the white space at its beginning.
pub open spec fn trim_start(s: Seq<char>) -> Seq<char>
    decreases s.len(),
{
    if s.len() > 0 && is_space(s[0]) {
        trim_start(s.skip(1))
    } else {
        s
    }
}

/// `s` without the white space at its end.
pub open spec fn trim_end(s: Seq<char>) -> Seq<char>
    decreases s.len(),
{
    if s.len() > 0 && is_space(s.last()) {
        trim_end(s.drop_last())
    } else {
        s
    }
}

/// `s` without the white space at both ends.
pub open spec fn trimmed(s: Seq<char>) -> Seq<char> {
    trim_end(trim_start(s))
}

/// `s` without the white space at its end.
pub fn trim_right(s: &str) -> (r: String)
    ensures
        r@ == trim_end(s@),
{
    let v = chars_of(s);
    let mut to: usize = v.len();
    assert(s@.take(to as int) =~= s@);
    while to > 0 && char_is_space(v[to - 1])
        invariant
            to <= v@.len(),
            v@ == s@,
            trim_end(s@) == trim_end(s@.take(to as int)),
        decreases to,
    {
        assert(s@.take(to as int).drop_last() =~= s@.take(to - 1));
        to -= 1;
    }
    assert(s@.take(to as int) =~= v@.subrange(0, to as int));
    string_of(&v, 0, to)
}

/// `s` without the white space at both ends.
pub fn trim(s: &str) -> (r: String)
    ensures
        r@ == trimmed(s@),
{
    let v = chars_of(s);
    let mut from: usize = 0;
    assert(s@.skip(0) =~= s@);
    while from < v.len() && char_is_space(v[from])
        invariant
            from <= v@.len(),
            v@ == s@,
            trim_start(s@) == trim_start(s@.skip(from as int)),
        decreases v@.len() - from,
    {
        assert(s@.skip(from as int).skip(1) =~= s@.skip(from + 1));
        from += 1;
    }
    let n: usize = v.len();
    assert(s@.skip(from as int) =~= v@.subrange(from as int, n as int));
    let rest = string_of(&v, from, n);
    trim_right(rest.as_str())
}

/// Whether `p` stands in `s` at position `i`.
pub open spec fn occurs(s: Seq<char>, p: Seq<char>, i: int) -> bool {
    0 <= i && i + p.len() <= s.len() && s.subrange(i, i + p.len()) == p
}

/// Whether `p` stands somewhere in `s`.
pub open spec fn has_text(s: Seq<char>, p: Seq<char>) -> bool {
    exists|i: int| occurs(s, p, i)
}

fn occurs_at(v: &Vec<char>, p: &Vec<char>, i: usize) -> (r: bool)
    ensures
        r == occurs(v@, p@, i as int),
{
    if v.len() < p.len() || i > v.len() - p.len() {
        return false;
    }
    let mut k: usize = 0;
    while k < p.len()
        invariant
            k <= p@.len(),
            i + p.len() <= v.len(),
            forall|j: int| 0 <= j < k ==> v@[i + j] == #[trigger] p@[j],
        decreases p@.len() - k,
    {
        if v[i + k] != p[k] {
            assert(v@.subrange(i as int, i + p@.len())[k as int] != p@[k as int]);
            return false;
        }
        k += 1;
    }
    assert(v@.subrange(i as int, i + p@.len()) =~= p@);
    true
}

/// The first position at which `p` stands in `s`.
pub fn find(s: &str, p: &str) -> (r: Option<usize>)
    ensures
        match r {
            Some(i) => occurs(s@, p@, i as int) && forall|j: int|
                0 <= j < i ==> !#[trigger] occurs(s@, p@, j),
            None => !has_text(s@, p@),
        },
{
    let v = chars_of(s);
    let q = chars_of(p);
    if q.len() > v.len() {
        return None;
    }
    let last: usize = v.len() - q.len();
    let mut i: usize = 0;
    loop
        invariant
            i <= last,
            last == v@.len() - q@.len(),
            v@ == s@,
            q@ == p@,
            forall|j: int| 0 <= j < i ==> !#[trigger] occurs(s@, p@, j),
        decreases last - i,
    {
        if occurs_at(&v, &q, i) {
            return Some(i);
        }
        if i == last {
            return None;
        }
        i += 1;
    }
}

/// Whether `p` stands somewhere in `s`.
pub fn contains(s: &str, p: &str) -> (r: bool)
    ensures
        r == has_text(s@, p@),
{
    find(s, p).is_some()
}

pub open spec fn starts(s: Seq<char>, p: Seq<char>) -> bool {
    p.len() <= s.len() && s.take(p.len() as int) == p
}

pub open spec fn ends(s: Seq<char>, p: Seq<char>) -> bool {
    p.len() <= s.len() && s.skip(s.len() - p.len()) == p
}

pub fn starts_with(s: &str, p: &str) -> (r: bool)
    ensures
        r == starts(s@, p@),
{
    let v = chars_of(s);
    let q = chars_of(p);
    assert(q@.len() <= v@.len() ==> v@.take(q@.len() as int) =~= v@.subrange(0, q@.len() as int));
    occurs_at(&v, &q, 0)
}

pub fn ends_with(s: &str, p: &str) -> (r: bool)
    ensures
        r == ends(s@, p@),
{
    let v = chars_of(s);
    let q = chars_of(p);
    if q.len() > v.len() {
        return false;
    }
    let at: usize = v.len() - q.len();
    assert(v@.skip(at as int) =~= v@.subrange(at as int, at + q@.len()));
    occurs_at(&v, &q, at)
}

/// What follows `p` in `s`, if `s` begins with `p`.
pub fn strip_prefix(s: &str, p: &str) -> (r: Option<String>)
    ensures
        match r {
            Some(t) => starts(s@, p@) && t@ == s@.skip(p@.len() as int),
            None => !starts(s@, p@),
        },
{
    if !starts_with(s, p) {
        return None;
    }
    let v = chars_of(s);
    let q = chars_of(p);
    let from: usize = q.len();
    let to: usize = v.len();
    assert(v@.subrange(from as int, to as int) =~= s@.skip(p@.len() as int));
    Some(string_of(&v, from, to))
}

/// What precedes `p` in `s`, if `s` ends with `p`.
pub fn strip_suffix(s: &str, p: &str) -> (r: Option<String>)
    ensures
        match r {
            Some(t) => ends(s@, p@) && t@ == s@.take(s@.len() - p@.len()),
            None => !ends(s@, p@),
        },
{
    if !ends_with(s, p) {
        return None;
    }
    let v = chars_of(s);
    let q = chars_of(p);
    let to: usize = v.len() - q.len();
    assert(v@.subrange(0, to as int) =~= s@.take(s@.len() - p@.len()));
    Some(string_of(&v, 0, to))
}

/// `s` without every `p` that its end is made of.
pub open spec fn strip_all(s: Seq<char>, p: Seq<char>) -> Seq<char>
    decreases s.len(),
{
    if p.len() > 0 && ends(s, p) {
        strip_all(s.take(s.len() - p.len()), p)
    } else {
        s
    }
}

/// `s` without every `p` that its end is made of.
pub fn trim_end_matches(s: &str, p: &str) -> (r: String)
    requires
        p@.len() > 0,
    ensures
        r@ == strip_all(s@, p@),
{
    let mut cur = s.to_owned();
    loop
        invariant
            p@.len() > 0,
            strip_all(s@, p@) == strip_all(cur@, p@),
        decreases cur@.len(),
    {
        match strip_suffix(cur.as_str(), p) {
            Some(t) => {
                cur = t;
            },
            None => {
                return cur;
            },
        }
    }
}

/// A line without the carriage return before its end.
pub open spec fn without_cr(s: Seq<char>) -> Seq<char> {
    if s.len() > 0 && s.last() == '\r' {
        s.drop_last()
    } else {
        s
    }
}

/// The lines of `s`. A line ends with a line feed, which a carriage return may precede; the
/// last one need not end.
pub open spec fn lines_of(s: Seq<char>) -> Seq<Seq<char>> {
    let p = split_on(s, '\n');
    let ended = Seq::new((p.len() - 1) as nat, |i: int| without_cr(p[i]));
    if p.last().len() == 0 {
        ended
    } else {
        ended.push(p.last())
    }
}

/// The lines of `s`.
pub fn lines(s: &str) -> (r: Vec<String>)
    ensures
        texts(r@) == lines_of(s@),
{
    let p = split_char(s, '\n');
    let ghost q = split_on(s@, '\n');
    let n: usize = p.len() - 1;
    let mut out: Vec<String> = Vec::new();
    let mut i: usize = 0;
    while i < n
        invariant
            i <= n,
            n == p@.len() - 1,
            texts(p@) == q,
            texts(out@) == Seq::new(i as nat, |k: int| without_cr(q[k])),
        decreases n - i,
    {
        let ghost o = texts(out@);
        assert(q[i as int] == p@[i as int]@);
        let v = chars_of(p[i].as_str());
        let to: usize = if v.len() > 0 && v[v.len() - 1] == '\r' {
            v.len() - 1
        } else {
            v.len()
        };
        let line = string_of(&v, 0, to);
        assert(line@ =~= without_cr(q[i as int]));
        out.push(line);
        assert(texts(out@) =~= o.push(without_cr(q[i as int])));
        assert(o.push(without_cr(q[i as int])) =~= Seq::new(
            (i + 1) as nat,
            |k: int| without_cr(q[k]),
        ));
        i += 1;
    }
    assert(q.last() == p@[n as int]@);
    if !p[n].as_str().is_empty() {
        let ghost o = texts(out@);
        out.push(p[n].clone());
        assert(texts(out@) =~= o.push(q.last()));
    }
    out
}

/// Text `a` sorts before text `b`: by the first character in which they differ, a beginning
/// before what continues it.
pub open spec fn text_lt(a: Seq<char>, b: Seq<char>) -> bool
    decreases a.len(),
{
    if b.len() == 0 {
        false
    } else if a.len() == 0 {
        true
    } else if a[0] != b[0] {
        a[0] < b[0]
    } else {
        text_lt(a.skip(1), b.skip(1))
    }
}

pub proof fn lemma_lt_irreflexive(a: Seq<char>)
    ensures
        !text_lt(a, a),
    decreases a.len(),
{
    if a.len() > 0 {
        lemma_lt_irreflexive(a.skip(1));
    }
}

pub proof fn lemma_lt_transitive(a: Seq<char>, b: Seq<char>, c: Seq<char>)
    requires
        text_lt(a, b),
        text_lt(b, c),
    ensures
        text_lt(a, c),
    decreases a.len(),
{
    if a.len() > 0 && b.len() > 0 && c.len() > 0 && a[0] == b[0] && b[0] == c[0] {
        lemma_lt_transitive(a.skip(1), b.skip(1), c.skip(1));
    }
}

pub proof fn lemma_lt_total(a: Seq<char>, b: Seq<char>)
    requires
        a != b,
    ensures
        text_lt(a, b) || text_lt(b, a),
    decreases a.len(),
{
    if a.len() > 0 && b.len() > 0 {
        if a[0] == b[0] {
            if a.skip(1) == b.skip(1) {
                assert(a =~= seq![a[0]] + a.skip(1));
                assert(b =~= seq![b[0]] + b.skip(1));
                assert(false);
            }
            lemma_lt_total(a.skip(1), b.skip(1));
        }
    } else {
        if a.len() == 0 && b.len() == 0 {
            assert(a =~= b);
        }
    }
}

/// Whether `a` sorts before `b`.
pub fn str_lt(a: &str, b: &str) -> (r: bool)
    ensures
        r == text_lt(a@, b@),
{
    let x = chars_of(a);
    let y = chars_of(b);
    let mut i: usize = 0;
    assert(a@.skip(0) =~= a@);
    assert(b@.skip(0) =~= b@);
    loop
        invariant
            i <= x@.len(),
            i <= y@.len(),
            x@ == a@,
            y@ == b@,
            text_lt(a@, b@) == text_lt(a@.skip(i as int), b@.skip(i as int)),
        decreases x@.len() - i,
    {
        if i == y.len() {
            return false;
        }
        if i == x.len() {
            return true;
        }
        if x[i] != y[i] {
            return x[i] < y[i];
        }
        assert(a@.skip(i as int).skip(1) =~= a@.skip(i + 1));
        assert(b@.skip(i as int).skip(1) =~= b@.skip(i + 1));
        i += 1;
    }
}

/// The texts of `v` in a row, with `sep` between neighbours.
pub open spec fn joined(v: Seq<Seq<char>>, sep: Seq<char>) -> Seq<char>
    decreases v.len(),
{
    if v.len() == 0 {
        Seq::empty()
    } else if v.len() == 1 {
        v[0]
    } else {
        joined(v.drop_last(), sep) + sep + v.last()
    }
}

/// The texts of `v` in a row, with `sep` between neighbours.
pub fn join(v: &Vec<String>, sep: &str) -> (r: String)
    ensures
        r@ == joined(texts(v@), sep@),
{
    if v.len() == 0 {
        return String::new();
    }
    let mut out = v[0].clone();
    let mut i: usize = 1;
    assert(texts(v@).take(1) =~= seq![v@[0]@]);
    assert(joined(texts(v@).take(1), sep@) == v@[0]@);
    while i < v.len()
        invariant
            1 <= i <= v@.len(),
            out@ == joined(texts(v@).take(i as int), sep@),
        decreases v@.len() - i,
    {
        assert(texts(v@).take(i + 1).drop_last() =~= texts(v@).take(i as int));
        out.append(sep);
        out.append(v[i].as_str());
        i += 1;
    }
    assert(texts(v@).take(i as int) =~= texts(v@));
    out
}

/// Whether `s` is one of the texts in `v`.
pub fn list_has(v: &Vec<String>, s: &str) -> (r: bool)
    ensures
        r == texts(v@).contains(s@),
{
    let mut i: usize = 0;
    while i < v.len()
        invariant
            i <= v@.len(),
            forall|k: int| 0 <= k < i ==> #[trigger] texts(v@)[k] != s@,
        decreases v@.len() - i,
    {
        if str_eq(v[i].as_str(), s) {
            assert(texts(v@)[i as int] == s@);
            return true;
        }
        i += 1;
    }
    false
}

/// A copy of a vector of strings.
pub fn copy_list(v: &Vec<String>) -> (r: Vec<String>)
    ensures
        texts(r@) == texts(v@),
        r@ == v@,
{
    let mut out: Vec<String> = Vec::new();
    let mut i: usize = 0;
    while i < v.len()
        invariant
            i <= v@.len(),
            out@ == v@.take(i as int),
        decreases v@.len() - i,
    {
        out.push(v[i].clone());
        i += 1;
    }
    assert(out@ =~= v@);
    out
}

/// `s` with every occurrence of `from` replaced by `to`, taken from the left.
pub open spec fn replaced(s: Seq<char>, from: Seq<char>, to: Seq<char>) -> Seq<char>
    decreases s.len(),
{
    if s.len() == 0 || from.len() == 0 {
        s
    } else if starts(s, from) {
        to + replaced(s.skip(from.len() as int), from, to)
    } else {
        seq![s[0]] + replaced(s.skip(1), from, to)
    }
}

/// `s` with every occurrence of `from` replaced by `to`, taken from the left.
pub fn replace(s: &str, from: &str, to: &str) -> (r: String)
    requires
        from@.len() > 0,
    ensures
        r@ == replaced(s@, from@, to@),
{
    let v = chars_of(s);
    let p = chars_of(from);
    let mut out = String::new();
    let mut i: usize = 0;
    assert(s@.skip(0) =~= s@);
    assert(out@ + replaced(s@.skip(0), from@, to@) =~= replaced(s@, from@, to@));
    while i < v.len()
        invariant
            i <= v@.len(),
            v@ == s@,
            p@ == from@,
            from@.len() > 0,
            out@ + replaced(s@.skip(i as int), from@, to@) == replaced(s@, from@, to@),
        decreases v@.len() - i,
    {
        let ghost rest = s@.skip(i as int);
        let ghost have = out@;
        if occurs_at(&v, &p, i) {
            assert(rest.take(from@.len() as int) =~= s@.subrange(i as int, i + from@.len()));
            assert(rest.skip(from@.len() as int) =~= s@.skip(i + from@.len()));
            out.append(to);
            assert(have + (to@ + replaced(s@.skip(i + from@.len()), from@, to@)) =~= have + to@
                + replaced(s@.skip(i + from@.len()), from@, to@));
            i += p.len();
        } else {
            assert(from@.len() <= rest.len() ==> rest.take(from@.len() as int) =~= s@.subrange(
                i as int,
                i + from@.len(),
            ));
            assert(!starts(rest, from@));
            assert(rest.skip(1) =~= s@.skip(i + 1));
            out.push(v[i]);
            assert(out@ =~= have + seq![rest[0]]);
            assert(have + (seq![rest[0]] + replaced(s@.skip(i + 1), from@, to@)) =~= have + seq![
                rest[0],
            ] + replaced(s@.skip(i + 1), from@, to@));
            i += 1;
        }
    }
    assert(replaced(s@.skip(i as int), from@, to@) =~= Seq::<char>::empty());
    out
}

/// Splits `s` at every `a` and every `b`.
pub fn split_either(s: &str, a: char, b: char) -> (r: Vec<String>)
    ensures
        texts(r@) == pieces(s@, |x: char| x == a || x == b),
        r@.len() > 0,
{
    let v = chars_of(s);
    let ghost at = |x: char| x == a || x == b;
    let mut out: Vec<String> = Vec::new();
    let mut cur = String::new();
    let mut i: usize = 0;
    assert(v@.take(0) =~= Seq::<char>::empty());
    assert(texts(out@).push(cur@) =~= pieces(v@.take(0), at));
    while i < v.len()
        invariant
            i <= v@.len(),
            at == (|x: char| x == a || x == b),
            texts(out@).push(cur@) == pieces(v@.take(i as int), at),
        decreases v@.len() - i,
    {
        let ghost before = texts(out@).push(cur@);
        assert(v@.take(i + 1).drop_last() =~= v@.take(i as int));
        assert(before.drop_last() =~= texts(out@));
        if v[i] == a || v[i] == b {
            out.push(cur);
            cur = String::new();
            assert(texts(out@) =~= before);
        } else {
            cur.push(v[i]);
        }
        i += 1;
    }
    assert(v@.take(v@.len() as int) =~= s@);
    let ghost o = texts(out@).push(cur@);
    out.push(cur);
    assert(texts(out@) =~= o);
    out
}

/// `s` without every `c` at its beginning.
pub open spec fn char_trim_start(s: Seq<char>, c: char) -> Seq<char>
    decreases s.len(),
{
    if s.len() > 0 && s[0] == c {
        char_trim_start(s.skip(1), c)
    } else {
        s
    }
}

/// `s` without every `c` at its end.
pub open spec fn char_trim_end(s: Seq<char>, c: char) -> Seq<char>
    decreases s.len(),
{
    if s.len() > 0 && s.last() == c {
        char_trim_end(s.drop_last(), c)
    } else {
        s
    }
}

/// `s` without every `c` at both ends.
pub fn trim_char(s: &str, c: char) -> (r: String)
    ensures
        r@ == char_trim_end(char_trim_start(s@, c), c),
{
    let v = chars_of(s);
    let mut from: usize = 0;
    assert(s@.skip(0) =~= s@);
    while from < v.len() && v[from] == c
        invariant
            from <= v@.len(),
            v@ == s@,
            char_trim_start(s@, c) == char_trim_start(s@.skip(from as int), c),
        decreases v@.len() - from,
    {
        assert(s@.skip(from as int).skip(1) =~= s@.skip(from + 1));
        from += 1;
    }
    let ghost rest = s@.skip(from as int);
    let mut to: usize = v.len();
    assert(s@.subrange(from as int, to as int) =~= rest);
    while to > from && v[to - 1] == c
        invariant
            from <= to <= v@.len(),
            v@ == s@,
            char_trim_end(rest, c) == char_trim_end(s@.subrange(from as int, to as int), c),
        decreases to,
    {
        assert(s@.subrange(from as int, to as int).drop_last() =~= s@.subrange(
            from as int,
            to - 1,
        ));
        to -= 1;
    }
    string_of(&v, from, to)
}

/// The octal digits of `n`, without leading zeros; `0` for zero.
pub open spec fn oct(n: nat) -> Seq<char>
    decreases n,
{
    if n < 8 {
        seq![digit(n)]
    } else {
        oct(n / 8).push(digit(n % 8))
    }
}

/// `n` in octal.
pub fn oct_u32(n: u32) -> (r: String)
    ensures
        r@ == oct(n as nat),
    decreases n,
{
    if n < 8 {
        let mut s = String::new();
        s.push(digit_char(n as u64));
        assert(s@ =~= seq![digit(n as nat)]);
        s
    } else {
        let mut s = oct_u32(n / 8);
        s.push(digit_char((n % 8) as u64));
        s
    }
}

/// No character of a text is one at which `at` holds.
pub open spec fn unbroken(w: Seq<char>, at: spec_fn(char) -> bool) -> bool {
    forall|j: int| 0 <= j < w.len() ==> !at(#[trigger] w[j])
}

/// Nowhere in a list of texts is a character at which `at` holds.
pub open spec fn all_unbroken(v: Seq<Seq<char>>, at: spec_fn(char) -> bool) -> bool {
    forall|i: int| 0 <= i < v.len() ==> unbroken(#[trigger] v[i], at)
}

/// Pieces are unbroken, and there is at least one.
pub proof fn lemma_pieces_unbroken(s: Seq<char>, at: spec_fn(char) -> bool)
    ensures
        pieces(s, at).len() > 0,
        all_unbroken(pieces(s, at), at),
    decreases s.len(),
{
    if s.len() > 0 {
        lemma_pieces_unbroken(s.drop_last(), at);
        let p = pieces(s.drop_last(), at);
        let q = pieces(s, at);
        assert forall|i: int| 0 <= i < q.len() implies unbroken(#[trigger] q[i], at) by {
            if i < p.len() {
                assert(unbroken(p[i], at));
            }
        }
    }
}

/// A run without a break belongs to the last piece.
pub proof fn lemma_pieces_run(s: Seq<char>, t: Seq<char>, at: spec_fn(char) -> bool)
    requires
        unbroken(t, at),
    ensures
        pieces(s + t, at) == pieces(s, at).drop_last().push(pieces(s, at).last() + t),
    decreases t.len(),
{
    lemma_pieces_unbroken(s, at);
    if t.len() == 0 {
        assert(s + t =~= s);
        assert(pieces(s, at).last() + t =~= pieces(s, at).last());
        assert(pieces(s, at) =~= pieces(s, at).drop_last().push(pieces(s, at).last()));
    } else {
        lemma_pieces_run(s, t.drop_last(), at);
        assert((s + t).drop_last() =~= s + t.drop_last());
        assert(pieces(s, at).last() + t =~= (pieces(s, at).last() + t.drop_last()).push(t.last()));
        assert(pieces(s + t, at) =~= pieces(s, at).drop_last().push(pieces(s, at).last() + t));
    }
}

/// At a break the pieces of both sides follow each other.
pub proof fn lemma_pieces_break(a: Seq<char>, c: char, b: Seq<char>, at: spec_fn(char) -> bool)
    requires
        at(c),
    ensures
        pieces(a.push(c) + b, at) == pieces(a, at) + pieces(b, at),
    decreases b.len(),
{
    let s = a.push(c) + b;
    if b.len() == 0 {
        assert(s =~= a.push(c));
        assert(s.drop_last() =~= a);
        assert(pieces(s, at) =~= pieces(a, at) + pieces(b, at));
    } else {
        lemma_pieces_break(a, c, b.drop_last(), at);
        lemma_pieces_unbroken(b.drop_last(), at);
        assert(s.drop_last() =~= a.push(c) + b.drop_last());
        assert(s.last() == b.last());
        assert(pieces(s, at) =~= pieces(a, at) + pieces(b, at));
    }
}

/// Unbroken texts that are joined at a break are its pieces.
pub proof fn lemma_joined_pieces(v: Seq<Seq<char>>, c: char, at: spec_fn(char) -> bool)
    requires
        v.len() > 0,
        at(c),
        all_unbroken(v, at),
    ensures
        pieces(joined(v, seq![c]), at) == v,
    decreases v.len(),
{
    let none = Seq::<char>::empty();
    lemma_pieces_run(none, v.last(), at);
    assert(none + v.last() =~= v.last());
    assert(pieces(none, at).drop_last().push(none + v.last()) =~= seq![v.last()]);
    if v.len() == 1 {
        assert(v =~= seq![v.last()]);
    } else {
        let h = v.drop_last();
        assert(all_unbroken(h, at)) by {
            assert forall|i: int| 0 <= i < h.len() implies unbroken(#[trigger] h[i], at) by {
                assert(unbroken(v[i], at));
            }
        }
        lemma_joined_pieces(h, c, at);
        lemma_pieces_break(joined(h, seq![c]), c, v.last(), at);
        assert(joined(v, seq![c]) =~= joined(h, seq![c]).push(c) + v.last());
        assert(h + seq![v.last()] =~= v);
    }
}

/// The pieces between the occurrences of a character do not hold it, and there is at least one.
pub proof fn lemma_split_unbroken(s: Seq<char>, c: char)
    ensures
        split_on(s, c).len() > 0,
        forall|i: int| 0 <= i < split_on(s, c).len() ==> !(#[trigger] split_on(s, c)[i]).contains(c),
{
    let at = just(c);
    lemma_pieces_unbroken(s, at);
    assert forall|i: int| 0 <= i < split_on(s, c).len() implies !(#[trigger] split_on(
        s,
        c,
    )[i]).contains(c) by {
        let w = split_on(s, c)[i];
        assert(unbroken(pieces(s, at)[i], at));
        if w.contains(c) {
            let k = choose|k: int| 0 <= k < w.len() && w[k] == c;
            assert(!at(w[k]));
        }
    }
}

/// At the character the pieces of both sides follow each other.
pub proof fn lemma_split_break(a: Seq<char>, c: char, b: Seq<char>)
    ensures
        split_on(a.push(c) + b, c) == split_on(a, c) + split_on(b, c),
{
    let at = just(c);
    lemma_pieces_break(a, c, b, at);
}

/// Texts without the character that are joined by it are its pieces.
pub proof fn lemma_joined_split(v: Seq<Seq<char>>, c: char)
    requires
        v.len() > 0,
        forall|i: int| 0 <= i < v.len() ==> !(#[trigger] v[i]).contains(c),
    ensures
        split_on(joined(v, seq![c]), c) == v,
{
    let at = just(c);
    assert forall|i: int| 0 <= i < v.len() implies unbroken(#[trigger] v[i], at) by {
        assert forall|j: int| 0 <= j < v[i].len() implies !at(#[trigger] v[i][j]) by {
            if v[i][j] == c {
                assert(v[i].contains(c));
            }
        }
    }
    lemma_joined_pieces(v, c, at);
}

/// A joined text begins with the first of its texts.
pub proof fn lemma_joined_starts(v: Seq<Seq<char>>, sep: Seq<char>)
    requires
        v.len() > 0,
    ensures
        joined(v, sep).len() >= v[0].len(),
        joined(v, sep).take(v[0].len() as int) == v[0],
        forall|i: int| 0 <= i < v[0].len() ==> #[trigger] joined(v, sep)[i] == v[0][i],
    decreases v.len(),
{
    if v.len() > 1 {
        lemma_joined_starts(v.drop_last(), sep);
        assert forall|i: int| 0 <= i < v[0].len() implies #[trigger] joined(v, sep)[i]
            == v[0][i] by {
            assert(joined(v.drop_last(), sep)[i] == v[0][i]);
        }
    }
    assert(joined(v, sep).take(v[0].len() as int) =~= v[0]);
}

/// What is kept of a list was in it.
pub proof fn lemma_filter_kept<A>(s: Seq<A>, keep: spec_fn(A) -> bool, i: int)
    requires
        0 <= i < s.filter(keep).len(),
    ensures
        s.contains(s.filter(keep)[i]),
        keep(s.filter(keep)[i]),
    decreases s.len(),
{
    reveal(Seq::filter);
    if s.len() > 0 {
        let h = s.drop_last();
        assert(s =~= h.push(s.last()));
        h.lemma_filter_push(s.last(), keep);
        if i < h.filter(keep).len() {
            lemma_filter_kept(h, keep, i);
            let j = choose|j: int| 0 <= j < h.len() && h[j] == h.filter(keep)[i];
            assert(s[j] == s.filter(keep)[i]);
        } else {
            assert(s[s.len() - 1] == s.filter(keep)[i]);
        }
    }
}

/// A list of which everything is kept stays as it is.
pub proof fn lemma_filter_all<A>(s: Seq<A>, keep: spec_fn(A) -> bool)
    requires
        forall|i: int| 0 <= i < s.len() ==> keep(#[trigger] s[i]),
    ensures
        s.filter(keep) == s,
    decreases s.len(),
{
    reveal(Seq::filter);
    if s.len() > 0 {
        lemma_filter_all(s.drop_last(), keep);
        assert(s =~= s.drop_last().push(s.last()));
        s.drop_last().lemma_filter_push(s.last(), keep);
    }
}

/// Every white space in a text is a single blank after something else.
pub open spec fn is_tidy(s: Seq<char>) -> bool {
    forall|i: int|
        0 <= i < s.len() && is_space(#[trigger] s[i]) ==> s[i] == ' ' && i > 0 && !is_space(
            s[i - 1],
        )
}

/// Words are not empty and hold no white space.
pub proof fn lemma_words_unbroken(s: Seq<char>, i: int)
    requires
        0 <= i < words_of(s).len(),
    ensures
        words_of(s)[i].len() > 0,
        unbroken(words_of(s)[i], |x: char| is_space(x)),
{
    let at = |x: char| is_space(x);
    let full = |w: Seq<char>| w.len() > 0;
    lemma_pieces_unbroken(s, at);
    lemma_filter_kept(pieces(s, at), full, i);
    let j = choose|j: int| 0 <= j < pieces(s, at).len() && pieces(s, at)[j] == words_of(s)[i];
    assert(unbroken(pieces(s, at)[j], at));
}

/// Words with a blank between them make a tidy text.
pub proof fn lemma_joined_words_tidy(v: Seq<Seq<char>>)
    requires
        forall|i: int|
            0 <= i < v.len() ==> (#[trigger] v[i]).len() > 0 && unbroken(v[i], |x: char| is_space(x)),
    ensures
        is_tidy(joined(v, " "@)),
        v.len() > 0 ==> joined(v, " "@).len() > 0 && !is_space(joined(v, " "@).last()),
    decreases v.len(),
{
    reveal_strlit(" ");
    let at = |x: char| is_space(x);
    if v.len() == 1 {
        assert(unbroken(v[0], at));
        assert forall|i: int| 0 <= i < v[0].len() implies !is_space(#[trigger] v[0][i]) by {
            assert(!at(v[0][i]));
        }
    } else if v.len() > 1 {
        let h = v.drop_last();
        let j = joined(h, " "@);
        let w = v.last();
        lemma_joined_words_tidy(h);
        let s = joined(v, " "@);
        assert(s =~= j + " "@ + w);
        assert(unbroken(v[v.len() - 1], at));
        assert forall|i: int| 0 <= i < w.len() implies !is_space(#[trigger] w[i]) by {
            assert(!at(w[i]));
        }
        assert forall|i: int| 0 <= i < s.len() && is_space(#[trigger] s[i]) implies s[i] == ' ' && i
            > 0 && !is_space(s[i - 1]) by {
            if i < j.len() {
                assert(s[i] == j[i]);
                if i > 0 {
                    assert(s[i - 1] == j[i - 1]);
                }
            } else if i == j.len() {
                assert(s[i] == ' ');
                assert(s[i - 1] == j.last());
            } else {
                assert(s[i] == w[i - j.len() - 1]);
            }
        }
        assert(s.last() == w.last());
        assert(w.last() == w[w.len() - 1]);
    }
}

/// A tidy text is made of its words with a blank between them; a blank at its end is lost.
pub proof fn lemma_tidy_joined(s: Seq<char>)
    requires
        is_tidy(s),
    ensures
        joined(words_of(s), " "@) == if s.len() > 0 && is_space(s.last()) {
            s.drop_last()
        } else {
            s
        },
        pieces(s, |x: char| is_space(x)).last().len() == 0 <==> s.len() == 0 || is_space(s.last()),
    decreases s.len(),
{
    reveal_strlit(" ");
    let at = |x: char| is_space(x);
    let full = |w: Seq<char>| w.len() > 0;
    let p = pieces(s, at);
    lemma_pieces_unbroken(s, at);
    assert(p =~= p.drop_last().push(p.last()));
    p.drop_last().lemma_filter_push(p.last(), full);
    if s.len() == 0 {
        assert(p.drop_last() =~= Seq::<Seq<char>>::empty());
        reveal(Seq::filter);
        assert(words_of(s) =~= Seq::<Seq<char>>::empty());
    } else {
        let t = s.drop_last();
        let c = s.last();
        assert forall|i: int| 0 <= i < t.len() && is_space(#[trigger] t[i]) implies t[i] == ' ' && i
            > 0 && !is_space(t[i - 1]) by {
            assert(t[i] == s[i]);
            if i > 0 {
                assert(t[i - 1] == s[i - 1]);
            }
        }
        lemma_tidy_joined(t);
        let q = pieces(t, at);
        lemma_pieces_unbroken(t, at);
        assert(q =~= q.drop_last().push(q.last()));
        q.drop_last().lemma_filter_push(q.last(), full);
        let f = q.drop_last().filter(full);
        assert(s =~= t.push(c));
        if is_space(c) {
            assert(s[s.len() - 1] == c);
            assert(p.drop_last() =~= q);
            assert(words_of(s) == words_of(t));
            assert(t.last() == s[s.len() - 2]);
        } else {
            assert(p.drop_last() =~= q.drop_last());
            assert(words_of(s) =~= f.push(q.last().push(c)));
            if q.last().len() == 0 {
                assert(words_of(t) == f);
                assert(q.last().push(c) =~= seq![c]);
                if t.len() > 0 {
                    assert(t[t.len() - 1] == ' ');
                    assert(t[t.len() - 2] == s[t.len() - 2]);
                    if f.len() == 0 {
                        assert(joined(f, " "@).len() == 0);
                    }
                    assert(f.push(seq![c]).drop_last() =~= f);
                    assert(joined(words_of(s), " "@) =~= s);
                } else {
                    assert(joined(f, " "@).len() == 0);
                    if f.len() > 0 {
                        lemma_words_unbroken(t, f.len() - 1);
                        assert(f.len() == 1 ==> joined(f, " "@) == f[0]);
                    }
                    assert(joined(words_of(s), " "@) =~= s);
                }
            } else {
                assert(words_of(t) =~= f.push(q.last()));
                assert(f.push(q.last()).drop_last() =~= f);
                assert(f.push(q.last().push(c)).drop_last() =~= f);
                assert(joined(words_of(s), " "@) =~= joined(words_of(t), " "@).push(c));
            }
        }
    }
}

/// Trimming takes white space away and nothing else: what is left neither begins nor ends with
/// it, and what is taken at either end is made of it.
pub proof fn law_trimming_takes_white_space_only(s: Seq<char>)
    ensures
        trimmed(s).len() > 0 ==> !is_space(trimmed(s)[0]) && !is_space(trimmed(s).last()),
        exists|a: int, b: int|
            0 <= a <= b <= s.len() && #[trigger] s.subrange(a, b) == trimmed(s) && forall|i: int|
                0 <= i < a || b <= i < s.len() ==> is_space(#[trigger] s[i]),
{
    let a = lemma_trim_start(s);
    let t = trim_start(s);
    let b = lemma_trim_end(t);
    assert(s.subrange(a, a + b) =~= t.take(b));
    assert forall|i: int| 0 <= i < a || a + b <= i < s.len() implies is_space(#[trigger] s[i]) by {
        if a <= i {
            assert(t[i - a] == s[i]);
        }
    }
    if trimmed(s).len() > 0 {
        assert(trimmed(s)[0] == t[0]);
    }
}

proof fn lemma_trim_start(s: Seq<char>) -> (a: int)
    ensures
        0 <= a <= s.len(),
        trim_start(s) == s.skip(a),
        forall|i: int| 0 <= i < a ==> is_space(#[trigger] s[i]),
        a < s.len() ==> !is_space(s[a]),
    decreases s.len(),
{
    if s.len() > 0 && is_space(s[0]) {
        let b = lemma_trim_start(s.skip(1));
        assert(s.skip(1).skip(b) =~= s.skip(b + 1));
        assert forall|i: int| 0 <= i < b + 1 implies is_space(#[trigger] s[i]) by {
            if i > 0 {
                assert(s.skip(1)[i - 1] == s[i]);
            }
        }
        b + 1
    } else {
        assert(s.skip(0) =~= s);
        0
    }
}

proof fn lemma_trim_end(s: Seq<char>) -> (b: int)
    ensures
        0 <= b <= s.len(),
        trim_end(s) == s.take(b),
        forall|i: int| b <= i < s.len() ==> is_space(#[trigger] s[i]),
        b > 0 ==> !is_space(s[b - 1]),
    decreases s.len(),
{
    if s.len() > 0 && is_space(s.last()) {
        let b = lemma_trim_end(s.drop_last());
        assert(s.drop_last().take(b) =~= s.take(b));
        assert forall|i: int| b <= i < s.len() implies is_space(#[trigger] s[i]) by {
            if i < s.len() - 1 {
                assert(s.drop_last()[i] == s[i]);
            }
        }
        b
    } else {
        assert(s.take(s.len() as int) =~= s);
        s.len() as int
    }
}

/// A text that neither begins nor ends with white space is left alone.
pub proof fn lemma_trim_nothing(s: Seq<char>)
    requires
        s.len() > 0,
        !is_space(s[0]),
        !is_space(s.last()),
    ensures
        trimmed(s) == s,
{
}

/// What a list holds besides its last item.
pub proof fn lemma_last_or_before<A>(s: Seq<A>, x: A)
    requires
        s.len() > 0,
    ensures
        s.contains(x) <==> s.drop_last().contains(x) || s.last() == x,
{
    if s.contains(x) {
        let i = choose|i: int| 0 <= i < s.len() && s[i] == x;
        if i < s.len() - 1 {
            assert(s.drop_last()[i] == x);
        }
    }
    if s.drop_last().contains(x) {
        let i = choose|i: int| 0 <= i < s.drop_last().len() && s.drop_last()[i] == x;
        assert(s[i] == x);
    }
    if s.last() == x {
        assert(s[s.len() - 1] == x);
    }
}

/// What two lists hold one after the other.
pub proof fn lemma_either_has<A>(a: Seq<A>, b: Seq<A>, x: A)
    ensures
        (a + b).contains(x) <==> a.contains(x) || b.contains(x),
{
    if (a + b).contains(x) {
        let i = choose|i: int| 0 <= i < (a + b).len() && (a + b)[i] == x;
        if i < a.len() {
            assert(a[i] == x);
        } else {
            assert(b[i - a.len()] == x);
        }
    }
    if a.contains(x) {
        let i = choose|i: int| 0 <= i < a.len() && a[i] == x;
        assert((a + b)[i] == x);
    }
    if b.contains(x) {
        let i = choose|i: int| 0 <= i < b.len() && b[i] == x;
        assert((a + b)[a.len() + i] == x);
    }
}

/// A line ends at its line feed, with or without a carriage return before it; what follows are the
/// other lines, and nothing is a line where nothing follows.
pub proof fn law_lines_end_at_line_feeds(a: Seq<char>, b: Seq<char>)
    requires
        !a.contains('\n'),
    ensures
        a.len() == 0 || a.last() != '\r' ==> lines_of(a.push('\n') + b) == seq![a] + lines_of(b),
        a.len() > 0 && a.last() == '\r' ==> lines_of(a.push('\n') + b) == seq![a.drop_last()]
            + lines_of(b),
        a.len() > 0 ==> lines_of(a) == seq![a],
        lines_of(Seq::empty()).len() == 0,
{
    lemma_split_break(a, '\n', b);
    lemma_joined_split(seq![a], '\n');
    assert(joined(seq![a], seq!['\n']) == a);
    assert(split_on(a, '\n') =~= seq![a]);
    let none = Seq::<char>::empty();
    assert(split_on(none, '\n') =~= seq![none]);
    let q = split_on(b, '\n');
    let p = split_on(a.push('\n') + b, '\n');
    lemma_split_unbroken(b, '\n');
    assert(p =~= seq![a] + q);
    assert(p.last() == q.last());
    let x = Seq::new((p.len() - 1) as nat, |i: int| without_cr(p[i]));
    let y = Seq::new((q.len() - 1) as nat, |i: int| without_cr(q[i]));
    assert(x =~= seq![without_cr(a)] + y) by {
        assert forall|i: int| 0 <= i < x.len() implies x[i] == (seq![without_cr(a)] + y)[i] by {
            if i > 0 {
                assert(p[i] == q[i - 1]);
            }
        }
    }
    assert(x.push(p.last()) =~= seq![without_cr(a)] + y.push(q.last()));
    assert(Seq::new(0, |i: int| without_cr(seq![a][i])).push(a) =~= seq![a]);
    assert(lines_of(a.push('\n') + b) =~= seq![without_cr(a)] + lines_of(b));
    if a.len() > 0 {
        assert(lines_of(a) =~= seq![a]);
    }
}

/// Texts are joined with the separator between neighbours, and nowhere else.
pub proof fn law_texts_are_joined_between_neighbours(
    v: Seq<Seq<char>>,
    x: Seq<char>,
    sep: Seq<char>,
)
    ensures
        joined(Seq::empty(), sep).len() == 0,
        joined(seq![x], sep) == x,
        v.len() > 0 ==> joined(v.push(x), sep) == joined(v, sep) + sep + x,
{
    assert(v.push(x).drop_last() =~= v);
}

/// A word ends at white space, and more white space makes no more words.
pub proof fn law_words_stand_between_white_space(w: Seq<char>, c: char, rest: Seq<char>)
    requires
        w.len() > 0,
        forall|i: int| 0 <= i < w.len() ==> !is_space(#[trigger] w[i]),
        is_space(c),
    ensures
        words_of(w.push(c) + rest) == seq![w] + words_of(rest),
        words_of(seq![c] + rest) == words_of(rest),
        words_of(w) == seq![w],
        words_of(Seq::empty()).len() == 0,
{
    let at = |x: char| is_space(x);
    let keep = |w: Seq<char>| w.len() > 0;
    let none = Seq::<char>::empty();
    lemma_pieces_break(w, c, rest, at);
    lemma_pieces_break(none, c, rest, at);
    lemma_one_piece(w, at);
    assert(none.push(c) + rest =~= seq![c] + rest);
    assert(pieces(none, at) =~= seq![none]);
    Seq::filter_distributes_over_add(seq![w], pieces(rest, at), keep);
    Seq::filter_distributes_over_add(seq![none], pieces(rest, at), keep);
    assert(seq![w].filter(keep) =~= seq![w]) by {
        reveal(Seq::filter);
        assert(seq![w].drop_last() =~= Seq::<Seq<char>>::empty());
        assert(keep(seq![w].last()));
        assert(Seq::<Seq<char>>::empty().filter(keep) =~= Seq::<Seq<char>>::empty());
    }
    assert(seq![none].filter(keep) =~= Seq::<Seq<char>>::empty()) by {
        reveal(Seq::filter);
        assert(seq![none].drop_last() =~= Seq::<Seq<char>>::empty());
        assert(!keep(seq![none].last()));
        assert(Seq::<Seq<char>>::empty().filter(keep) =~= Seq::<Seq<char>>::empty());
    }
    assert(Seq::<Seq<char>>::empty() + words_of(rest) =~= words_of(rest));
}

/// A text at none of whose characters `at` holds is one piece.
pub proof fn lemma_one_piece(w: Seq<char>, at: spec_fn(char) -> bool)
    requires
        forall|i: int| 0 <= i < w.len() ==> !at(#[trigger] w[i]),
    ensures
        pieces(w, at) == seq![w],
    decreases w.len(),
{
    if w.len() > 0 {
        let t = w.drop_last();
        assert forall|i: int| 0 <= i < t.len() implies !at(#[trigger] t[i]) by {
            assert(t[i] == w[i]);
        }
        lemma_one_piece(t, at);
        assert(!at(w[w.len() - 1]));
        assert(t.push(w.last()) =~= w);
        assert(seq![t].drop_last().push(t.push(w.last())) =~= seq![w]);
    } else {
        assert(w =~= Seq::<char>::empty());
    }
}

/// Texts go by the first character in which they differ, and a text comes before every longer one
/// that begins with it.
pub proof fn law_texts_go_by_the_first_difference(
    x: Seq<char>,
    c: char,
    y: Seq<char>,
    d: char,
    z: Seq<char>,
)
    ensures
        y.len() > 0 ==> text_lt(x, x + y),
        c != d ==> (text_lt(x + (seq![c] + y), x + (seq![d] + z)) <==> c < d),
    decreases x.len(),
{
    let a = x + (seq![c] + y);
    let b = x + (seq![d] + z);
    if x.len() > 0 {
        law_texts_go_by_the_first_difference(x.skip(1), c, y, d, z);
        assert((x + y).skip(1) =~= x.skip(1) + y);
        assert(a.skip(1) =~= x.skip(1) + (seq![c] + y));
        assert(b.skip(1) =~= x.skip(1) + (seq![d] + z));
        assert(a[0] == x[0] && b[0] == x[0]);
    } else {
        assert(a =~= seq![c] + y);
        assert(b =~= seq![d] + z);
        assert(a[0] == c && b[0] == d);
        assert(x + y =~= y);
    }
}

/// A plus sign before a number changes nothing; any other character that is no digit, or a sign
/// that stands elsewhere, leaves no number.
pub proof fn law_numbers_are_digits_after_a_plus_sign(s: Seq<char>, max: nat, i: int)
    requires
        0 <= i < s.len(),
    ensures
        s[i] < '0' || s[i] > '9' ==> (i > 0 || s[0] != '+') ==> parsed(s, max) is None,
        '0' <= s[0] <= '9' ==> parsed(seq!['+'] + s, max) == parsed(s, max),
        parsed(seq!['+'], max) is None,
{
    assert((seq!['+'] + s).skip(1) =~= s);
    assert(seq!['+'].skip(1).len() == 0);
    if parsed(s, max) is Some && (i > 0 || s[0] != '+') {
        let d = unsigned_part(s);
        if s[0] == '+' {
            assert(is_digit(d[i - 1]));
        } else {
            assert(is_digit(d[i]));
        }
    }
}

} // verus!
