//! Paths as text, taken step by step.

use vstd::prelude::*;

use crate::util::relpath::real_steps;
#[allow(unused_imports)]
use crate::util::relpath::{
    are_steps, lemma_joined_steps, lemma_steps_add, lemma_steps_are_steps, real_step, steps,
};
use crate::util::text::{cat2, cat3, chars_of, ends_with, split_char, str_eq, str_lt};
#[allow(unused_imports)]
use crate::util::text::{
    ends, is_digit, joined, lemma_joined_split, lemma_joined_starts, lemma_lt_irreflexive, lemma_lt_total, lemma_lt_transitive, lemma_split_break,
    lemma_split_unbroken, split_on, text_lt, texts,
};

verus! {

/// A path that starts at the root of the file system.
pub open spec fn absolute(p: Seq<char>) -> bool {
    p.len() > 0 && p[0] == '/'
}

/// Whether a path starts at the root of the file system.
pub fn is_absolute(p: &str) -> (r: bool)
    ensures
        r == absolute(p@),
{
    let v = chars_of(p);
    v.len() > 0 && v[0] == '/'
}

/// A relative path whose first step stays where it is.
pub open spec fn leading_dot(p: Seq<char>) -> bool {
    split_on(p, '/')[0] == "."@
}

fn has_leading_dot(p: &str) -> (r: bool)
    ensures
        r == leading_dot(p@),
{
    let v = split_char(p, '/');
    assert(texts(v@)[0] == v@[0]@);
    str_eq(v[0].as_str(), ".")
}

/// How a path begins does not depend on what follows its first steps.
pub proof fn lemma_leading_dot(a: Seq<char>, b: Seq<char>)
    ensures
        leading_dot(a + "/"@ + b) == leading_dot(a),
{
    reveal_strlit("/");
    assert(a + "/"@ + b =~= a.push('/') + b);
    lemma_split_break(a, '/', b);
    lemma_split_unbroken(a, '/');
}

/// Two spellings of one path: both start at the root or neither does, and the steps agree. A
/// relative path that begins with a step on the spot differs from one that does not.
pub open spec fn same_path(a: Seq<char>, b: Seq<char>) -> bool {
    absolute(a) == absolute(b) && leading_dot(a) == leading_dot(b) && steps(a) == steps(b)
}

/// Whether two texts spell one path.
pub fn path_eq(a: &str, b: &str) -> (r: bool)
    ensures
        r == same_path(a@, b@),
{
    if is_absolute(a) != is_absolute(b) || has_leading_dot(a) != has_leading_dot(b) {
        return false;
    }
    let x = real_steps(a);
    let y = real_steps(b);
    lists_eq(&x, &y)
}

/// Whether two lists of texts are the same.
pub fn lists_eq(x: &Vec<String>, y: &Vec<String>) -> (r: bool)
    ensures
        r == (texts(x@) == texts(y@)),
{
    if x.len() != y.len() {
        assert(texts(x@).len() != texts(y@).len());
        return false;
    }
    let mut i: usize = 0;
    while i < x.len()
        invariant
            i <= x@.len(),
            x@.len() == y@.len(),
            forall|k: int| 0 <= k < i ==> #[trigger] texts(x@)[k] == texts(y@)[k],
        decreases x@.len() - i,
    {
        if !str_eq(x[i].as_str(), y[i].as_str()) {
            assert(texts(x@)[i as int] != texts(y@)[i as int]);
            return false;
        }
        i += 1;
    }
    assert(texts(x@) =~= texts(y@));
    true
}

/// `b` taken from the place `a`: `b` alone where it is absolute.
pub open spec fn joined_path(a: Seq<char>, b: Seq<char>) -> Seq<char> {
    if absolute(b) {
        b
    } else if a.len() == 0 || a.last() == '/' {
        a + b
    } else {
        a + "/"@ + b
    }
}

/// `b` taken from the place `a`.
pub fn path_join(a: &str, b: &str) -> (r: String)
    ensures
        r@ == joined_path(a@, b@),
{
    if is_absolute(b) {
        return b.to_owned();
    }
    let v = chars_of(a);
    if v.len() == 0 || v[v.len() - 1] == '/' {
        cat2(a, b)
    } else {
        cat3(a, "/", b)
    }
}

/// `p` leads to the place of `base` or below it, wherever a step on the spot stands.
pub open spec fn under(p: Seq<char>, base: Seq<char>) -> bool {
    absolute(p) == absolute(base) && steps(base).len() <= steps(p).len() && steps(p).take(
        steps(base).len() as int,
    ) == steps(base)
}

/// `p` is `base` or leads below it, as paths are spelled: one that begins with a step on the spot
/// is below none that does not, but for the empty path.
pub open spec fn below(p: Seq<char>, base: Seq<char>) -> bool {
    under(p, base) && (leading_dot(p) == leading_dot(base) || base.len() == 0)
}

/// Whether `p` is `base` or leads below it, as paths are spelled.
pub fn path_starts_with(p: &str, base: &str) -> (r: bool)
    ensures
        r == below(p@, base@),
{
    path_under(p, base) && (has_leading_dot(p) == has_leading_dot(base) || base.is_empty())
}

/// Whether `p` leads to the place of `base` or below it.
pub fn path_under(p: &str, base: &str) -> (r: bool)
    ensures
        r == under(p@, base@),
{
    if is_absolute(p) != is_absolute(base) {
        return false;
    }
    let x = real_steps(p);
    let y = real_steps(base);
    let ghost sx = steps(p@);
    let ghost sy = steps(base@);
    assert(sx.len() == x@.len() && sy.len() == y@.len());
    if y.len() > x.len() {
        return false;
    }
    let mut i: usize = 0;
    while i < y.len()
        invariant
            i <= y@.len() <= x@.len(),
            texts(x@) == sx,
            texts(y@) == sy,
            sx == steps(p@),
            sy == steps(base@),
            forall|k: int| 0 <= k < i ==> #[trigger] sx[k] == sy[k],
        decreases y@.len() - i,
    {
        assert(sx[i as int] == x@[i as int]@ && sy[i as int] == y@[i as int]@);
        if !str_eq(x[i].as_str(), y[i].as_str()) {
            assert(sx.take(sy.len() as int)[i as int] != sy[i as int]);
            return false;
        }
        i += 1;
    }
    assert(sx.take(sy.len() as int) =~= sy);
    true
}

/// Steps without those that lead up: each takes the step before it away.
pub open spec fn walked(s: Seq<Seq<char>>) -> Seq<Seq<char>>
    decreases s.len(),
{
    if s.len() == 0 {
        s
    } else {
        let before = walked(s.drop_last());
        if s.last() == ".."@ {
            if before.len() == 0 {
                before
            } else {
                before.drop_last()
            }
        } else {
            before.push(s.last())
        }
    }
}

/// A path without steps that stay or lead up, by its text alone.
pub open spec fn normal_path(p: Seq<char>) -> Seq<char> {
    let rest = crate::util::text::joined(walked(steps(p)), "/"@);
    if absolute(p) {
        "/"@ + rest
    } else {
        rest
    }
}

/// The steps of a path without those that lead up, by its text alone.
pub fn normal_steps(p: &str) -> (r: Vec<String>)
    ensures
        texts(r@) == walked(steps(p@)),
{
    let s = real_steps(p);
    let ghost all = steps(p@);
    let mut out: Vec<String> = Vec::new();
    let mut i: usize = 0;
    assert(texts(out@) =~= walked(all.take(0)));
    while i < s.len()
        invariant
            i <= s@.len(),
            all == texts(s@),
            texts(out@) == walked(all.take(i as int)),
        decreases s@.len() - i,
    {
        assert(all.take(i + 1).drop_last() =~= all.take(i as int));
        assert(all.take(i + 1).last() == s@[i as int]@);
        let ghost before = texts(out@);
        assert(before.len() == out@.len());
        if str_eq(s[i].as_str(), "..") {
            if out.len() > 0 {
                out.pop();
                assert(texts(out@) =~= before.drop_last());
            }
        } else {
            out.push(s[i].clone());
            assert(texts(out@) =~= before.push(s@[i as int]@));
        }
        i += 1;
    }
    assert(all.take(i as int) =~= all);
    out
}

/// What is left of steps leads nowhere up, and is steps again.
pub proof fn lemma_walked(s: Seq<Seq<char>>)
    ensures
        !walked(s).contains(".."@),
        walked(s).len() <= s.len(),
        are_steps(s) ==> are_steps(walked(s)),
    decreases s.len(),
{
    if s.len() > 0 {
        let h = s.drop_last();
        lemma_walked(h);
        let before = walked(h);
        assert forall|i: int| 0 <= i < walked(s).len() implies walked(s)[i] != ".."@ by {
            if i < before.len() {
                assert(before.contains(before[i]));
            }
        }
        if are_steps(s) {
            assert(are_steps(h)) by {
                assert forall|i: int| 0 <= i < h.len() implies real_step(#[trigger] h[i])
                    && !h[i].contains('/') by {
                    assert(h[i] == s[i]);
                }
            }
            assert forall|i: int| 0 <= i < walked(s).len() implies real_step(#[trigger] walked(s)[i])
                && !walked(s)[i].contains('/') by {
                if i < before.len() {
                    assert(walked(s)[i] == before[i]);
                } else {
                    assert(walked(s)[i] == s[s.len() - 1]);
                }
            }
        }
    }
}

/// Steps of which none leads up stay as they are.
pub proof fn lemma_walked_again(s: Seq<Seq<char>>)
    requires
        !s.contains(".."@),
    ensures
        walked(s) == s,
    decreases s.len(),
{
    if s.len() > 0 {
        let h = s.drop_last();
        if h.contains(".."@) {
            let i = choose|i: int| 0 <= i < h.len() && h[i] == ".."@;
            assert(s[i] == ".."@);
        }
        lemma_walked_again(h);
        assert(s.last() == s[s.len() - 1]);
        assert(walked(s) =~= s);
    }
}

/// The path without its last step: nothing where there is no step to take away. What remains of
/// an absolute path of one step is the root.
pub open spec fn parent_of(p: Seq<char>) -> Option<Seq<char>> {
    let s = steps(p);
    if s.len() == 0 {
        None
    } else {
        let rest = crate::util::text::joined(s.drop_last(), "/"@);
        Some(
            if absolute(p) {
                "/"@ + rest
            } else {
                rest
            },
        )
    }
}

/// The path without its last step, in its one spelling.
pub fn path_parent(p: &str) -> (r: Option<String>)
    ensures
        match r {
            Some(t) => parent_of(p@) == Some(t@),
            None => parent_of(p@) is None,
        },
{
    let mut s = real_steps(p);
    let ghost all = steps(p@);
    assert(all.len() == s@.len());
    if s.len() == 0 {
        return None;
    }
    s.pop();
    assert(texts(s@) =~= all.drop_last());
    let rest = crate::util::text::join(&s, "/");
    if is_absolute(p) {
        Some(cat2("/", rest.as_str()))
    } else {
        Some(rest)
    }
}

/// The last step of a path.
pub open spec fn name_of(p: Seq<char>) -> Option<Seq<char>> {
    let s = steps(p);
    if s.len() == 0 || s.last() == ".."@ {
        None
    } else {
        Some(s.last())
    }
}

/// The last step of a path.
pub fn path_name(p: &str) -> (r: Option<String>)
    ensures
        match r {
            Some(t) => name_of(p@) == Some(t@),
            None => name_of(p@) is None,
        },
{
    let s = real_steps(p);
    let ghost all = steps(p@);
    assert(all.len() == s@.len());
    if s.len() == 0 {
        return None;
    }
    let last = s[s.len() - 1].clone();
    assert(all.last() == last@);
    if str_eq(last.as_str(), "..") {
        None
    } else {
        Some(last)
    }
}

/// Lists in the order of their first texts that differ; a beginning comes before what goes on.
pub open spec fn list_lt(a: Seq<Seq<char>>, b: Seq<Seq<char>>) -> bool
    decreases a.len(),
{
    if b.len() == 0 {
        false
    } else if a.len() == 0 {
        true
    } else if a[0] != b[0] {
        text_lt(a[0], b[0])
    } else {
        list_lt(a.skip(1), b.skip(1))
    }
}

/// One relative path comes before another: in the order of their steps.
pub open spec fn path_before(a: Seq<char>, b: Seq<char>) -> bool {
    list_lt(steps(a), steps(b))
}

/// Whether one relative path comes before another.
pub fn path_lt(a: &str, b: &str) -> (r: bool)
    ensures
        r == path_before(a@, b@),
{
    let x = real_steps(a);
    let y = real_steps(b);
    let ghost p = steps(a@);
    let ghost q = steps(b@);
    let mut i: usize = 0;
    assert(p.skip(0) =~= p && q.skip(0) =~= q);
    while i < x.len() && i < y.len()
        invariant
            i <= x@.len(),
            i <= y@.len(),
            p == texts(x@),
            q == texts(y@),
            p == steps(a@),
            q == steps(b@),
            list_lt(p, q) == list_lt(p.skip(i as int), q.skip(i as int)),
        decreases x@.len() - i,
    {
        assert(p.skip(i as int)[0] == x@[i as int]@);
        assert(q.skip(i as int)[0] == y@[i as int]@);
        if !str_eq(x[i].as_str(), y[i].as_str()) {
            return str_lt(x[i].as_str(), y[i].as_str());
        }
        assert(p.skip(i as int).skip(1) =~= p.skip(i + 1));
        assert(q.skip(i as int).skip(1) =~= q.skip(i + 1));
        i += 1;
    }
    i < y.len()
}

proof fn lemma_list_lt_irreflexive(a: Seq<Seq<char>>)
    ensures
        !list_lt(a, a),
    decreases a.len(),
{
    if a.len() > 0 {
        lemma_list_lt_irreflexive(a.skip(1));
    }
}

proof fn lemma_list_lt_transitive(a: Seq<Seq<char>>, b: Seq<Seq<char>>, c: Seq<Seq<char>>)
    requires
        list_lt(a, b),
        list_lt(b, c),
    ensures
        list_lt(a, c),
    decreases a.len(),
{
    if a.len() > 0 {
        if a[0] != b[0] && b[0] != c[0] {
            lemma_lt_transitive(a[0], b[0], c[0]);
            if a[0] == c[0] {
                lemma_lt_irreflexive(a[0]);
            }
        } else if a[0] == b[0] && b[0] == c[0] {
            lemma_list_lt_transitive(a.skip(1), b.skip(1), c.skip(1));
        }
    }
}

proof fn lemma_list_lt_total(a: Seq<Seq<char>>, b: Seq<Seq<char>>)
    ensures
        list_lt(a, b) || list_lt(b, a) || a == b,
    decreases a.len(),
{
    if a.len() == 0 || b.len() == 0 {
        if a.len() == b.len() {
            assert(a =~= b);
        }
    } else if a[0] != b[0] {
        lemma_lt_total(a[0], b[0]);
    } else {
        lemma_list_lt_total(a.skip(1), b.skip(1));
        if a.skip(1) == b.skip(1) {
            assert(a =~= seq![a[0]] + a.skip(1));
            assert(b =~= seq![b[0]] + b.skip(1));
        }
    }
}

/// Not coming after is transitive.
pub proof fn lemma_path_order(a: Seq<char>, b: Seq<char>, c: Seq<char>)
    requires
        !path_before(b, a),
        !path_before(c, b),
    ensures
        !path_before(c, a),
{
    let x = steps(a);
    let y = steps(b);
    let z = steps(c);
    if list_lt(z, x) {
        lemma_list_lt_total(x, y);
        lemma_list_lt_total(y, z);
        if x == y {
        } else if y == z {
        } else {
            lemma_list_lt_transitive(x, y, z);
            lemma_list_lt_transitive(x, z, x);
            lemma_list_lt_irreflexive(x);
        }
    }
}

/// Two paths do not come before each other.
pub proof fn lemma_path_before_asymmetric(a: Seq<char>, b: Seq<char>)
    ensures
        !(path_before(a, b) && path_before(b, a)),
{
    if path_before(a, b) && path_before(b, a) {
        lemma_list_lt_transitive(steps(a), steps(b), steps(a));
        lemma_list_lt_irreflexive(steps(a));
    }
}

/// The name of a file that is written before it takes the place of another: the other's name, a
/// number and `.tmp`.
pub open spec fn atomic_tmp_name(name: Seq<char>) -> bool {
    ends(name, ".tmp"@) && exists|k: int|
        #![trigger name[k - 1]]
        2 <= k < name.len() - 4 && name[k - 1] == '.' && forall|j: int|
            k <= j < name.len() - 4 ==> is_digit(#[trigger] name[j])
}

/// Whether a name is that of a file whose replacement was not finished.
pub fn is_atomic_tmp(name: &str) -> (r: bool)
    ensures
        r == atomic_tmp_name(name@),
{
    if !ends_with(name, ".tmp") {
        return false;
    }
    proof {
        reveal_strlit(".tmp");
    }
    let v = chars_of(name);
    let n: usize = v.len() - 4;
    let mut k: usize = n;
    while k > 0 && '0' <= v[k - 1] && v[k - 1] <= '9'
        invariant
            k <= n,
            n == v@.len() - 4,
            v@ == name@,
            forall|j: int| k <= j < n ==> is_digit(#[trigger] name@[j]),
        decreases k,
    {
        k -= 1;
    }
    let r = 2 <= k && k < n && v[k - 1] == '.';
    proof {
        if r {
            assert(name@[k - 1] == '.');
        } else if atomic_tmp_name(name@) {
            let m = choose|m: int|
                #![trigger name@[m - 1]]
                2 <= m < name@.len() - 4 && name@[m - 1] == '.' && forall|j: int|
                    m <= j < name@.len() - 4 ==> is_digit(#[trigger] name@[j]);
            if k < m {
                assert(is_digit(name@[m - 1]));
            } else if k > m {
                assert(is_digit(name@[k - 1]));
            }
        }
    }
    r
}

/// A path that is spelled by its steps alone is no absolute one, begins with no step on the spot,
/// and has just these steps.
pub proof fn lemma_spelled(v: Seq<Seq<char>>)
    requires
        are_steps(v),
    ensures
        !absolute(joined(v, "/"@)),
        !leading_dot(joined(v, "/"@)),
        steps(joined(v, "/"@)) == v,
{
    reveal_strlit("/");
    reveal_strlit(".");
    assert("/"@ =~= seq!['/']);
    lemma_joined_steps(v);
    if v.len() == 0 {
        let none = Seq::<char>::empty();
        assert(joined(v, "/"@) =~= none);
        assert(split_on(none, '/') =~= seq![none]);
    } else {
        lemma_joined_split(v, '/');
        lemma_joined_starts(v, "/"@);
        assert(real_step(v[0]));
        if joined(v, "/"@)[0] == '/' {
            assert(v[0][0] == '/');
            assert(v[0].contains('/'));
        }
    }
}

/// A path lies at or below another exactly where its steps begin with those of the other: one that
/// is next to it, above it, or only begins with the same letters, does not.
pub proof fn law_paths_below_begin_with_the_same_steps(v: Seq<Seq<char>>, w: Seq<Seq<char>>)
    requires
        forall|i: int|
            0 <= i < v.len() ==> (#[trigger] v[i]).len() > 0 && v[i] != "."@ && !v[i].contains(
                '/',
            ),
        forall|i: int|
            0 <= i < w.len() ==> (#[trigger] w[i]).len() > 0 && w[i] != "."@ && !w[i].contains(
                '/',
            ),
    ensures
        below(joined(v, "/"@), joined(w, "/"@)) <==> w.len() <= v.len() && forall|i: int|
            0 <= i < w.len() ==> #[trigger] v[i] == w[i],
        under(joined(v, "/"@), joined(w, "/"@)) <==> w.len() <= v.len() && forall|i: int|
            0 <= i < w.len() ==> #[trigger] v[i] == w[i],
{
    assert(are_steps(v) && are_steps(w));
    lemma_spelled(v);
    lemma_spelled(w);
    if w.len() <= v.len() {
        if forall|i: int| 0 <= i < w.len() ==> #[trigger] v[i] == w[i] {
            assert(v.take(w.len() as int) =~= w);
        }
        if v.take(w.len() as int) == w {
            assert forall|i: int| 0 <= i < w.len() implies #[trigger] v[i] == w[i] by {
                assert(v.take(w.len() as int)[i] == v[i]);
            }
        }
    }
}

/// A step up takes the step before it back, and at the top it leads nowhere; every other step is
/// taken.
pub proof fn law_steps_up_take_one_step_back(s: Seq<Seq<char>>, x: Seq<char>)
    ensures
        walked(Seq::empty()).len() == 0,
        x != ".."@ ==> walked(s.push(x)) == walked(s).push(x),
        x != ".."@ ==> walked(s.push(x).push(".."@)) == walked(s),
        walked(s).len() == 0 ==> walked(s.push(".."@)).len() == 0,
{
    assert(s.push(x).drop_last() =~= s);
    assert(s.push(x).push(".."@).drop_last() =~= s.push(x));
    assert(s.push(".."@).drop_last() =~= s);
    if x != ".."@ {
        assert(walked(s.push(x)) == walked(s).push(x));
        assert(walked(s).push(x).drop_last() =~= walked(s));
        assert(s.push(x).push(".."@).last() == ".."@);
    }
}

/// A path that is taken from a place has the steps of the place and then its own, unless it
/// starts at the root.
pub proof fn law_paths_are_joined_step_by_step(a: Seq<char>, b: Seq<char>)
    ensures
        absolute(b) ==> joined_path(a, b) == b,
        !absolute(b) ==> steps(joined_path(a, b)) == steps(a) + steps(b),
        !absolute(b) && a.len() > 0 ==> absolute(joined_path(a, b)) == absolute(a),
{
    reveal_strlit("/");
    if !absolute(b) {
        let none = Seq::<char>::empty();
        assert(split_on(none, '/') =~= seq![none]);
        let keep = |p: Seq<char>| real_step(p);
        lemma_nowhere();
        if a.len() == 0 {
            assert(a + b =~= b);
            assert(a =~= none);
            assert(steps(a) + steps(b) =~= steps(b));
        } else if a.last() == '/' {
            let c = a.drop_last();
            lemma_steps_add(c, b);
            lemma_steps_add(c, none);
            assert(c + "/"@ + b =~= a + b);
            assert(c + "/"@ + none =~= a);
            assert(steps(c) + steps(none) =~= steps(c));
        } else {
            lemma_steps_add(a, b);
        }
    }
}

/// The empty path has no steps.
proof fn lemma_nowhere()
    ensures
        steps(Seq::empty()) == Seq::<Seq<char>>::empty(),
{
    let none = Seq::<char>::empty();
    let one = split_on(none, '/');
    let keep = |p: Seq<char>| real_step(p);
    assert(one =~= seq![none]);
    assert(one.drop_last() =~= Seq::<Seq<char>>::empty());
    assert(!keep(one.last()));
    reveal(Seq::filter);
    assert(one.drop_last().filter(keep) =~= Seq::<Seq<char>>::empty());
}

/// A path that starts at the root does not begin with a step on the spot.
pub proof fn lemma_rooted_has_no_dot(p: Seq<char>)
    requires
        absolute(p),
    ensures
        !leading_dot(p),
{
    reveal_strlit(".");
    let none = Seq::<char>::empty();
    lemma_split_break(none, '/', p.skip(1));
    assert(none.push('/') + p.skip(1) =~= p);
    assert(split_on(none, '/') =~= seq![none]);
    assert(split_on(p, '/')[0] == none);
    assert("."@.len() == 1);
}

/// The parent of a path has all its steps but the last, and starts where the path does; the name
/// of a path is its last step, unless that leads up.
pub proof fn law_parents_lie_one_step_up(p: Seq<char>)
    ensures
        steps(p).len() == 0 ==> parent_of(p) is None && name_of(p) is None,
        steps(p).len() > 0 ==> parent_of(p) is Some && steps(parent_of(p)->0) == steps(
            p,
        ).drop_last() && absolute(parent_of(p)->0) == absolute(p) && !leading_dot(parent_of(p)->0),
        steps(p).len() > 0 && steps(p).last() != ".."@ ==> name_of(p) == Some(steps(p).last()),
        steps(p).len() > 0 && steps(p).last() == ".."@ ==> name_of(p) is None,
{
    if steps(p).len() > 0 {
        lemma_steps_are_steps(p);
        let v = steps(p).drop_last();
        assert(are_steps(v)) by {
            assert forall|i: int| 0 <= i < v.len() implies real_step(#[trigger] v[i])
                && !v[i].contains('/') by {
                assert(v[i] == steps(p)[i]);
            }
        }
        lemma_spelled(v);
        if absolute(p) {
            lemma_rooted_steps(v);
            lemma_rooted_has_no_dot("/"@ + joined(v, "/"@));
        }
    }
}

/// A path that is spelled from the root by its steps has just these steps.
pub proof fn lemma_rooted_steps(v: Seq<Seq<char>>)
    requires
        are_steps(v),
    ensures
        absolute("/"@ + joined(v, "/"@)),
        steps("/"@ + joined(v, "/"@)) == v,
{
    reveal_strlit("/");
    let none = Seq::<char>::empty();
    lemma_steps_add(none, joined(v, "/"@));
    lemma_joined_steps(v);
    lemma_nowhere();
    assert(none + "/"@ + joined(v, "/"@) =~= "/"@ + joined(v, "/"@));
    assert(Seq::<Seq<char>>::empty() + v =~= v);
}

/// In path order a directory comes before what is in it, and what is in one directory goes by the
/// name of the step in which it differs, whatever follows.
pub proof fn law_directories_come_before_their_contents(
    x: Seq<Seq<char>>,
    m: Seq<char>,
    y: Seq<Seq<char>>,
    n: Seq<char>,
    z: Seq<Seq<char>>,
)
    ensures
        y.len() > 0 ==> list_lt(x, x + y),
        m != n ==> (list_lt(x + (seq![m] + y), x + (seq![n] + z)) <==> text_lt(m, n)),
    decreases x.len(),
{
    let a = x + (seq![m] + y);
    let b = x + (seq![n] + z);
    if x.len() > 0 {
        law_directories_come_before_their_contents(x.skip(1), m, y, n, z);
        assert((x + y).skip(1) =~= x.skip(1) + y);
        assert(a.skip(1) =~= x.skip(1) + (seq![m] + y));
        assert(b.skip(1) =~= x.skip(1) + (seq![n] + z));
        assert(a[0] == x[0] && b[0] == x[0]);
    } else {
        assert(a =~= seq![m] + y);
        assert(b =~= seq![n] + z);
        assert(a[0] == m && b[0] == n);
        assert(x + y =~= y);
    }
}

} // verus!
