//! Paths below a project, in one spelling.

use vstd::prelude::*;

use crate::util::text::{chars_of, join, list_has, split_char, str_eq};
#[allow(unused_imports)]
use crate::util::text::{
    joined, lemma_filter_all, lemma_filter_kept, lemma_joined_split, lemma_joined_starts,
    lemma_split_break, lemma_split_unbroken, split_on, texts,
};

verus! {

/// A step that goes somewhere: not empty and not the place itself.
pub open spec fn real_step(p: Seq<char>) -> bool {
    p.len() > 0 && p != "."@
}

/// The steps of a path, without empty ones and those that stay.
pub open spec fn steps(s: Seq<char>) -> Seq<Seq<char>> {
    split_on(s, '/').filter(|p: Seq<char>| real_step(p))
}

/// A path that leads below the place it starts from, in its one spelling.
pub open spec fn relative(s: Seq<char>) -> Option<Seq<char>> {
    let p = steps(s);
    if (s.len() > 0 && s[0] == '/') || p.len() == 0 || p.contains(".."@) {
        None
    } else {
        Some(joined(p, "/"@))
    }
}

/// The steps of a path, without empty ones and those that stay.
pub fn real_steps(s: &str) -> (r: Vec<String>)
    ensures
        texts(r@) == steps(s@),
{
    let parts = split_char(s, '/');
    let ghost all = split_on(s@, '/');
    let ghost keep = |p: Seq<char>| real_step(p);
    let mut out: Vec<String> = Vec::new();
    let mut i: usize = 0;
    proof {
        reveal(Seq::filter);
        assert(all.take(0).filter(keep) =~= Seq::<Seq<char>>::empty());
        assert(texts(out@) =~= Seq::<Seq<char>>::empty());
    }
    while i < parts.len()
        invariant
            i <= parts@.len(),
            texts(parts@) == all,
            keep == (|p: Seq<char>| real_step(p)),
            texts(out@) == all.take(i as int).filter(keep),
        decreases parts@.len() - i,
    {
        let p = &parts[i];
        assert(all[i as int] == p@);
        assert(all.take(i + 1) =~= all.take(i as int).push(p@));
        proof {
            all.take(i as int).lemma_filter_push(p@, keep);
        }
        if !p.as_str().is_empty() && !str_eq(p.as_str(), ".") {
            let ghost before = texts(out@);
            out.push(p.clone());
            assert(texts(out@) =~= before.push(p@));
        }
        i += 1;
    }
    assert(all.take(all.len() as int) =~= all);
    out
}

/// A path that leads below the place it starts from, in its one spelling.
pub fn safe_relative(s: &str) -> (r: Option<String>)
    ensures
        match r {
            Some(t) => relative(s@) == Some(t@),
            None => relative(s@) is None,
        },
{
    let v = chars_of(s);
    if v.len() > 0 && v[0] == '/' {
        return None;
    }
    let out = real_steps(s);
    assert(steps(s@).len() == out@.len());
    if out.len() == 0 || list_has(&out, "..") {
        return None;
    }
    Some(join(&out, "/"))
}

/// A path below a project.
pub struct RelPath {
    pub text: String,
}

impl RelPath {
    pub fn parse(s: &str) -> (r: Option<RelPath>)
        ensures
            match r {
                Some(p) => relative(s@) == Some(p.text@),
                None => relative(s@) is None,
            },
    {
        match safe_relative(s) {
            Some(text) => Some(RelPath { text }),
            None => None,
        }
    }

    pub fn as_str(&self) -> (r: &str)
        ensures
            r@ == self.text@,
    {
        self.text.as_str()
    }

    /// Whether the path has a single step.
    pub fn is_top_level(&self) -> (r: bool)
        ensures
            r == !self.text@.contains('/'),
    {
        let v = chars_of(self.text.as_str());
        let mut i: usize = 0;
        while i < v.len()
            invariant
                i <= v@.len(),
                v@ == self.text@,
                forall|k: int| 0 <= k < i ==> #[trigger] v@[k] != '/',
            decreases v@.len() - i,
        {
            if v[i] == '/' {
                return false;
            }
            i += 1;
        }
        true
    }
}

/// The spellings of a list of paths.
pub open spec fn rel_texts(v: Seq<RelPath>) -> Seq<Seq<char>> {
    Seq::new(v.len(), |i: int| v[i].text@)
}

/// Whether `s` is the spelling of one of the paths.
pub fn rel_has(v: &Vec<RelPath>, s: &str) -> (r: bool)
    ensures
        r == rel_texts(v@).contains(s@),
{
    let mut i: usize = 0;
    while i < v.len()
        invariant
            i <= v@.len(),
            forall|k: int| 0 <= k < i ==> #[trigger] rel_texts(v@)[k] != s@,
        decreases v@.len() - i,
    {
        if str_eq(v[i].text.as_str(), s) {
            assert(rel_texts(v@)[i as int] == s@);
            return true;
        }
        i += 1;
    }
    false
}

/// Steps as they come out of a path.
pub open spec fn are_steps(v: Seq<Seq<char>>) -> bool {
    forall|i: int| 0 <= i < v.len() ==> real_step(#[trigger] v[i]) && !v[i].contains('/')
}

/// The steps of a path go somewhere, and none has a slash in it.
pub proof fn lemma_steps_are_steps(s: Seq<char>)
    ensures
        are_steps(steps(s)),
{
    let keep = |p: Seq<char>| real_step(p);
    let all = split_on(s, '/');
    lemma_split_unbroken(s, '/');
    assert forall|i: int| 0 <= i < steps(s).len() implies real_step(#[trigger] steps(s)[i])
        && !steps(s)[i].contains('/') by {
        lemma_filter_kept(all, keep, i);
        let j = choose|j: int| 0 <= j < all.len() && all[j] == steps(s)[i];
        assert(!all[j].contains('/'));
    }
}

/// Steps that are joined to a path are its steps.
pub proof fn lemma_joined_steps(v: Seq<Seq<char>>)
    requires
        are_steps(v),
    ensures
        steps(joined(v, "/"@)) == v,
{
    reveal_strlit("/");
    let keep = |p: Seq<char>| real_step(p);
    assert("/"@ =~= seq!['/']);
    if v.len() == 0 {
        let none = Seq::<char>::empty();
        assert(split_on(none, '/') =~= seq![none]);
        reveal(Seq::filter);
        let e = Seq::<Seq<char>>::empty();
        e.lemma_filter_push(none, keep);
        assert(e.push(none) =~= seq![none]);
        assert(steps(joined(v, "/"@)) =~= v);
    } else {
        lemma_joined_split(v, '/');
        lemma_filter_all(v, keep);
    }
}

/// A path taken from a place has the steps of both.
pub proof fn lemma_steps_add(a: Seq<char>, b: Seq<char>)
    ensures
        steps(a + "/"@ + b) == steps(a) + steps(b),
{
    reveal_strlit("/");
    let keep = |p: Seq<char>| real_step(p);
    assert(a + "/"@ + b =~= a.push('/') + b);
    lemma_split_break(a, '/', b);
    Seq::filter_distributes_over_add(split_on(a, '/'), split_on(b, '/'), keep);
}

/// A path is relative where it has at least one step and neither starts at the root nor has a step
/// up; it is then spelled by its steps alone.
pub proof fn law_relative_paths_lead_below(s: Seq<char>, v: Seq<Seq<char>>)
    requires
        forall|i: int|
            0 <= i < v.len() ==> (#[trigger] v[i]).len() > 0 && v[i] != "."@ && v[i] != ".."@
                && !v[i].contains('/'),
        v.len() > 0,
    ensures
        relative(joined(v, "/"@)) == Some(joined(v, "/"@)),
        s.len() > 0 && s[0] == '/' ==> relative(s) is None,
        steps(s).len() == 0 ==> relative(s) is None,
        forall|i: int| 0 <= i < steps(s).len() && #[trigger] steps(s)[i] == ".."@ ==> relative(s) is None,
        relative(s) matches Some(p) ==> steps(p) == steps(s),
{
    reveal_strlit("/");
    reveal_strlit(".");
    assert("/"@ =~= seq!['/']);
    assert(are_steps(v)) by {
        assert forall|i: int| 0 <= i < v.len() implies real_step(#[trigger] v[i])
            && !v[i].contains('/') by {}
    }
    lemma_joined_steps(v);
    lemma_joined_starts(v, "/"@);
    let j = joined(v, "/"@);
    if j[0] == '/' {
        assert(v[0][0] == '/');
        assert(v[0].contains('/'));
    }
    if v.contains(".."@) {
        let i = choose|i: int| 0 <= i < v.len() && v[i] == ".."@;
        assert(v[i] != ".."@);
    }
    assert forall|i: int| 0 <= i < steps(s).len() && #[trigger] steps(s)[i] == ".."@ implies relative(
        s,
    ) is None by {
        assert(steps(s).contains(".."@));
    }
    lemma_steps_are_steps(s);
    lemma_joined_steps(steps(s));
}

} // verus!
