//! Errors that carry a distinct process exit code.

use vstd::prelude::*;

use crate::util::text::{cat2, cat3, cat4, dec_u64};
#[allow(unused_imports)]
use crate::util::text::dec;

verus! {

#[derive(Debug, PartialEq, Eq)]
pub enum BpmError {
    Usage(String),
    HookVeto { hook: String, detail: String },
    Locked { holder: String },
    NeedsRoot(String),
    NotFound(String),
    Refused(String),
    Partial { failed: usize },
}

/// The exit code of each kind of error.
pub open spec fn code_of(e: BpmError) -> i32 {
    match e {
        BpmError::Usage(_) => 2,
        BpmError::HookVeto { .. } => 3,
        BpmError::Locked { .. } => 4,
        BpmError::NeedsRoot(_) => 5,
        BpmError::NotFound(_) => 6,
        BpmError::Refused(_) => 7,
        BpmError::Partial { .. } => 8,
    }
}

/// What is said of an error.
pub open spec fn message_of(e: BpmError) -> Seq<char> {
    match e {
        BpmError::Usage(m) => m@,
        BpmError::HookVeto { hook, detail } => "vetoed by hook "@ + hook@ + ": "@ + detail@,
        BpmError::Locked { holder } => "locked by another bpm process ("@ + holder@ + ")"@,
        BpmError::NeedsRoot(m) => "this command needs root: "@ + m@,
        BpmError::NotFound(m) => "not found: "@ + m@,
        BpmError::Refused(m) => "refused: "@ + m@,
        BpmError::Partial { failed } => dec(failed as nat) + " project(s) had errors"@,
    }
}

impl BpmError {
    pub fn exit_code(&self) -> (r: i32)
        ensures
            r == code_of(*self),
    {
        match self {
            BpmError::Usage(_) => 2,
            BpmError::HookVeto { .. } => 3,
            BpmError::Locked { .. } => 4,
            BpmError::NeedsRoot(_) => 5,
            BpmError::NotFound(_) => 6,
            BpmError::Refused(_) => 7,
            BpmError::Partial { .. } => 8,
        }
    }

    /// What is said of the error.
    pub fn message(&self) -> (r: String)
        ensures
            r@ == message_of(*self),
    {
        match self {
            BpmError::Usage(m) => m.clone(),
            BpmError::HookVeto { hook, detail } => cat4(
                "vetoed by hook ",
                hook.as_str(),
                ": ",
                detail.as_str(),
            ),
            BpmError::Locked { holder } => cat3(
                "locked by another bpm process (",
                holder.as_str(),
                ")",
            ),
            BpmError::NeedsRoot(m) => cat2("this command needs root: ", m.as_str()),
            BpmError::NotFound(m) => cat2("not found: ", m.as_str()),
            BpmError::Refused(m) => cat2("refused: ", m.as_str()),
            BpmError::Partial { failed } => cat2(
                dec_u64(*failed as u64).as_str(),
                " project(s) had errors",
            ),
        }
    }
}

/// One link of a chain of causes.
pub enum Cause {
    Bpm(BpmError),
    Other(String),
}

/// The exit code for a chain of causes: the first error of ours decides, otherwise 1.
pub open spec fn chain_code(c: Seq<Cause>) -> i32
    decreases c.len(),
{
    if c.len() == 0 {
        1
    } else {
        match c[0] {
            Cause::Bpm(e) => code_of(e),
            Cause::Other(_) => chain_code(c.skip(1)),
        }
    }
}

/// Exit code for any error: a `BpmError` anywhere in the chain decides, otherwise 1.
pub fn exit_code_for(chain: &Vec<Cause>) -> (r: i32)
    ensures
        r == chain_code(chain@),
{
    let mut i: usize = 0;
    assert(chain@.skip(0) =~= chain@);
    while i < chain.len()
        invariant
            i <= chain@.len(),
            chain_code(chain@) == chain_code(chain@.skip(i as int)),
        decreases chain@.len() - i,
    {
        assert(chain@.skip(i as int)[0] == chain@[i as int]);
        if let Cause::Bpm(e) = &chain[i] {
            return e.exit_code();
        }
        assert(chain@.skip(i as int).skip(1) =~= chain@.skip(i + 1));
        i += 1;
    }
    1
}

pub fn refused(msg: String) -> (r: BpmError)
    ensures
        r == BpmError::Refused(msg),
{
    BpmError::Refused(msg)
}

pub fn not_found(msg: String) -> (r: BpmError)
    ensures
        r == BpmError::NotFound(msg),
{
    BpmError::NotFound(msg)
}

pub fn usage(msg: String) -> (r: BpmError)
    ensures
        r == BpmError::Usage(msg),
{
    BpmError::Usage(msg)
}

/// Whether two errors are of the same kind.
pub open spec fn same_kind(a: BpmError, b: BpmError) -> bool {
    match (a, b) {
        (BpmError::Usage(_), BpmError::Usage(_)) => true,
        (BpmError::HookVeto { .. }, BpmError::HookVeto { .. }) => true,
        (BpmError::Locked { .. }, BpmError::Locked { .. }) => true,
        (BpmError::NeedsRoot(_), BpmError::NeedsRoot(_)) => true,
        (BpmError::NotFound(_), BpmError::NotFound(_)) => true,
        (BpmError::Refused(_), BpmError::Refused(_)) => true,
        (BpmError::Partial { .. }, BpmError::Partial { .. }) => true,
        _ => false,
    }
}

/// Each kind of error has an exit code of its own, none of them that of success or of an
/// error of another origin.
pub proof fn law_exit_codes_distinct(a: BpmError, b: BpmError)
    ensures
        code_of(a) == code_of(b) <==> same_kind(a, b),
        code_of(a) != 0,
        code_of(a) != 1,
{
}

/// Whatever was wrapped around an error of ours, its code is the one that the program ends with;
/// without one it ends with 1.
pub proof fn law_the_first_error_of_ours_decides(c: Seq<Cause>, e: BpmError, rest: Seq<Cause>)
    requires
        forall|i: int| 0 <= i < c.len() ==> (#[trigger] c[i]) is Other,
    ensures
        chain_code(c) == 1,
        chain_code(c + seq![Cause::Bpm(e)] + rest) == code_of(e),
    decreases c.len(),
{
    let all = c + seq![Cause::Bpm(e)] + rest;
    if c.len() > 0 {
        assert forall|i: int| 0 <= i < c.skip(1).len() implies (#[trigger] c.skip(1)[i]) is Other by {
            assert(c[i + 1] is Other);
        }
        law_the_first_error_of_ours_decides(c.skip(1), e, rest);
        assert(c[0] is Other);
        assert(all.skip(1) =~= c.skip(1) + seq![Cause::Bpm(e)] + rest);
    } else {
        assert(all[0] == Cause::Bpm(e));
    }
}

} // verus!
