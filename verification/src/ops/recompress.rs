//! `recompress`.

use vstd::prelude::*;

use crate::error::BpmError;
use crate::mechanics::recompress::RecompressReport;
use crate::store::{ProjectState, Stage};
use crate::util::text::{cat2, cat3, cat5, dec_u64};
#[allow(unused_imports)]
use crate::util::text::dec;

verus! {

/// Whether there is anything to recompress.
pub fn check_targets(count: usize) -> (r: Result<(), BpmError>)
    ensures
        match r {
            Ok(_) => count > 0,
            Err(e) => count == 0 && e is Usage && e->Usage_0@
                == "name projects or pass --all-cold"@,
        },
{
    if count == 0 {
        return Err(BpmError::Usage("name projects or pass --all-cold".to_owned()));
    }
    Ok(())
}

/// Whether a project is recompressed where every cold one is.
pub fn is_cold(st: &ProjectState) -> (r: bool)
    ensures
        r == (st.stage == Stage::Cold),
{
    st.stage == Stage::Cold
}

/// The level of a recompression: that of the policy, where the user does not say.
pub fn level(asked: Option<u8>, policy: u8) -> (r: u8)
    ensures
        r == match asked {
            Some(l) => l,
            None => policy,
        },
{
    match asked {
        Some(l) => l,
        None => policy,
    }
}

/// The line of a recompression.
pub open spec fn recompress_line(name: Seq<char>, r: RecompressReport) -> Seq<char> {
    if r.done {
        name + ": recompressed at zstd:"@ + dec(r.level as nat) + " (snapshot #"@ + dec(
            match r.new_snapshot {
                Some(i) => i as nat,
                None => 0,
            },
        ) + ")"@
    } else {
        name + ": skipped: "@ + (match r.skipped {
            Some(s) => s@,
            None => Seq::empty(),
        })
    }
}

/// The line of a recompression.
pub fn run(name: &str, r: &RecompressReport) -> (t: String)
    ensures
        t@ == recompress_line(name@, *r),
{
    if r.done {
        let id: u64 = match r.new_snapshot {
            Some(i) => i,
            None => 0,
        };
        return cat5(
            name,
            ": recompressed at zstd:",
            dec_u64(r.level as u64).as_str(),
            " (snapshot #",
            cat2(dec_u64(id).as_str(), ")").as_str(),
        );
    }
    let why = match &r.skipped {
        Some(s) => s.clone(),
        None => String::new(),
    };
    let t = cat3(name, ": skipped: ", why.as_str());
    assert(t@ =~= recompress_line(name@, *r));
    t
}

} // verus!
