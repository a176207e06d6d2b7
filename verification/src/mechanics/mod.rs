//! The decisions of multi-step procedures: snapshot, delete, adopt, banlist, rollback, restore,
//! collapse, recompress, archive.

use vstd::prelude::*;

use crate::btrfs::Uuid;
#[allow(unused_imports)]
use crate::btrfs::uuid_text;
use crate::config::effective::EffectiveConfig;
#[allow(unused_imports)]
use crate::config::effective::normalized;
use crate::project::ProjectRef;
use crate::store::Unit;
#[allow(unused_imports)]
use crate::util::relpath::rel_texts;
use crate::util::text::{cat3, copy_list};
#[allow(unused_imports)]
use crate::util::text::texts;

pub mod adopt;
pub mod archive;
pub mod banlist;
pub mod guard;
pub mod observe;
pub mod recompress;
pub mod retire;
pub mod rollback;
pub mod snapshot;
pub mod xattr;

verus! {

/// Everything needed to snapshot one live subvolume into one store unit.
pub struct Target {
    pub unit: Unit,
    pub name: String,
    pub live: String,
    pub root: String,
    pub expected_uuid: Option<Uuid>,
    pub owner: Option<(u32, u32)>,
    pub stats_exclude: Vec<String>,
    pub sentinels: Vec<String>,
}

impl Target {
    pub fn for_project(pref: &ProjectRef, eff: &EffectiveConfig) -> (r: Target)
        ensures
            r.unit == pref.unit,
            r.name@ == pref.unit.name@,
            r.live@ == pref.record.path@,
            r.root@ == pref.root.path@,
            r.expected_uuid == Some(pref.record.uuid),
            r.owner == Some((pref.record.owner_uid, pref.record.owner_gid)),
            texts(r.stats_exclude@) == rel_texts(eff.banlist@) + normalized(
                texts(eff.policy.shrink_guard.exclude@),
            ),
            texts(r.sentinels@) == texts(eff.sentinels@),
    {
        Target {
            unit: pref.unit.copy(),
            name: pref.unit.name.clone(),
            live: pref.record.path.clone(),
            root: pref.root.path.clone(),
            expected_uuid: Some(pref.record.uuid),
            owner: Some((pref.record.owner_uid, pref.record.owner_gid)),
            stats_exclude: eff.stats_exclude(),
            sentinels: copy_list(&eff.sentinels),
        }
    }
}

/// An identity that may be missing, in messages.
pub open spec fn uuid_or_none(u: Option<Uuid>) -> Seq<char> {
    match u {
        Some(x) => "Some("@ + uuid_text(x@) + ")"@,
        None => "None"@,
    }
}

/// An identity that may be missing, in messages.
pub fn show_uuid(u: &Option<Uuid>) -> (r: String)
    ensures
        r@ == uuid_or_none(*u),
{
    match u {
        Some(x) => cat3("Some(", x.to_string().as_str(), ")"),
        None => "None".to_owned(),
    }
}

} // verus!
