//! `hold` and `unhold`.

use vstd::prelude::*;

use crate::store::SnapshotMeta;
use crate::util::text::{cat2, cat4, dec_u64, join};
#[allow(unused_imports)]
use crate::util::text::{dec, joined, texts};

verus! {

/// The note of a snapshot that is held or released.
pub open spec fn note_for(hold: bool, note: Seq<char>, user: Seq<char>) -> Seq<char> {
    if !hold {
        Seq::empty()
    } else if note.len() == 0 {
        "held by "@ + user
    } else {
        note
    }
}

/// Holds or releases a snapshot; false where it is held or released already.
pub fn run(m: &mut SnapshotMeta, hold: bool, note: &str, user: &str) -> (changed: bool)
    ensures
        changed == (old(m).hold != hold),
        !changed ==> *final(m) == *old(m),
        changed ==> *final(m) == (SnapshotMeta {
            hold,
            hold_note: final(m).hold_note,
            ..*old(m)
        }) && final(m).hold_note@ == note_for(hold, note@, user@),
{
    if m.hold == hold {
        return false;
    }
    m.hold = hold;
    m.hold_note = if !hold {
        String::new()
    } else if note.is_empty() {
        cat2("held by ", user)
    } else {
        note.to_owned()
    };
    assert(m.hold_note@ =~= note_for(hold, note@, user@));
    true
}

/// The lines of the snapshots that were held or released.
pub open spec fn hold_lines(name: Seq<char>, ids: Seq<u64>, hold: bool) -> Seq<Seq<char>> {
    Seq::new(
        ids.len(),
        |i: int|
            name + ": #"@ + dec(ids[i] as nat) + (if hold {
                " held"@
            } else {
                " released"@
            }),
    )
}

/// What is printed of the snapshots that were held or released.
pub fn hold_text(name: &str, ids: &Vec<u64>, hold: bool) -> (r: String)
    ensures
        r@ == joined(hold_lines(name@, ids@, hold), "\n"@),
{
    let verb = if hold {
        " held"
    } else {
        " released"
    };
    let mut lines: Vec<String> = Vec::new();
    let ghost all = hold_lines(name@, ids@, hold);
    let mut i: usize = 0;
    assert(texts(lines@) =~= all.take(0));
    while i < ids.len()
        invariant
            i <= ids@.len(),
            all == hold_lines(name@, ids@, hold),
            verb@ == if hold {
                " held"@
            } else {
                " released"@
            },
            texts(lines@) == all.take(i as int),
        decreases ids@.len() - i,
    {
        let ghost before = texts(lines@);
        lines.push(cat4(name, ": #", dec_u64(ids[i]).as_str(), verb));
        assert(texts(lines@) =~= before.push(all[i as int]));
        assert(all.take(i + 1) =~= before.push(all[i as int]));
        i += 1;
    }
    assert(all.take(i as int) =~= all);
    join(&lines, "\n")
}

/// A note stays with a snapshot only as long as that is held: a held one has the note that was
/// given, or else one that names the user, and a released one has none.
pub proof fn law_notes_go_with_the_hold(note: Seq<char>, user: Seq<char>)
    ensures
        note_for(false, note, user).len() == 0,
        note.len() > 0 ==> note_for(true, note, user) == note,
        note.len() == 0 ==> exists|by: Seq<char>|
            by.len() > 0 && #[trigger] (by + user) == note_for(true, note, user),
{
    reveal_strlit("held by ");
    assert("held by "@.len() > 0);
    if note.len() == 0 {
        assert("held by "@ + user == note_for(true, note, user));
    }
}

} // verus!
