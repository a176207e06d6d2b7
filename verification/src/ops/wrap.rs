//! `wrap -- cmd…`: pre snapshot, run the command as the calling user, post snapshot.

use vstd::prelude::*;

use crate::outside;
use crate::util::text::{cat2, cat3, cat5, chars_of, dec_u64, join, string_of};
#[allow(unused_imports)]
use crate::util::text::{dec, joined, texts};

verus! {

/// Why a command is wrapped: the command itself, where the user does not say.
pub open spec fn wrap_reason_of(reason: Seq<char>, command: Seq<Seq<char>>) -> Seq<char> {
    if reason.len() == 0 {
        let line = joined(command, " "@);
        if line.len() <= 200 {
            line
        } else {
            line.take(200)
        }
    } else {
        reason
    }
}

/// Why a command is wrapped.
pub fn wrap_reason(reason: &str, command: &Vec<String>) -> (r: String)
    ensures
        r@ == wrap_reason_of(reason@, texts(command@)),
{
    if !reason.is_empty() {
        return reason.to_owned();
    }
    let line = join(command, " ");
    let v = chars_of(line.as_str());
    if v.len() <= 200 {
        return line;
    }
    let head = string_of(&v, 0, 200);
    assert(head@ =~= line@.take(200));
    head
}

/// How the program is called to take a snapshot around a command.
pub open spec fn snap_line(
    name: Seq<char>,
    kind: Seq<char>,
    reason: Seq<char>,
    root: Seq<char>,
    pair: Option<u64>,
) -> Seq<Seq<char>> {
    seq!["--json"@, "snap"@, name, "--kind"@, kind, "--reason"@, reason, "--root"@, root] + (
    match pair {
        Some(p) => seq!["--pair"@, dec(p as nat)],
        None => seq![],
    })
}

/// How the program is called to take a snapshot around a command.
pub fn spawn_snap(name: &str, kind: &str, reason: &str, root: &str, pair: Option<u64>) -> (r: Vec<
    String,
>)
    ensures
        texts(r@) == snap_line(name@, kind@, reason@, root@, pair),
{
    let mut v = vec![
        "--json".to_owned(),
        "snap".to_owned(),
        name.to_owned(),
        "--kind".to_owned(),
        kind.to_owned(),
        "--reason".to_owned(),
        reason.to_owned(),
        "--root".to_owned(),
        root.to_owned(),
    ];
    if let Some(p) = pair {
        v.push("--pair".to_owned());
        v.push(dec_u64(p));
    }
    assert(texts(v@) =~= snap_line(name@, kind@, reason@, root@, pair));
    v
}

/// White space between the parts of a JSON document.
pub open spec fn json_blank(b: u8) -> bool {
    b == 32 || b == 9 || b == 10 || b == 13
}

/// A JSON document is a list: its first byte that is no white space opens one.
pub open spec fn is_list(doc: Seq<u8>) -> bool
    decreases doc.len(),
{
    doc.len() > 0 && if json_blank(doc[0]) {
        is_list(doc.skip(1))
    } else {
        doc[0] == 91
    }
}

fn begins_list(doc: &[u8]) -> (r: bool)
    ensures
        r == is_list(doc@),
{
    let mut i: usize = 0;
    assert(doc@.skip(0) =~= doc@);
    while i < doc.len()
        invariant
            i <= doc@.len(),
            is_list(doc@) == is_list(doc@.skip(i as int)),
        decreases doc@.len() - i,
    {
        let b: u8 = doc[i];
        assert(doc@.skip(i as int)[0] == b);
        assert(doc@.skip(i as int).skip(1) =~= doc@.skip(i + 1));
        if !(b == 32 || b == 9 || b == 10 || b == 13) {
            return b == 91;
        }
        i += 1;
    }
    false
}

/// The id of the first snapshot in a list of them that the program printed.
pub open spec fn printed_id(doc: Seq<u8>) -> Option<u64> {
    if is_list(doc) {
        outside::json_number_at(doc, "/0/id"@)
    } else {
        None
    }
}

/// The id of the snapshot that was taken, by what the program printed.
pub fn snap_id(kind: &str, success: bool, stdout: &[u8]) -> (r: Result<u64, String>)
    ensures
        match r {
            Ok(id) => success && outside::json_fault(stdout@) is None && printed_id(stdout@)
                == Some(id),
            Err(m) => if !success {
                m@ == "bpm snap --kind "@ + kind@ + " failed"@
            } else {
                match outside::json_fault(stdout@) {
                    Some(e) => m@ == "parse bpm snap output: "@ + e,
                    None => printed_id(stdout@) is None && m@ == "bpm snap returned no id"@,
                }
            },
        },
{
    if !success {
        return Err(cat3("bpm snap --kind ", kind, " failed"));
    }
    if let Some(e) = outside::json_error(stdout) {
        return Err(cat2("parse bpm snap output: ", e.as_str()));
    }
    if begins_list(stdout) {
        if let Some(id) = outside::json_number(stdout, "/0/id") {
            return Ok(id);
        }
    }
    Err("bpm snap returned no id".to_owned())
}

/// What is said before the command.
pub fn pre_message(name: &str, pre: u64) -> (r: String)
    ensures
        r@ == "bpm: "@ + name@ + ": pre snapshot #"@ + dec(pre as nat),
{
    cat2(cat3("bpm: ", name, ": pre snapshot #").as_str(), dec_u64(pre).as_str())
}

/// What is said after the command.
pub fn post_message(name: &str, pre: u64, post: u64) -> (r: String)
    ensures
        r@ == "bpm: "@ + name@ + ": post snapshot #"@ + dec(post as nat)
            + " (compare with `bpm diff "@ + name@ + " "@ + dec(pre as nat) + " "@ + dec(
            post as nat,
        ) + "`)"@,
{
    let mut m = cat5(
        "bpm: ",
        name,
        ": post snapshot #",
        dec_u64(post).as_str(),
        " (compare with `bpm diff ",
    );
    m.append(name);
    m.append(" ");
    m.append(dec_u64(pre).as_str());
    m.append(" ");
    m.append(dec_u64(post).as_str());
    m.append("`)");
    m
}

/// A document is a list where a square bracket is the first thing in it that is no white space.
pub proof fn law_lists_open_with_a_bracket(doc: Seq<u8>, n: int)
    requires
        0 <= n < doc.len(),
        forall|i: int|
            0 <= i < n ==> #[trigger] doc[i] == 0x20 || doc[i] == 0x09 || doc[i] == 0x0a || doc[i]
                == 0x0d,
        !(doc[n] == 0x20 || doc[n] == 0x09 || doc[n] == 0x0a || doc[n] == 0x0d),
    ensures
        is_list(doc) <==> doc[n] == 0x5b,
        !is_list(Seq::empty()),
    decreases n,
{
    if n > 0 {
        let t = doc.skip(1);
        assert forall|i: int| 0 <= i < n - 1 implies #[trigger] t[i] == 0x20 || t[i] == 0x09 || t[i]
            == 0x0a || t[i] == 0x0d by {
            assert(t[i] == doc[i + 1]);
        }
        assert(t[n - 1] == doc[n]);
        law_lists_open_with_a_bracket(t, n - 1);
        assert(json_blank(doc[0]));
    }
}

/// A command is its own reason where no other is given, up to its first 200 characters.
pub proof fn law_commands_are_their_own_reason(reason: Seq<char>, command: Seq<Seq<char>>)
    ensures
        reason.len() > 0 ==> wrap_reason_of(reason, command) == reason,
        reason.len() == 0 ==> ({
            let r = wrap_reason_of(reason, command);
            let line = joined(command, " "@);
            &&& r.len() <= 200 && r.len() <= line.len() && r == line.take(r.len() as int)
            &&& r.len() == 200 || r.len() == line.len()
        }),
{
    let line = joined(command, " "@);
    assert(line.take(line.len() as int) =~= line);
}

/// A snapshot around a command is taken of the project, and as one of a pair where there is one
/// before it.
pub proof fn law_pairs_are_named(
    name: Seq<char>,
    kind: Seq<char>,
    reason: Seq<char>,
    root: Seq<char>,
    pair: Option<u64>,
)
    ensures
        ({
            let l = snap_line(name, kind, reason, root, pair);
            &&& l[2] == name && l[4] == kind && l[6] == reason && l[8] == root
            &&& pair is None ==> l.len() == 9
            &&& pair matches Some(p) ==> l.len() == 11 && l[9] == "--pair"@ && l[10] == dec(p as nat)
        }),
{
}

} // verus!
