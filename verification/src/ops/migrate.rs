//! `migrate-from-snapper`: stop snapper's timeline on a root and hand it over.

use vstd::prelude::*;

use crate::btrfs::{SubvolInfo, Uuid};
use crate::config::schema::RootCfg;
use crate::error::BpmError;
use crate::ops::doctor::value_of;
#[allow(unused_imports)]
use crate::ops::doctor::value_in;
use crate::store::{Origin, SnapshotKind, SnapshotMeta, CONTAINER};
#[allow(unused_imports)]
use crate::output::row_texts;
use crate::util::order::stable_order;
#[allow(unused_imports)]
use crate::util::order::is_stable_order;
use crate::util::paths::path_eq;
#[allow(unused_imports)]
use crate::util::paths::same_path;
use crate::util::text::{
    cat2, cat3, cat4, cat5, chars_of, dec_u64, find, join, string_of,
};
#[allow(unused_imports)]
use crate::util::text::{dec, has_text, joined, lines_of, occurs, texts};
use crate::util::time::Timestamp;

verus! {

/// Position `i` is the first root at a place.
pub open spec fn is_root_at(roots: Seq<RootCfg>, place: Seq<char>, i: int) -> bool {
    0 <= i < roots.len() && same_path(roots[i].path@, place) && forall|j: int|
        0 <= j < i ==> !same_path((#[trigger] roots[j]).path@, place)
}

/// The root that a snapper configuration is about; `text` is the configuration named `name`.
pub fn snapper_root(text: &str, name: &str, roots: &Vec<RootCfg>) -> (r: Result<usize, BpmError>)
    ensures
        ({
            let place = value_in(lines_of(text@), "SUBVOLUME"@);
            match r {
                Ok(i) => place is Some && is_root_at(roots@, place->0, i as int),
                Err(e) => e is Usage && match place {
                    None => e->Usage_0@ == "snapper config has no SUBVOLUME"@,
                    Some(p) => (forall|j: int|
                        0 <= j < roots@.len() ==> !same_path((#[trigger] roots@[j]).path@, p))
                        && e->Usage_0@ == "snapper config "@ + name@ + " manages "@ + p
                        + ", which is not a bpm root"@,
                },
            }
        }),
{
    let place = match value_of(text, "SUBVOLUME") {
        Some(p) => p,
        None => {
            return Err(BpmError::Usage("snapper config has no SUBVOLUME".to_owned()));
        },
    };
    let mut i: usize = 0;
    while i < roots.len()
        invariant
            i <= roots@.len(),
            value_in(lines_of(text@), "SUBVOLUME"@) == Some(place@),
            forall|j: int| 0 <= j < i ==> !same_path((#[trigger] roots@[j]).path@, place@),
        decreases roots@.len() - i,
    {
        if path_eq(roots[i].path.as_str(), place.as_str()) {
            return Ok(i);
        }
        i += 1;
    }
    Err(
        BpmError::Usage(
            cat5(
                "snapper config ",
                name,
                " manages ",
                place.as_str(),
                ", which is not a bpm root",
            ),
        ),
    )
}

/// Whether the migration can begin.
pub fn check_start(store_exists: bool, delete_snapper: bool, yes: bool) -> (r: Result<(), BpmError>)
    ensures
        match r {
            Ok(_) => store_exists && (!delete_snapper || yes),
            Err(e) => e is Refused && if !store_exists {
                e->Refused_0@ == "run `bpm setup` first"@
            } else {
                delete_snapper && !yes && e->Refused_0@
                    == "--delete-snapper deletes snapper's snapshots of this root; add --yes"@
            },
        },
{
    if !store_exists {
        return Err(BpmError::Refused("run `bpm setup` first".to_owned()));
    }
    if delete_snapper && !yes {
        return Err(
            BpmError::Refused(
                "--delete-snapper deletes snapper's snapshots of this root; add --yes".to_owned(),
            ),
        );
    }
    Ok(())
}

/// How snapper is called so that it takes and cleans up nothing more.
pub fn stop_args(config: &str) -> (r: Vec<String>)
    ensures
        texts(r@) == seq![
            "-c"@,
            config@,
            "set-config"@,
            "TIMELINE_CREATE=no"@,
            "TIMELINE_CLEANUP=no"@,
            "NUMBER_CLEANUP=no"@,
        ],
{
    let v = vec![
        "-c".to_owned(),
        config.to_owned(),
        "set-config".to_owned(),
        "TIMELINE_CREATE=no".to_owned(),
        "TIMELINE_CLEANUP=no".to_owned(),
        "NUMBER_CLEANUP=no".to_owned(),
    ];
    assert(texts(v@) =~= seq![
        "-c"@,
        config@,
        "set-config"@,
        "TIMELINE_CREATE=no"@,
        "TIMELINE_CLEANUP=no"@,
        "NUMBER_CLEANUP=no"@,
    ]);
    v
}

/// The step of a call of snapper.
pub fn snapper(args: &Vec<String>) -> (r: String)
    ensures
        r@ == "snapper "@ + joined(texts(args@), " "@),
{
    cat2("snapper ", join(args, " ").as_str())
}

/// Where a text first stands.
pub open spec fn first_place(s: Seq<char>, p: Seq<char>, i: int) -> bool {
    occurs(s, p, i) && forall|j: int| 0 <= j < i ==> !#[trigger] occurs(s, p, j)
}

/// What follows the first `p` in `s`.
pub open spec fn after_first(s: Seq<char>, p: Seq<char>) -> Option<Seq<char>> {
    if has_text(s, p) {
        Some(s.skip(choose_first(s, p) + p.len()))
    } else {
        None
    }
}

/// What comes before the first `p` in `s`: all of it where there is none.
pub open spec fn before_first(s: Seq<char>, p: Seq<char>) -> Seq<char> {
    if has_text(s, p) {
        s.take(choose_first(s, p))
    } else {
        s
    }
}

pub open spec fn choose_first(s: Seq<char>, p: Seq<char>) -> int {
    choose|i: int| first_place(s, p, i)
}

proof fn lemma_first_unique(s: Seq<char>, p: Seq<char>, i: int)
    requires
        first_place(s, p, i),
        i >= 0,
    ensures
        choose_first(s, p) == i,
{
    let c = choose_first(s, p);
    assert(first_place(s, p, c));
    if c < i {
        assert(!occurs(s, p, c));
    } else if i < c {
        assert(!occurs(s, p, i));
    }
}

/// The description in what snapper writes down of a snapshot: what stands between the first
/// opening tag and the next opening or closing one.
pub open spec fn description_of(info: Seq<char>) -> Seq<char> {
    match after_first(info, "<description>"@) {
        Some(rest) => before_first(before_first(rest, "<description>"@), "</description>"@),
        None => Seq::empty(),
    }
}

fn cut_before(s: &str, p: &str) -> (r: String)
    ensures
        r@ == before_first(s@, p@),
{
    match find(s, p) {
        Some(i) => {
            proof {
                assert(first_place(s@, p@, i as int));
                lemma_first_unique(s@, p@, i as int);
            }
            let v = chars_of(s);
            let t = string_of(&v, 0, i);
            assert(t@ =~= s@.take(i as int));
            t
        },
        None => s.to_owned(),
    }
}

/// The description in what snapper writes down of a snapshot.
pub fn description(info: &str) -> (r: String)
    ensures
        r@ == description_of(info@),
{
    match find(info, "<description>") {
        Some(i) => {
            proof {
                assert(first_place(info@, "<description>"@, i as int));
                lemma_first_unique(info@, "<description>"@, i as int);
            }
            let v = chars_of(info);
            let n: usize = v.len();
            let tag = chars_of("<description>");
            let rest = string_of(&v, i + tag.len(), n);
            assert(rest@ =~= info@.skip(i + "<description>"@.len()));
            let part = cut_before(rest.as_str(), "<description>");
            cut_before(part.as_str(), "</description>")
        },
        None => String::new(),
    }
}

/// The order in which snapper's snapshots are taken over: by number.
pub fn by_number(numbers: &Vec<u64>) -> (r: Vec<usize>)
    ensures
        is_stable_order(numbers@, r@),
{
    stable_order(numbers)
}

/// The record of a snapshot that is taken over: it is held, and never thinned.
pub fn import_meta(
    id: u64,
    config: &str,
    number: u64,
    desc: &str,
    info: &SubvolInfo,
    origin: Origin,
    now: Timestamp,
) -> (r: SnapshotMeta)
    ensures
        r.format == 1,
        r.id == id,
        r.project@ == CONTAINER@,
        r.created == match info.otime {
            Some(t) => t,
            None => now,
        },
        r.kind == SnapshotKind::Import,
        r.reason@ == "snapper "@ + config@ + " #"@ + dec(number as nat) + " "@ + desc@,
        r.pair is None,
        r.hold,
        r.hold_note@ == "imported from snapper"@,
        match info.parent_uuid {
            Some(u) => r.source_uuid == u,
            None => r.source_uuid@ == Seq::new(16, |i: int| 0u8),
        },
        r.source_ctransid == info.ctransid,
        r.snapshot_uuid == info.uuid,
        r.snapshot_otransid == info.otransid,
        r.received_uuid is None,
        r.stats is None,
        r.origin == origin,
        crate::store::meta::never_thinned(r),
{
    let mut reason = cat5("snapper ", config, " #", dec_u64(number).as_str(), " ");
    reason.append(desc);
    SnapshotMeta {
        format: 1,
        id,
        project: CONTAINER.to_owned(),
        created: match info.otime {
            Some(t) => t,
            None => now,
        },
        kind: SnapshotKind::Import,
        reason,
        pair: None,
        hold: true,
        hold_note: "imported from snapper".to_owned(),
        source_uuid: match info.parent_uuid {
            Some(u) => u,
            None => Uuid::nil(),
        },
        source_ctransid: info.ctransid,
        snapshot_uuid: info.uuid,
        snapshot_otransid: info.otransid,
        received_uuid: None,
        stats: None,
        origin,
    }
}

/// What is said of a snapshot that is not of this root.
pub fn foreign_message(number: u64, root: &str) -> (r: String)
    ensures
        r@ == "snapper snapshot "@ + dec(number as nat) + " is not a snapshot of "@ + root@
            + "; left alone"@,
{
    cat5(
        "snapper snapshot ",
        dec_u64(number).as_str(),
        " is not a snapshot of ",
        root,
        "; left alone",
    )
}

/// The step of a snapshot that is taken over.
pub fn import_step(number: u64, id: u64) -> (r: String)
    ensures
        r@ == "import snapper #"@ + dec(number as nat) + " as container snapshot #"@ + dec(
            id as nat,
        ),
{
    cat4(
        "import snapper #",
        dec_u64(number).as_str(),
        " as container snapshot #",
        dec_u64(id).as_str(),
    )
}

/// The steps of moving a snapshot over, and its ends. A read-only subvolume cannot move to
/// another directory, so it is made writable for the move.
#[derive(Clone, Copy, Debug, PartialEq, Eq, Structural)]
pub enum ImportStep {
    /// Metadata first: an interrupted import leaves a directory marked as imported, which cleanup
    /// never deletes.
    WriteMeta,
    MakeWritable,
    Move,
    /// Make the snapshot read-only again in its new place.
    Protect,
    Publish,
    Done,
    /// The move failed: make it read-only again where it is and remove the directory.
    ProtectBack,
    Fail,
}

pub open spec fn after_import(s: ImportStep, ok: bool) -> ImportStep {
    match s {
        ImportStep::WriteMeta => if ok {
            ImportStep::MakeWritable
        } else {
            ImportStep::Fail
        },
        ImportStep::MakeWritable => if ok {
            ImportStep::Move
        } else {
            ImportStep::Fail
        },
        ImportStep::Move => if ok {
            ImportStep::Protect
        } else {
            ImportStep::ProtectBack
        },
        ImportStep::Protect => if ok {
            ImportStep::Publish
        } else {
            ImportStep::Fail
        },
        ImportStep::Publish => if ok {
            ImportStep::Done
        } else {
            ImportStep::Fail
        },
        ImportStep::ProtectBack => ImportStep::Fail,
        end => end,
    }
}

/// The step after one that went well or did not.
pub fn import_next(s: ImportStep, ok: bool) -> (r: ImportStep)
    ensures
        r == after_import(s, ok),
{
    match s {
        ImportStep::WriteMeta if ok => ImportStep::MakeWritable,
        ImportStep::MakeWritable if ok => ImportStep::Move,
        ImportStep::Move => if ok {
            ImportStep::Protect
        } else {
            ImportStep::ProtectBack
        },
        ImportStep::Protect if ok => ImportStep::Publish,
        ImportStep::Publish if ok => ImportStep::Done,
        ImportStep::Done => ImportStep::Done,
        _ => ImportStep::Fail,
    }
}

/// Where an import ends up when its steps go as `oks` says.
pub open spec fn import_run(oks: Seq<bool>) -> ImportStep
    decreases oks.len(),
{
    if oks.len() == 0 {
        ImportStep::WriteMeta
    } else {
        after_import(import_run(oks.drop_last()), oks.last())
    }
}

/// A snapshot is published only after it was recorded, moved and made read-only again, and it is
/// moved only after it was recorded.
pub proof fn law_imports_are_recorded_first(oks: Seq<bool>)
    ensures
        import_run(oks) == ImportStep::WriteMeta ==> oks.len() == 0,
        import_run(oks) == ImportStep::MakeWritable ==> oks.len() == 1 && oks[0],
        import_run(oks) == ImportStep::Move ==> oks.len() == 2 && oks[0] && oks[1],
        import_run(oks) == ImportStep::Protect ==> oks.len() == 3 && oks[0] && oks[1] && oks[2],
        import_run(oks) == ImportStep::Publish ==> oks.len() == 4 && oks[0] && oks[1] && oks[2]
            && oks[3],
    decreases oks.len(),
{
    if oks.len() > 0 {
        let rest = oks.drop_last();
        law_imports_are_recorded_first(rest);
        assert(forall|i: int| 0 <= i < rest.len() ==> rest[i] == oks[i]);
        assert(oks[oks.len() - 1] == oks.last());
    }
}

/// Whether snapper's snapshots can be deleted: not while something is unadopted that no snapshot
/// of the root protects.
pub fn check_delete(unadopted: &Vec<String>, container_snapshots: usize) -> (r: Result<
    (),
    BpmError,
>)
    ensures
        match r {
            Ok(_) => unadopted@.len() == 0 || container_snapshots > 0,
            Err(e) => unadopted@.len() > 0 && container_snapshots == 0 && e is Refused
                && e->Refused_0@ == "not deleting snapper snapshots: "@ + joined(
                texts(unadopted@),
                ", "@,
            )
                + " are still unadopted and no container snapshot protects them yet (run `bpm snap --container` or adopt them first)"@,
        },
{
    if unadopted.len() > 0 && container_snapshots == 0 {
        return Err(
            BpmError::Refused(
                cat3(
                    "not deleting snapper snapshots: ",
                    join(unadopted, ", ").as_str(),
                    " are still unadopted and no container snapshot protects them yet (run `bpm snap --container` or adopt them first)",
                ),
            ),
        );
    }
    Ok(())
}

/// Numbers as text.
pub open spec fn number_texts(n: Seq<u64>) -> Seq<Seq<char>> {
    Seq::new(n.len(), |i: int| dec(n[i] as nat))
}

/// How snapper is called to delete snapshots.
pub fn delete_args(config: &str, numbers: &Vec<u64>) -> (r: Vec<String>)
    ensures
        texts(r@) == seq!["-c"@, config@, "delete"@] + number_texts(numbers@),
{
    let mut v = vec!["-c".to_owned(), config.to_owned(), "delete".to_owned()];
    let ghost head = texts(v@);
    let ghost all = number_texts(numbers@);
    assert(head =~= seq!["-c"@, config@, "delete"@]);
    let mut i: usize = 0;
    assert(head + all.take(0) =~= head);
    while i < numbers.len()
        invariant
            i <= numbers@.len(),
            all == number_texts(numbers@),
            texts(v@) == head + all.take(i as int),
        decreases numbers@.len() - i,
    {
        let ghost before = texts(v@);
        v.push(dec_u64(numbers[i]));
        assert(texts(v@) =~= before.push(all[i as int]));
        assert(head + all.take(i + 1) =~= before.push(all[i as int]));
        i += 1;
    }
    assert(all.take(i as int) =~= all);
    v
}

/// What is noted once snapper's snapshots are deleted.
pub const FREED_LATER: &'static str =
    "space held by snapper snapshots is freed asynchronously (watch with `btrfs subvolume sync`)";

/// How snapper is called to delete the snapshots that are left, and its configuration after them.
pub fn deletion_calls(config: &str, numbers: &Vec<u64>) -> (r: Vec<Vec<String>>)
    ensures
        row_texts(r@) == (if numbers@.len() > 0 {
            seq![seq!["-c"@, config@, "delete"@] + number_texts(numbers@)]
        } else {
            Seq::empty()
        }) + seq![seq!["-c"@, config@, "delete-config"@]],
{
    let mut out: Vec<Vec<String>> = Vec::new();
    if numbers.len() > 0 {
        out.push(delete_args(config, numbers));
    }
    let ghost first = row_texts(out@);
    assert(first =~= (if numbers@.len() > 0 {
        seq![seq!["-c"@, config@, "delete"@] + number_texts(numbers@)]
    } else {
        Seq::empty()
    }));
    let last = vec!["-c".to_owned(), config.to_owned(), "delete-config".to_owned()];
    assert(texts(last@) =~= seq!["-c"@, config@, "delete-config"@]);
    out.push(last);
    assert(row_texts(out@) =~= first + seq![seq!["-c"@, config@, "delete-config"@]]);
    out
}

/// What is printed of a migration.
pub open spec fn migrated_text(
    steps: Seq<Seq<char>>,
    failed: Seq<Seq<char>>,
    adopt_all: bool,
    delete_snapper: bool,
    config: Seq<char>,
) -> Seq<char> {
    joined(steps, "\n"@) + (if failed.len() > 0 {
        "\nadoption failed for: "@ + joined(failed, ", "@)
            + " (retry when idle: bpm adopt <name>)"@
    } else {
        Seq::empty()
    }) + (if !adopt_all {
        "\nprojects will be adopted by the timer one per tick, or now with `bpm adopt --all`"@
    } else {
        Seq::empty()
    }) + (if !delete_snapper {
        "\nwhen everything is adopted: bpm migrate-from-snapper --snapper-config "@ + config
            + " --delete-snapper --yes"@
    } else {
        Seq::empty()
    })
}

/// What is printed of a migration, and how it ends.
pub fn run(
    steps: &Vec<String>,
    failed: &Vec<String>,
    adopt_all: bool,
    delete_snapper: bool,
    config: &str,
) -> (r: (String, Result<(), BpmError>))
    ensures
        r.0@ == migrated_text(texts(steps@), texts(failed@), adopt_all, delete_snapper, config@),
        r.1 == if failed@.len() > 0 {
            Err::<(), BpmError>(BpmError::Partial { failed: failed@.len() as usize })
        } else {
            Ok::<(), BpmError>(())
        },
{
    let mut s = join(steps, "\n");
    assert(texts(failed@).len() == failed@.len());
    if failed.len() > 0 {
        s.append(
            cat3(
                "\nadoption failed for: ",
                join(failed, ", ").as_str(),
                " (retry when idle: bpm adopt <name>)",
            ).as_str(),
        );
    }
    if !adopt_all {
        s.append(
            "\nprojects will be adopted by the timer one per tick, or now with `bpm adopt --all`",
        );
    }
    if !delete_snapper {
        s.append(
            cat3(
                "\nwhen everything is adopted: bpm migrate-from-snapper --snapper-config ",
                config,
                " --delete-snapper --yes",
            ).as_str(),
        );
    }
    assert(s@ =~= migrated_text(
        texts(steps@),
        texts(failed@),
        adopt_all,
        delete_snapper,
        config@,
    ));
    let end = if failed.len() > 0 {
        Err(BpmError::Partial { failed: failed.len() })
    } else {
        Ok(())
    };
    (s, end)
}

/// How an import ends: a snapshot that could not be moved is made read-only again where it is, and
/// whatever else fails stops the import there.
pub proof fn law_imports_end_by_their_steps(oks: Seq<bool>)
    requires
        oks.len() == 5,
    ensures
        import_run(oks) == ImportStep::Done <==> oks[0] && oks[1] && oks[2] && oks[3] && oks[4],
        import_run(oks) == ImportStep::Fail <==> !(oks[0] && oks[1] && oks[2] && oks[3] && oks[4]),
        import_run(oks.take(3)) == ImportStep::ProtectBack <==> oks[0] && oks[1] && !oks[2],
        import_run(oks.take(3)) == ImportStep::Protect <==> oks[0] && oks[1] && oks[2],
{
    reveal_with_fuel(import_run, 6);
    assert(oks.drop_last() =~= oks.take(4));
    assert(oks.take(4).drop_last() =~= oks.take(3));
    assert(oks.take(3).drop_last() =~= oks.take(2));
    assert(oks.take(2).drop_last() =~= oks.take(1));
    assert(oks.take(1).drop_last() =~= oks.take(0));
    assert(oks.take(0).len() == 0);
}

/// A description is what stands between the first opening tag and the closing one after it; a text
/// without an opening tag has none.
pub proof fn law_descriptions_stand_between_their_tags(info: Seq<char>, i: int, k: int)
    requires
        first_place(info, "<description>"@, i),
        !has_text(info.skip(i + "<description>"@.len()), "<description>"@),
        first_place(info.skip(i + "<description>"@.len()), "</description>"@, k),
    ensures
        description_of(info) == info.subrange(
            i + "<description>"@.len(),
            i + "<description>"@.len() + k,
        ),
        !has_text(Seq::empty(), "<description>"@) ==> description_of(Seq::empty()).len() == 0,
{
    let open = "<description>"@;
    let close = "</description>"@;
    let rest = info.skip(i + open.len());
    lemma_first_place(info, open, i);
    lemma_first_place(rest, close, k);
    assert(rest.take(k) =~= info.subrange(i + open.len(), i + open.len() + k));
}

proof fn lemma_first_place(s: Seq<char>, p: Seq<char>, i: int)
    requires
        first_place(s, p, i),
    ensures
        has_text(s, p),
        choose_first(s, p) == i,
{
    let j = choose_first(s, p);
    assert(first_place(s, p, j));
    if j < i {
        assert(!occurs(s, p, j));
    }
    if i < j {
        assert(!occurs(s, p, i));
    }
}

} // verus!
