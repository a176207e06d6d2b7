//! `doctor`: find problems; `--fix` repairs the safe ones.

use vstd::prelude::*;

use crate::btrfs::{SubvolInfo, Uuid};
#[allow(unused_imports)]
use crate::btrfs::uuid_text;
use crate::outside;
use crate::output::Table;
#[allow(unused_imports)]
use crate::output::{row_texts, str_texts, table_text};
use crate::project::Leftover;
use crate::store::journal::JournalEntry;
use crate::store::{Origin, ProjectRecord, ProjectState, SnapshotKind, SnapshotMeta, Stage};
use crate::util::paths::path_join;
#[allow(unused_imports)]
use crate::util::paths::joined_path;
use crate::util::text::{
    cat2, cat3, cat4, cat5, contains, dec_u64, join, lines, parse_u32, split_either, starts_with,
    str_eq, strip_prefix, trim, trim_char,
};
#[allow(unused_imports)]
use crate::util::text::{
    char_trim_end, char_trim_start, dec, has_text, is_digit, is_space, joined, law_number_round_trip,
    lemma_dec_digits, lemma_one_piece, lemma_pieces_break, lemma_trim_nothing, lines_of, parsed,
    pieces, starts, texts, trimmed,
};
use crate::util::time::{age, Timestamp};
#[allow(unused_imports)]
use crate::util::time::elapsed;

verus! {

/// Something that a check found.
pub struct Finding {
    pub level: &'static str,
    pub what: String,
    pub fix: Option<String>,
    pub fixed: bool,
}

/// What a finding says.
pub struct Found {
    pub level: Seq<char>,
    pub what: Seq<char>,
    pub fix: Option<Seq<char>>,
    pub fixed: bool,
}

pub open spec fn text_or(o: Option<String>) -> Option<Seq<char>> {
    match o {
        Some(s) => Some(s@),
        None => None,
    }
}

/// What a finding says.
pub open spec fn found(f: Finding) -> Found {
    Found { level: f.level@, what: f.what@, fix: text_or(f.fix), fixed: f.fixed }
}

/// What findings say.
pub open spec fn all_found(f: Seq<Finding>) -> Seq<Found> {
    Seq::new(f.len(), |i: int| found(f[i]))
}

pub open spec fn is_ok(what: Seq<char>) -> Found {
    Found { level: "ok"@, what, fix: None, fixed: false }
}

pub open spec fn is_info(what: Seq<char>) -> Found {
    Found { level: "info"@, what, fix: None, fixed: false }
}

pub open spec fn is_warning(what: Seq<char>, fix: Option<Seq<char>>) -> Found {
    Found { level: "warn"@, what, fix, fixed: false }
}

pub open spec fn is_error(what: Seq<char>, fix: Option<Seq<char>>) -> Found {
    Found { level: "error"@, what, fix, fixed: false }
}

/// The findings so far.
pub struct Doc {
    pub fix: bool,
    pub dry_run: bool,
    pub out: Vec<Finding>,
}

impl Doc {
    pub open spec fn said(&self) -> Seq<Found> {
        all_found(self.out@)
    }

    /// Only findings were added.
    pub open spec fn grew(&self, before: Doc, more: Seq<Found>) -> bool {
        self.fix == before.fix && self.dry_run == before.dry_run && self.said() == before.said()
            + more
    }

    pub fn new(fix: bool, dry_run: bool) -> (r: Doc)
        ensures
            r.fix == fix,
            r.dry_run == dry_run,
            r.said() == Seq::<Found>::empty(),
    {
        let r = Doc { fix, dry_run, out: Vec::new() };
        assert(r.said() =~= Seq::<Found>::empty());
        r
    }

    fn push(&mut self, f: Finding)
        ensures
            final(self).grew(*old(self), seq![found(f)]),
    {
        let ghost before = self.said();
        self.out.push(f);
        assert(self.said() =~= before + seq![found(f)]);
    }

    pub fn ok(&mut self, what: String)
        ensures
            final(self).grew(*old(self), seq![is_ok(what@)]),
    {
        self.push(Finding { level: "ok", what, fix: None, fixed: false });
    }

    pub fn info(&mut self, what: String)
        ensures
            final(self).grew(*old(self), seq![is_info(what@)]),
    {
        self.push(Finding { level: "info", what, fix: None, fixed: false });
    }

    pub fn warn(&mut self, what: String, fix: Option<String>)
        ensures
            final(self).grew(*old(self), seq![is_warning(what@, text_or(fix))]),
    {
        self.push(Finding { level: "warn", what, fix, fixed: false });
    }

    pub fn error(&mut self, what: String, fix: Option<String>)
        ensures
            final(self).grew(*old(self), seq![is_error(what@, text_or(fix))]),
    {
        self.push(Finding { level: "error", what, fix, fixed: false });
    }

    /// Records a fixable problem. `outcome` is what came of the repair, which is tried where
    /// repairs were asked for; in a dry run the repair only logs what it would do.
    pub fn fixable(
        &mut self,
        level: &'static str,
        what: String,
        fix: String,
        outcome: Result<(), String>,
    )
        ensures
            final(self).grew(
                *old(self),
                fix_findings(old(self).fix, old(self).dry_run, level@, what@, fix@, outcome),
            ),
    {
        let ghost before = self.said();
        if self.fix && self.dry_run {
            if let Err(e) = &outcome {
                let w = cat4("[dry-run] fix would fail for ", what.as_str(), ": ", e.as_str());
                self.push(Finding { level: "error", what: w, fix: None, fixed: false });
            }
            let f = cat2("[dry-run] would run: ", fix.as_str());
            self.push(Finding { level, what, fix: Some(f), fixed: false });
            assert(self.said() =~= before + fix_findings(
                self.fix,
                self.dry_run,
                level@,
                what@,
                fix@,
                outcome,
            ));
            return ;
        }
        let mut fixed = false;
        if self.fix {
            match &outcome {
                Ok(_) => {
                    fixed = true;
                },
                Err(e) => {
                    let w = cat4("fix failed for ", what.as_str(), ": ", e.as_str());
                    self.push(Finding { level: "error", what: w, fix: None, fixed: false });
                },
            }
        }
        self.push(Finding { level, what, fix: Some(fix), fixed });
        assert(self.said() =~= before + fix_findings(
            self.fix,
            self.dry_run,
            level@,
            what@,
            fix@,
            outcome,
        ));
    }
}

/// What a fixable problem says, after the repair was tried where that was asked for.
pub open spec fn fix_findings(
    fix_it: bool,
    dry_run: bool,
    level: Seq<char>,
    what: Seq<char>,
    fix: Seq<char>,
    outcome: Result<(), String>,
) -> Seq<Found> {
    if !fix_it {
        seq![Found { level, what, fix: Some(fix), fixed: false }]
    } else if dry_run {
        let last = Found {
            level,
            what,
            fix: Some("[dry-run] would run: "@ + fix),
            fixed: false,
        };
        match outcome {
            Ok(_) => seq![last],
            Err(e) => seq![
                is_error("[dry-run] fix would fail for "@ + what + ": "@ + e@, None),
                last,
            ],
        }
    } else {
        match outcome {
            Ok(_) => seq![Found { level, what, fix: Some(fix), fixed: true }],
            Err(e) => seq![
                is_error("fix failed for "@ + what + ": "@ + e@, None),
                Found { level, what, fix: Some(fix), fixed: false },
            ],
        }
    }
}

/// A problem counts as fixed only when its repair ran for real and went well.
pub proof fn law_fixed_means_repaired(
    fix_it: bool,
    dry_run: bool,
    level: Seq<char>,
    what: Seq<char>,
    fix: Seq<char>,
    outcome: Result<(), String>,
)
    ensures
        fix_findings(fix_it, dry_run, level, what, fix, outcome).last().fixed <==> fix_it
            && !dry_run && outcome is Ok,
        fix_findings(fix_it, dry_run, level, what, fix, outcome).last().what == what,
{
}

/// The two leading numbers of a kernel release.
pub open spec fn release_of(s: Seq<char>) -> Option<(nat, nat)> {
    let p = pieces(trimmed(s), |x: char| x == '.' || x == '-');
    if p.len() < 2 {
        None
    } else {
        match (parsed(p[0], u32::MAX as nat), parsed(p[1], u32::MAX as nat)) {
            (Some(a), Some(b)) => Some((a, b)),
            _ => None,
        }
    }
}

/// The two leading numbers of a kernel release.
pub fn kernel_version(release: &str) -> (r: Option<(u32, u32)>)
    ensures
        match r {
            Some(v) => release_of(release@) == Some((v.0 as nat, v.1 as nat)),
            None => release_of(release@) is None,
        },
{
    let p = split_either(trim(release).as_str(), '.', '-');
    assert(texts(p@).len() == p@.len());
    if p.len() < 2 {
        return None;
    }
    assert(texts(p@)[0] == p@[0]@ && texts(p@)[1] == p@[1]@);
    match (parse_u32(p[0].as_str()), parse_u32(p[1].as_str())) {
        (Some(a), Some(b)) => Some((a, b)),
        _ => None,
    }
}

/// What is found of the kernel.
pub open spec fn kernel_findings(v: Option<(u32, u32)>) -> Seq<Found> {
    match v {
        Some(k) => if k.0 > 6 || (k.0 == 6 && k.1 >= 15) {
            seq![
                is_ok(
                    "kernel "@ + dec(k.0 as nat) + "."@ + dec(k.1 as nat)
                        + " supports recompression levels"@,
                ),
            ]
        } else {
            seq![
                is_warning(
                    "kernel "@ + dec(k.0 as nat) + "."@ + dec(k.1 as nat)
                        + " < 6.15: `defragment -L` unsupported; recompress will fail"@,
                    None,
                ),
            ]
        },
        None => seq![],
    }
}

/// Reports the kernel, where its version is known.
pub fn check_kernel(d: &mut Doc, v: Option<(u32, u32)>)
    ensures
        final(d).grew(*old(d), kernel_findings(v)),
{
    if let Some((a, b)) = v {
        let x = dec_u64(a as u64);
        let y = dec_u64(b as u64);
        if a > 6 || (a == 6 && b >= 15) {
            d.ok(
                cat5("kernel ", x.as_str(), ".", y.as_str(), " supports recompression levels"),
            );
        } else {
            d.warn(
                cat5(
                    "kernel ",
                    x.as_str(),
                    ".",
                    y.as_str(),
                    " < 6.15: `defragment -L` unsupported; recompress will fail",
                ),
                None,
            );
        }
    } else {
        assert(d.said() + Seq::<Found>::empty() =~= d.said());
    }
}

/// Reports which configuration is used.
pub fn check_config(d: &mut Doc, path: Option<&str>)
    ensures
        final(d).grew(
            *old(d),
            match path {
                Some(p) => seq![is_ok("config "@ + p@)],
                None => seq![
                    is_warning(
                        "no config file; using the embedded default"@,
                        Some("bpm setup"@),
                    ),
                ],
            },
        ),
{
    match path {
        Some(p) => d.ok(cat2("config ", p)),
        None => d.warn(
            "no config file; using the embedded default".to_owned(),
            Some("bpm setup".to_owned()),
        ),
    }
}

/// Reports a program that is needed.
pub fn check_tool(d: &mut Doc, tool: &str, available: bool)
    ensures
        final(d).grew(
            *old(d),
            if available {
                seq![is_ok(tool@ + " available"@)]
            } else {
                seq![is_error(tool@ + " not found"@, None)]
            },
        ),
{
    if available {
        d.ok(cat2(tool, " available"));
    } else {
        d.error(cat2(tool, " not found"), None);
    }
}

/// Reports a timer; `state` is what the service manager says of it.
pub fn check_timer(d: &mut Doc, unit: &str, state: &str)
    ensures
        final(d).grew(
            *old(d),
            if state@ == "enabled"@ {
                seq![is_ok(unit@ + " enabled"@)]
            } else {
                seq![
                    is_warning(
                        unit@ + " is "@ + (if state@.len() == 0 {
                            "not installed"@
                        } else {
                            state@
                        }),
                        Some("bpm setup"@),
                    ),
                ]
            },
        ),
{
    if str_eq(state, "enabled") {
        d.ok(cat2(unit, " enabled"));
    } else {
        let shown = if state.is_empty() {
            "not installed"
        } else {
            state
        };
        d.warn(cat3(unit, " is ", shown), Some("bpm setup".to_owned()));
    }
}

/// The value of a key in the first line that gives it, without quotes.
pub open spec fn value_in(ls: Seq<Seq<char>>, key: Seq<char>) -> Option<Seq<char>>
    decreases ls.len(),
{
    if ls.len() == 0 {
        None
    } else {
        match value_in(ls.drop_last(), key) {
            Some(v) => Some(v),
            None => if starts(ls.last(), key + "="@) {
                Some(
                    char_trim_end(
                        char_trim_start(ls.last().skip((key + "="@).len() as int), '"'),
                        '"',
                    ),
                )
            } else {
                None
            },
        }
    }
}

proof fn lemma_value_found(ls: Seq<Seq<char>>, key: Seq<char>, n: int)
    requires
        0 <= n <= ls.len(),
        value_in(ls.take(n), key) is Some,
    ensures
        value_in(ls, key) == value_in(ls.take(n), key),
    decreases ls.len() - n,
{
    if n == ls.len() {
        assert(ls.take(n) =~= ls);
    } else {
        assert(ls.take(n + 1).drop_last() =~= ls.take(n));
        lemma_value_found(ls, key, n + 1);
    }
}

/// The value of a key in the first line that gives it, without quotes.
pub fn value_of(text: &str, key: &str) -> (r: Option<String>)
    ensures
        match r {
            Some(v) => value_in(lines_of(text@), key@) == Some(v@),
            None => value_in(lines_of(text@), key@) is None,
        },
{
    let ls = lines(text);
    let ghost all = lines_of(text@);
    let prefix = cat2(key, "=");
    let mut i: usize = 0;
    assert(all.take(0) =~= Seq::<Seq<char>>::empty());
    while i < ls.len()
        invariant
            i <= ls@.len(),
            all == texts(ls@),
            all == lines_of(text@),
            prefix@ == key@ + "="@,
            value_in(all.take(i as int), key@) is None,
        decreases ls@.len() - i,
    {
        assert(all.take(i + 1).drop_last() =~= all.take(i as int));
        assert(all.take(i + 1).last() == ls@[i as int]@);
        if let Some(v) = strip_prefix(ls[i].as_str(), prefix.as_str()) {
            proof {
                lemma_value_found(all, key@, i + 1);
            }
            return Some(trim_char(v.as_str(), '"'));
        }
        i += 1;
    }
    assert(all.take(i as int) =~= all);
    None
}

/// What a snapper configuration says of a root: nothing where it is about another place, else
/// whether it takes timeline snapshots.
pub fn snapper_config(text: &str, root: &str) -> (r: Option<bool>)
    ensures
        r == if value_in(lines_of(text@), "SUBVOLUME"@) == Some(root@) {
            Some(value_in(lines_of(text@), "TIMELINE_CREATE"@) == Some("yes"@))
        } else {
            None
        },
{
    let mine = match value_of(text, "SUBVOLUME") {
        Some(v) => str_eq(v.as_str(), root),
        None => false,
    };
    if !mine {
        return None;
    }
    let timeline = match value_of(text, "TIMELINE_CREATE") {
        Some(v) => str_eq(v.as_str(), "yes"),
        None => false,
    };
    Some(timeline)
}

/// What is known of a root.
pub struct RootFacts {
    pub path: String,
    pub is_dir: bool,
    pub store_dir: String,
    pub store_exists: bool,
    pub store_is_subvolume: bool,
    /// The subvolume that the store was made for, and the one that the root is.
    pub identity: Option<(Uuid, Uuid)>,
    /// The snapper configurations for it, each with whether it takes timeline snapshots.
    pub snapper: Vec<(String, bool)>,
    /// Free bytes, and the same as people read them.
    pub free: Option<(u64, String)>,
    pub heavy_min_free: u64,
}

/// What is found of a snapper configuration.
pub open spec fn snapper_finding(path: Seq<char>, c: (String, bool)) -> Found {
    if c.1 {
        is_warning(
            path + ": snapper config "@ + outside::quoted(c.0@)
                + " still takes timeline snapshots (they include build directories)"@,
            Some("bpm migrate-from-snapper --snapper-config "@ + c.0@),
        )
    } else {
        is_info(
            path + ": snapper config "@ + outside::quoted(c.0@)
                + " exists with timeline disabled"@,
        )
    }
}

pub open spec fn snapper_findings(path: Seq<char>, c: Seq<(String, bool)>) -> Seq<Found> {
    Seq::new(c.len(), |i: int| snapper_finding(path, c[i]))
}

/// What is found of a root; where it or its store is missing, nothing else is looked at.
pub open spec fn root_findings(f: RootFacts) -> Seq<Found> {
    let p = f.path@;
    if !f.is_dir {
        seq![is_error("root "@ + p + " does not exist"@, None)]
    } else if !f.store_exists {
        seq![
            is_error(p + ": store "@ + f.store_dir@ + " not initialized"@, Some("bpm setup"@)),
        ]
    } else {
        (if f.store_is_subvolume {
            seq![]
        } else {
            seq![
                is_error(
                    p + ": store "@ + f.store_dir@
                        + " is not a subvolume (container snapshots would include it)"@,
                    None,
                ),
            ]
        }) + (match f.identity {
            Some(i) => if i.0@ != i.1@ {
                seq![
                    is_error(
                        p + ": store was created for subvolume "@ + uuid_text(i.0@) + " but "@ + p
                            + " is "@ + uuid_text(i.1@),
                        None,
                    ),
                ]
            } else {
                seq![]
            },
            None => seq![],
        }) + snapper_findings(p, f.snapper@) + (match f.free {
            Some(free) => if free.0 < f.heavy_min_free {
                seq![
                    is_warning(
                        p + ": only "@ + free.1@ + " free; heavy operations are paused"@,
                        None,
                    ),
                ]
            } else {
                seq![]
            },
            None => seq![],
        })
    }
}

/// Reports a root; false where nothing else can be looked at.
pub fn check_root(d: &mut Doc, f: &RootFacts) -> (go_on: bool)
    ensures
        go_on == (f.is_dir && f.store_exists),
        final(d).grew(*old(d), root_findings(*f)),
{
    let p = f.path.as_str();
    let ghost start = d.said();
    if !f.is_dir {
        d.error(cat3("root ", p, " does not exist"), None);
        return false;
    }
    if !f.store_exists {
        d.error(
            cat4(p, ": store ", f.store_dir.as_str(), " not initialized"),
            Some("bpm setup".to_owned()),
        );
        return false;
    }
    if !f.store_is_subvolume {
        d.error(
            cat4(
                p,
                ": store ",
                f.store_dir.as_str(),
                " is not a subvolume (container snapshots would include it)",
            ),
            None,
        );
    }
    if let Some(i) = &f.identity {
        if !i.0.same(&i.1) {
            let mut m = cat5(
                p,
                ": store was created for subvolume ",
                i.0.to_string().as_str(),
                " but ",
                p,
            );
            m.append(" is ");
            m.append(i.1.to_string().as_str());
            d.error(m, None);
        }
    }
    let ghost middle = d.said();
    let ghost all = snapper_findings(p@, f.snapper@);
    let mut k: usize = 0;
    assert(middle + all.take(0) =~= middle);
    while k < f.snapper.len()
        invariant
            k <= f.snapper@.len(),
            all == snapper_findings(p@, f.snapper@),
            d.fix == old(d).fix && d.dry_run == old(d).dry_run,
            d.said() == middle + all.take(k as int),
        decreases f.snapper@.len() - k,
    {
        let ghost before = d.said();
        let name = f.snapper[k].0.as_str();
        if f.snapper[k].1 {
            d.warn(
                cat4(
                    p,
                    ": snapper config ",
                    outside::quote(name).as_str(),
                    " still takes timeline snapshots (they include build directories)",
                ),
                Some(cat2("bpm migrate-from-snapper --snapper-config ", name)),
            );
        } else {
            d.info(
                cat4(
                    p,
                    ": snapper config ",
                    outside::quote(name).as_str(),
                    " exists with timeline disabled",
                ),
            );
        }
        assert(d.said() =~= before.push(all[k as int]));
        assert(middle + all.take(k + 1) =~= before.push(all[k as int]));
        k += 1;
    }
    assert(all.take(k as int) =~= all);
    if let Some(free) = &f.free {
        if free.0 < f.heavy_min_free {
            d.warn(
                cat4(p, ": only ", free.1.as_str(), " free; heavy operations are paused"),
                None,
            );
        }
    }
    assert(d.said() =~= start + root_findings(*f));
    true
}

/// What is found of the directories below a root that are no managed projects.
pub open spec fn unmanaged_findings(
    root: Seq<char>,
    unadopted: Seq<Seq<char>>,
    foreign: Seq<Seq<char>>,
) -> Seq<Found> {
    (if unadopted.len() > 0 {
        seq![
            is_warning(
                root + ": "@ + dec(unadopted.len()) + " unadopted directories: "@ + joined(
                    unadopted,
                    ", "@,
                ),
                Some("bpm adopt --all"@),
            ),
        ]
    } else {
        seq![]
    }) + (if foreign.len() > 0 {
        seq![
            is_warning(
                root + ": subvolumes not managed by bpm: "@ + joined(foreign, ", "@),
                Some("bpm adopt <name> (registers without copying)"@),
            ),
        ]
    } else {
        seq![]
    })
}

/// Reports the directories below a root that are no managed projects.
pub fn check_unmanaged(
    d: &mut Doc,
    root: &str,
    unadopted: &Vec<String>,
    foreign: &Vec<String>,
)
    ensures
        final(d).grew(*old(d), unmanaged_findings(root@, texts(unadopted@), texts(foreign@))),
{
    let ghost start = d.said();
    if unadopted.len() > 0 {
        d.warn(
            cat5(
                root,
                ": ",
                dec_u64(unadopted.len() as u64).as_str(),
                " unadopted directories: ",
                join(unadopted, ", ").as_str(),
            ),
            Some("bpm adopt --all".to_owned()),
        );
    }
    if foreign.len() > 0 {
        d.warn(
            cat3(root, ": subvolumes not managed by bpm: ", join(foreign, ", ").as_str()),
            Some("bpm adopt <name> (registers without copying)".to_owned()),
        );
    }
    assert(d.said() =~= start + unmanaged_findings(root@, texts(unadopted@), texts(foreign@)));
}

/// Reports a project whose directory is missing, unless it is archived.
pub fn check_missing(d: &mut Doc, name: &str, path: &str, stage: Stage)
    ensures
        final(d).grew(
            *old(d),
            if stage == Stage::Archived {
                seq![]
            } else {
                seq![
                    is_warning(
                        name@ + ": project directory "@ + path@ + " is missing"@,
                        Some("bpm restore "@ + name@ + " --recreate"@),
                    ),
                ]
            },
        ),
{
    if stage == Stage::Archived {
        assert(d.said() + Seq::<Found>::empty() =~= d.said());
        return ;
    }
    d.warn(
        cat4(name, ": project directory ", path, " is missing"),
        Some(cat3("bpm restore ", name, " --recreate")),
    );
}

/// What is found of the state of a project.
pub open spec fn state_findings(name: Seq<char>, st: ProjectState) -> Seq<Found> {
    (match st.frozen {
        Some(f) => seq![
            is_warning(
                name + ": FROZEN: "@ + joined(texts(f.reasons@), "; "@),
                Some(
                    "bpm status "@ + name + "; then bpm rollback "@ + name + " "@ + (
                    match f.ref_snap {
                        Some(i) => dec(i as nat),
                        None => "held"@,
                    }) + " or bpm unfreeze "@ + name,
                ),
            ),
        ],
        None => seq![],
    }) + (match st.last_error {
        Some(e) => seq![is_warning(name + ": last tick error: "@ + e.message@, None)],
        None => seq![],
    })
}

/// Reports what the state of a project says.
pub fn check_state(d: &mut Doc, name: &str, st: &ProjectState)
    ensures
        final(d).grew(*old(d), state_findings(name@, *st)),
{
    let ghost start = d.said();
    if let Some(f) = &st.frozen {
        let good = match f.ref_snap {
            Some(i) => dec_u64(i),
            None => "held".to_owned(),
        };
        let mut fix = cat5("bpm status ", name, "; then bpm rollback ", name, " ");
        fix.append(good.as_str());
        fix.append(" or bpm unfreeze ");
        fix.append(name);
        d.warn(cat3(name, ": FROZEN: ", join(&f.reasons, "; ").as_str()), Some(fix));
    }
    if let Some(e) = &st.last_error {
        d.warn(cat3(name, ": last tick error: ", e.message.as_str()), None);
    }
    assert(d.said() =~= start + state_findings(name@, *st));
}

/// Reports a banned directory that waits for its conversion.
pub fn check_pending(d: &mut Doc, name: &str, rel: &str)
    ensures
        final(d).grew(
            *old(d),
            seq![
                is_info(
                    name@ + ": banned directory "@ + rel@
                        + " is a plain directory (included in snapshots until converted)"@,
                ),
            ],
        ),
{
    d.info(
        cat4(
            name,
            ": banned directory ",
            rel,
            " is a plain directory (included in snapshots until converted)",
        ),
    );
}

/// What is known of something left behind below a root.
pub struct LeftFacts {
    pub path: String,
    /// What it was a version of.
    pub orig: String,
    pub is_sub: bool,
    pub orig_exists: bool,
    pub orig_is_dir: bool,
    pub orig_sub: bool,
    /// Whether the store knows a project of that name.
    pub registered: bool,
    /// Whether there is a rollback snapshot of exactly this tree.
    pub saved: bool,
}

/// How something left behind is repaired.
#[derive(Clone, Copy, Debug, PartialEq, Eq, Structural)]
pub enum LeftFix {
    /// Delete the partial copy.
    DeleteCopy,
    /// Register the project if it is not, then retire the original against the adopt snapshot.
    FinishAdopt { register: bool },
    RenameBack,
    /// Retire the tree against its rollback snapshot.
    RetireRollback,
    /// Only a person can tell.
    Nothing,
}

/// What is said of something left behind.
pub struct LeftFinding {
    pub level: &'static str,
    pub what: String,
    pub fix: Option<String>,
    pub repair: LeftFix,
}

/// What is said of something left behind.
pub struct LeftSaid {
    pub level: Seq<char>,
    pub what: Seq<char>,
    pub fix: Option<Seq<char>>,
    pub repair: LeftFix,
}

pub open spec fn left_said(f: LeftFinding) -> LeftSaid {
    LeftSaid { level: f.level@, what: f.what@, fix: text_or(f.fix), repair: f.repair }
}

pub open spec fn unexpected(f: LeftFacts) -> LeftSaid {
    LeftSaid {
        level: "error"@,
        what: f.path@ + ": unexpected leftover; inspect manually"@,
        fix: None,
        repair: LeftFix::Nothing,
    }
}

pub open spec fn unfinished_adopt(f: LeftFacts) -> LeftSaid {
    LeftSaid {
        level: "warn"@,
        what: f.path@ + ": adopt finished the swap but not the cleanup"@ + (if f.registered {
            ""@
        } else {
            " or registration"@
        }),
        fix: Some(
            "doctor --fix registers the project, then removes the old copy if it matches the adopt snapshot (otherwise keeps it as .bpm-keep-adopt-*)"@,
        ),
        repair: LeftFix::FinishAdopt { register: !f.registered },
    }
}

/// What is found of something left behind below a root.
pub open spec fn left_found(l: Leftover, f: LeftFacts) -> LeftSaid {
    match l {
        Leftover::Keep { op, .. } => LeftSaid {
            level: "error"@,
            what: f.path@ + ": kept by an interrupted or unverified "@ + op@
                + " because it may hold changes that exist nowhere else"@,
            fix: Some("compare with "@ + f.orig@ + " (bpm diff), merge by hand, then delete it"@),
            repair: LeftFix::Nothing,
        },
        Leftover::Tmp { .. } => if f.is_sub && f.orig_is_dir && !f.orig_sub {
            LeftSaid {
                level: "warn"@,
                what: f.path@ + ": adopt was interrupted before the swap"@,
                fix: Some("doctor --fix deletes the partial copy (the original is untouched)"@),
                repair: LeftFix::DeleteCopy,
            }
        } else if !f.is_sub && f.orig_sub {
            unfinished_adopt(f)
        } else {
            unexpected(f)
        },
        Leftover::Old { .. } => if !f.is_sub && f.orig_sub {
            unfinished_adopt(f)
        } else {
            unexpected(f)
        },
        Leftover::Rollback { .. } => if !f.orig_exists {
            LeftSaid {
                level: "error"@,
                what: f.path@ + ": rollback was interrupted before the new tree existed"@,
                fix: Some("doctor --fix renames it back to "@ + f.orig@),
                repair: LeftFix::RenameBack,
            }
        } else {
            LeftSaid {
                level: "warn"@,
                what: f.path@ + ": pre-rollback tree left behind"@ + (if f.saved {
                    " (it is also saved as a rollback snapshot)"@
                } else {
                    ""@
                }),
                fix: Some(
                    "doctor --fix deletes it if it is identical to its rollback snapshot, otherwise keeps it as .bpm-keep-rollback-*"@,
                ),
                repair: LeftFix::RetireRollback,
            }
        },
    }
}

fn say_unexpected(f: &LeftFacts) -> (r: LeftFinding)
    ensures
        left_said(r) == unexpected(*f),
{
    LeftFinding {
        level: "error",
        what: cat2(f.path.as_str(), ": unexpected leftover; inspect manually"),
        fix: None,
        repair: LeftFix::Nothing,
    }
}

fn say_unfinished(f: &LeftFacts) -> (r: LeftFinding)
    ensures
        left_said(r) == unfinished_adopt(*f),
{
    let more = if f.registered {
        ""
    } else {
        " or registration"
    };
    LeftFinding {
        level: "warn",
        what: cat3(f.path.as_str(), ": adopt finished the swap but not the cleanup", more),
        fix: Some(
            "doctor --fix registers the project, then removes the old copy if it matches the adopt snapshot (otherwise keeps it as .bpm-keep-adopt-*)".to_owned(),
        ),
        repair: LeftFix::FinishAdopt { register: !f.registered },
    }
}

/// What is found of something left behind below a root.
pub fn check_root_leftovers(l: &Leftover, f: &LeftFacts) -> (r: LeftFinding)
    ensures
        left_said(r) == left_found(*l, *f),
{
    let path = f.path.as_str();
    match l {
        Leftover::Keep { op, .. } => LeftFinding {
            level: "error",
            what: cat4(
                path,
                ": kept by an interrupted or unverified ",
                op.as_str(),
                " because it may hold changes that exist nowhere else",
            ),
            fix: Some(
                cat3(
                    "compare with ",
                    f.orig.as_str(),
                    " (bpm diff), merge by hand, then delete it",
                ),
            ),
            repair: LeftFix::Nothing,
        },
        Leftover::Tmp { .. } => {
            if f.is_sub && f.orig_is_dir && !f.orig_sub {
                LeftFinding {
                    level: "warn",
                    what: cat2(path, ": adopt was interrupted before the swap"),
                    fix: Some(
                        "doctor --fix deletes the partial copy (the original is untouched)".to_owned(),
                    ),
                    repair: LeftFix::DeleteCopy,
                }
            } else if !f.is_sub && f.orig_sub {
                say_unfinished(f)
            } else {
                say_unexpected(f)
            }
        },
        Leftover::Old { .. } => {
            if !f.is_sub && f.orig_sub {
                say_unfinished(f)
            } else {
                say_unexpected(f)
            }
        },
        Leftover::Rollback { .. } => {
            if !f.orig_exists {
                LeftFinding {
                    level: "error",
                    what: cat2(path, ": rollback was interrupted before the new tree existed"),
                    fix: Some(cat2("doctor --fix renames it back to ", f.orig.as_str())),
                    repair: LeftFix::RenameBack,
                }
            } else {
                let more = if f.saved {
                    " (it is also saved as a rollback snapshot)"
                } else {
                    ""
                };
                LeftFinding {
                    level: "warn",
                    what: cat3(path, ": pre-rollback tree left behind", more),
                    fix: Some(
                        "doctor --fix deletes it if it is identical to its rollback snapshot, otherwise keeps it as .bpm-keep-rollback-*".to_owned(),
                    ),
                    repair: LeftFix::RetireRollback,
                }
            }
        },
    }
}

/// What was kept for a person to look at is never touched, and a partial copy is deleted only
/// while the original directory is there beside it.
pub proof fn law_kept_leftovers_are_never_fixed(l: Leftover, f: LeftFacts)
    ensures
        l is Keep ==> left_found(l, f).repair == LeftFix::Nothing,
        left_found(l, f).repair == LeftFix::DeleteCopy ==> f.orig_is_dir && !f.orig_sub && f.is_sub,
        left_found(l, f).repair == LeftFix::RenameBack ==> !f.orig_exists,
{
}

/// A rollback snapshot of a subvolume.
pub open spec fn saves(m: SnapshotMeta, uuid: Seq<u8>) -> bool {
    m.kind == SnapshotKind::Rollback && m.source_uuid@ == uuid
}

/// The rollback snapshot of a subvolume with the highest id, the last one listed of several.
pub fn rollback_safety(snaps: &Vec<SnapshotMeta>, uuid: Option<Uuid>) -> (r: Option<usize>)
    ensures
        match r {
            Some(i) => uuid is Some && i < snaps@.len() && saves(snaps@[i as int], uuid->0@)
                && forall|j: int|
                0 <= j < snaps@.len() && saves(#[trigger] snaps@[j], uuid->0@) ==> snaps@[j].id
                    < snaps@[i as int].id || (snaps@[j].id == snaps@[i as int].id && j <= i),
            None => uuid is None || forall|j: int|
                0 <= j < snaps@.len() ==> !saves(#[trigger] snaps@[j], uuid->0@),
        },
{
    let u = match uuid {
        Some(u) => u,
        None => {
            return None;
        },
    };
    let mut best: Option<usize> = None;
    let mut i: usize = 0;
    while i < snaps.len()
        invariant
            i <= snaps@.len(),
            match best {
                Some(b) => b < i && saves(snaps@[b as int], u@) && forall|j: int|
                    0 <= j < i && saves(#[trigger] snaps@[j], u@) ==> snaps@[j].id
                        < snaps@[b as int].id || (snaps@[j].id == snaps@[b as int].id && j <= b),
                None => forall|j: int| 0 <= j < i ==> !saves(#[trigger] snaps@[j], u@),
            },
        decreases snaps@.len() - i,
    {
        if snaps[i].kind == SnapshotKind::Rollback && snaps[i].source_uuid.same(&u) {
            let better = match best {
                Some(b) => snaps[b].id <= snaps[i].id,
                None => true,
            };
            if better {
                best = Some(i);
            }
        }
        i += 1;
    }
    best
}

/// The adopt snapshot of a project.
pub open spec fn is_adopt_snapshot(m: SnapshotMeta, r: ProjectRecord) -> bool {
    m.kind == SnapshotKind::Adopt && r.knows(m.source_uuid@)
}

/// The first adopt snapshot of a project: what the original tree left by an adopt interrupted
/// after the swap has to match.
pub fn adopt_leftover_expect(record: &ProjectRecord, snaps: &Vec<SnapshotMeta>) -> (r: Option<
    usize,
>)
    ensures
        match r {
            Some(i) => i < snaps@.len() && is_adopt_snapshot(snaps@[i as int], *record) && forall|
                j: int,
            |
                0 <= j < i ==> !is_adopt_snapshot(#[trigger] snaps@[j], *record),
            None => forall|j: int|
                0 <= j < snaps@.len() ==> !is_adopt_snapshot(#[trigger] snaps@[j], *record),
        },
{
    let mut i: usize = 0;
    while i < snaps.len()
        invariant
            i <= snaps@.len(),
            forall|j: int| 0 <= j < i ==> !is_adopt_snapshot(#[trigger] snaps@[j], *record),
        decreases snaps@.len() - i,
    {
        if snaps[i].kind == SnapshotKind::Adopt && record.owns(Some(snaps[i].source_uuid)) {
            return Some(i);
        }
        i += 1;
    }
    None
}

/// What is done about something that a conversion left behind.
pub enum NestedLeft {
    Nothing,
    /// Delete the partial copy.
    DeleteCopy { what: String, fix: String },
    /// Retire the old directory if it is unchanged since the nested subvolume was created.
    Retire { what: String, fix: String },
}

/// What is found of something that a conversion left behind.
pub fn check_nested_leftovers(path: &str, path_sub: bool, full_sub: bool) -> (r: NestedLeft)
    ensures
        match r {
            NestedLeft::Nothing => path_sub == full_sub,
            NestedLeft::DeleteCopy { what, fix } => path_sub && !full_sub && what@ == path@
                + ": interrupted banlist conversion (copy not swapped)"@ && fix@
                == "doctor --fix deletes the partial copy"@,
            NestedLeft::Retire { what, fix } => !path_sub && full_sub && what@ == path@
                + ": old build directory left after conversion"@ && fix@
                == "doctor --fix removes it if unchanged since the conversion, otherwise keeps it as .bpm-keep-convert-*"@,
        },
{
    if path_sub && !full_sub {
        NestedLeft::DeleteCopy {
            what: cat2(path, ": interrupted banlist conversion (copy not swapped)"),
            fix: "doctor --fix deletes the partial copy".to_owned(),
        }
    } else if !path_sub && full_sub {
        NestedLeft::Retire {
            what: cat2(path, ": old build directory left after conversion"),
            fix: "doctor --fix removes it if unchanged since the conversion, otherwise keeps it as .bpm-keep-convert-*".to_owned(),
        }
    } else {
        NestedLeft::Nothing
    }
}

pub open spec fn kept_finding(p: Seq<char>) -> Found {
    is_error(
        p + ": kept because it may hold changes that exist nowhere else"@,
        Some("inspect, merge by hand, then delete it"@),
    )
}

/// What is found of trees and files that were kept in a project.
pub open spec fn kept_findings(live: Seq<char>, kept: Seq<Seq<char>>, complete: bool) -> Seq<Found> {
    Seq::new(kept.len(), |i: int| kept_finding(kept[i])) + (if complete {
        seq![]
    } else {
        seq![
            is_info(
                live
                    + ": took too long to scan for kept leftovers; some may be unreported"@,
            ),
        ]
    })
}

/// Trees and files kept anywhere in the project because it could not be proved that they were
/// already saved. They may hold the only copy of something, so they are only reported.
pub fn check_kept_leftovers(d: &mut Doc, live: &str, kept: &Vec<String>, complete: bool)
    ensures
        final(d).grew(*old(d), kept_findings(live@, texts(kept@), complete)),
{
    let ghost start = d.said();
    let ghost t = texts(kept@);
    let ghost all = Seq::new(t.len(), |i: int| kept_finding(t[i]));
    let mut i: usize = 0;
    assert(start + all.take(0) =~= start);
    while i < kept.len()
        invariant
            i <= kept@.len(),
            t == texts(kept@),
            all == Seq::new(t.len(), |i: int| kept_finding(t[i])),
            d.fix == old(d).fix && d.dry_run == old(d).dry_run,
            d.said() == start + all.take(i as int),
        decreases kept@.len() - i,
    {
        let ghost before = d.said();
        d.error(
            cat2(kept[i].as_str(), ": kept because it may hold changes that exist nowhere else"),
            Some("inspect, merge by hand, then delete it".to_owned()),
        );
        assert(d.said() =~= before.push(all[i as int]));
        assert(start + all.take(i + 1) =~= before.push(all[i as int]));
        i += 1;
    }
    assert(all.take(i as int) =~= all);
    if !complete {
        d.info(
            cat2(live, ": took too long to scan for kept leftovers; some may be unreported"),
        );
    }
    assert(d.said() =~= start + kept_findings(live@, t, complete));
}

/// The values of a journal, each as `key=value`.
pub open spec fn journal_data(p: Seq<(String, String)>) -> Seq<Seq<char>> {
    Seq::new(p.len(), |i: int| p[i].0@ + "="@ + p[i].1@)
}

/// What is said of an operation that was interrupted.
pub open spec fn interrupted_text(unit: Seq<char>, j: JournalEntry) -> Seq<char> {
    unit + ": "@ + j.op@ + " was interrupted at step "@ + dec(j.step as nat) + " ("@ + joined(
        journal_data(j.data.pairs()),
        " "@,
    ) + ")"@
}

/// The journal of an operation that is no longer going on.
pub open spec fn stands_still(j: JournalEntry, now: Timestamp) -> bool {
    elapsed(now, j.updated) > 600_000_000_000
}

/// What is said of an operation that was interrupted: one whose journal has stood still for ten
/// minutes.
pub fn check_journal(unit: &str, j: &JournalEntry, now: Timestamp) -> (r: Option<String>)
    ensures
        match r {
            Some(m) => elapsed(now, j.updated) > 600_000_000_000 && m@ == interrupted_text(
                unit@,
                *j,
            ),
            None => elapsed(now, j.updated) <= 600_000_000_000,
        },
        r is Some == stands_still(*j, now),
{
    if age(now, j.updated).ns <= 600_000_000_000 {
        return None;
    }
    let e = j.data.entries();
    let ghost all = journal_data(e@);
    let mut data: Vec<String> = Vec::new();
    let mut i: usize = 0;
    assert(texts(data@) =~= all.take(0));
    while i < e.len()
        invariant
            i <= e@.len(),
            all == journal_data(e@),
            texts(data@) == all.take(i as int),
        decreases e@.len() - i,
    {
        let ghost before = texts(data@);
        data.push(cat3(e[i].0.as_str(), "=", e[i].1.as_str()));
        assert(texts(data@) =~= before.push(all[i as int]));
        assert(all.take(i + 1) =~= before.push(all[i as int]));
        i += 1;
    }
    assert(all.take(i as int) =~= all);
    let mut m = cat5(
        unit,
        ": ",
        j.op.as_str(),
        " was interrupted at step ",
        dec_u64(j.step as u64).as_str(),
    );
    m.append(" (");
    m.append(join(&data, " ").as_str());
    m.append(")");
    Some(m)
}

/// What is said of a snapshot without metadata.
pub fn no_meta_text(unit: &str, id: u64) -> (r: String)
    ensures
        r@ == unit@ + ": snapshot #"@ + dec(id as nat) + " has no metadata"@,
{
    cat4(unit, ": snapshot #", dec_u64(id).as_str(), " has no metadata")
}

/// What is said of unfinished and vanished snapshots, where there are any.
pub fn check_unit(unit: &str, in_progress: usize, vanished: usize) -> (r: Option<String>)
    ensures
        match r {
            Some(m) => (in_progress > 0 || vanished > 0) && m@ == unit@ + ": "@ + dec(
                in_progress as nat,
            ) + " in-progress dirs, "@ + dec(vanished as nat)
                + " metadata files without snapshot"@,
            None => in_progress == 0 && vanished == 0,
        },
{
    if in_progress == 0 && vanished == 0 {
        return None;
    }
    let mut m = cat5(
        unit,
        ": ",
        dec_u64(in_progress as u64).as_str(),
        " in-progress dirs, ",
        dec_u64(vanished as u64).as_str(),
    );
    m.append(" metadata files without snapshot");
    Some(m)
}

/// The record of a snapshot whose metadata was lost: it is held, and never thinned.
pub fn recover_meta(
    unit: &str,
    id: u64,
    info: &SubvolInfo,
    origin: Origin,
    now: Timestamp,
) -> (r: SnapshotMeta)
    ensures
        r.format == 1,
        r.id == id,
        r.project@ == unit@,
        r.created == match info.otime {
            Some(t) => t,
            None => now,
        },
        r.kind == SnapshotKind::Recovered,
        r.reason@ == "metadata recovered by doctor"@,
        r.pair is None,
        r.hold,
        r.hold_note@ == "recovered"@,
        match info.parent_uuid {
            Some(u) => r.source_uuid == u,
            None => r.source_uuid@ == Seq::new(16, |i: int| 0u8),
        },
        r.source_ctransid == info.ctransid,
        r.snapshot_uuid == info.uuid,
        r.snapshot_otransid == info.otransid,
        r.received_uuid == info.received_uuid,
        r.stats is None,
        r.origin == origin,
        crate::store::meta::never_thinned(r),
{
    SnapshotMeta {
        format: 1,
        id,
        project: unit.to_owned(),
        created: match info.otime {
            Some(t) => t,
            None => now,
        },
        kind: SnapshotKind::Recovered,
        reason: "metadata recovered by doctor".to_owned(),
        pair: None,
        hold: true,
        hold_note: "recovered".to_owned(),
        source_uuid: match info.parent_uuid {
            Some(u) => u,
            None => Uuid::nil(),
        },
        source_ctransid: info.ctransid,
        snapshot_uuid: info.uuid,
        snapshot_otransid: info.otransid,
        received_uuid: info.received_uuid,
        stats: None,
        origin,
    }
}

/// The tool that asks for snapshots before its commands run.
pub struct Agent {
    /// Its name in paths and options.
    pub name: String,
    /// Its name in messages.
    pub title: String,
    /// Its full name.
    pub product: String,
}

/// Reports whether snapshots can be taken without a password.
pub fn check_snap_sudo(d: &mut Doc, agent: &Agent, allowed: bool)
    ensures
        final(d).grew(
            *old(d),
            if allowed {
                seq![
                    is_ok(
                        "passwordless sudo allows `bpm snap` (hook and wrap snapshots work)"@,
                    ),
                ]
            } else {
                seq![
                    is_warning(
                        "`sudo -n bpm snap …` needs a password: "@ + agent.title@
                            + " hook and `bpm wrap` snapshots are skipped"@,
                        Some("see docs/OPERATIONS.md (sudoers line for `bpm snap *`)"@),
                    ),
                ]
            },
        ),
{
    if allowed {
        d.ok("passwordless sudo allows `bpm snap` (hook and wrap snapshots work)".to_owned());
    } else {
        d.warn(
            cat3(
                "`sudo -n bpm snap …` needs a password: ",
                agent.title.as_str(),
                " hook and `bpm wrap` snapshots are skipped",
            ),
            Some("see docs/OPERATIONS.md (sudoers line for `bpm snap *`)".to_owned()),
        );
    }
}

/// Where the settings of the invoking user are; `home` is the home directory by the environment.
pub fn claude_settings(agent: &Agent, user: &str, home: &str) -> (r: String)
    ensures
        r@ == joined_path(
            if user@.len() == 0 || user@ == "root"@ {
                home@
            } else {
                "/home/"@ + user@
            },
            "."@ + agent.name@ + "/settings.json"@,
        ),
{
    let place = cat3(".", agent.name.as_str(), "/settings.json");
    if user.is_empty() || str_eq(user, "root") {
        path_join(home, place.as_str())
    } else {
        path_join(cat2("/home/", user).as_str(), place.as_str())
    }
}

/// Reports whether the settings call the hook; nothing where there are none.
pub fn check_claude_hook(d: &mut Doc, agent: &Agent, path: &str, settings: Option<&str>)
    ensures
        final(d).grew(
            *old(d),
            match settings {
                Some(t) => if has_text(t@, "snap --"@ + agent.name@ + "-hook"@) {
                    seq![is_ok(agent.product@ + " hook configured in "@ + path@)]
                } else {
                    seq![
                        is_info(
                            "no bpm hook in "@ + path@ + " (see `bpm setup --print-"@ + agent.name@
                                + "-hook`)"@,
                        ),
                    ]
                },
                None => seq![],
            },
        ),
{
    match settings {
        Some(t) => {
            if contains(t, cat3("snap --", agent.name.as_str(), "-hook").as_str()) {
                d.ok(cat3(agent.product.as_str(), " hook configured in ", path));
            } else {
                d.info(
                    cat5(
                        "no bpm hook in ",
                        path,
                        " (see `bpm setup --print-",
                        agent.name.as_str(),
                        "-hook`)",
                    ),
                );
            }
        },
        None => {
            assert(d.said() + Seq::<Found>::empty() =~= d.said());
        },
    }
}

/// How a finding is marked.
pub open spec fn mark_of(f: Found) -> Seq<char> {
    if f.fixed {
        "fixed"@
    } else if f.level == "ok"@ {
        "ok"@
    } else if f.level == "info"@ {
        "info"@
    } else if f.level == "warn"@ {
        "WARN"@
    } else {
        "ERROR"@
    }
}

fn mark(f: &Finding) -> (r: &'static str)
    ensures
        r@ == mark_of(found(*f)),
{
    if f.fixed {
        "fixed"
    } else if str_eq(f.level, "ok") {
        "ok"
    } else if str_eq(f.level, "info") {
        "info"
    } else if str_eq(f.level, "warn") {
        "WARN"
    } else {
        "ERROR"
    }
}

/// A problem that is still there.
pub open spec fn is_problem(f: Found) -> bool {
    (f.level == "warn"@ || f.level == "error"@) && !f.fixed
}

/// A problem that a repair is offered for.
pub open spec fn offers_fix(f: Found) -> bool {
    f.fix is Some && starts(f.fix->0, "doctor --fix"@)
}

/// Some finding is of a kind.
pub open spec fn some_found(f: Seq<Found>, is: spec_fn(Found) -> bool) -> bool {
    exists|i: int| 0 <= i < f.len() && is(#[trigger] f[i])
}

/// The row of a finding.
pub open spec fn finding_row(f: Found) -> Seq<Seq<char>> {
    seq![
        mark_of(f),
        f.what,
        match f.fix {
            Some(x) => x,
            None => Seq::empty(),
        },
    ]
}

/// The findings for people to read, with a hint where repairs are offered.
pub open spec fn report_text(f: Seq<Found>, fix: bool) -> Seq<char> {
    table_text(
        seq![""@, "FINDING"@, "FIX"@],
        Seq::new(f.len(), |i: int| finding_row(f[i])),
    ) + (if !fix && some_found(f, |x: Found| is_problem(x)) && some_found(
        f,
        |x: Found| offers_fix(x),
    ) {
        "\nrun `bpm doctor --fix` to repair the items marked `doctor --fix`\n"@
    } else {
        Seq::empty()
    })
}

/// The findings for people to read.
pub fn run(d: &Doc) -> (r: String)
    ensures
        r@ == report_text(d.said(), d.fix),
{
    let mut t = Table::new(&["", "FINDING", "FIX"]);
    assert(texts(t.headers@) =~= seq![""@, "FINDING"@, "FIX"@]);
    let ghost f = d.said();
    let ghost rows = Seq::new(f.len(), |i: int| finding_row(f[i]));
    let ghost problem = |x: Found| is_problem(x);
    let ghost offer = |x: Found| offers_fix(x);
    let mut problems = false;
    let mut offered = false;
    let mut i: usize = 0;
    assert(row_texts(t.rows@) =~= rows.take(0));
    while i < d.out.len()
        invariant
            i <= d.out@.len(),
            f == d.said(),
            rows == Seq::new(f.len(), |i: int| finding_row(f[i])),
            problem == (|x: Found| is_problem(x)),
            offer == (|x: Found| offers_fix(x)),
            texts(t.headers@) == seq![""@, "FINDING"@, "FIX"@],
            row_texts(t.rows@) == rows.take(i as int),
            problems == some_found(f.take(i as int), problem),
            offered == some_found(f.take(i as int), offer),
        decreases d.out@.len() - i,
    {
        let x = &d.out[i];
        let ghost before = row_texts(t.rows@);
        assert(f[i as int] == found(*x));
        assert(f.take(i + 1) =~= f.take(i as int).push(f[i as int]));
        proof {
            lemma_some_push(f.take(i as int), f[i as int], problem);
            lemma_some_push(f.take(i as int), f[i as int], offer);
        }
        let fix = match &x.fix {
            Some(y) => y.clone(),
            None => String::new(),
        };
        let mut cells: Vec<String> = Vec::new();
        cells.push(mark(x).to_owned());
        cells.push(x.what.clone());
        cells.push(fix);
        assert(texts(cells@) =~= finding_row(f[i as int]));
        if (str_eq(x.level, "warn") || str_eq(x.level, "error")) && !x.fixed {
            problems = true;
        }
        if let Some(y) = &x.fix {
            if starts_with(y.as_str(), "doctor --fix") {
                offered = true;
            }
        }
        t.row(cells);
        assert(row_texts(t.rows@) =~= before.push(finding_row(f[i as int])));
        assert(rows.take(i + 1) =~= before.push(finding_row(f[i as int])));
        i += 1;
    }
    assert(rows.take(i as int) =~= rows);
    assert(f.take(i as int) =~= f);
    let mut s = t.render();
    let ghost table = s@;
    if problems && !d.fix && offered {
        s.append("\nrun `bpm doctor --fix` to repair the items marked `doctor --fix`\n");
    }
    assert(s@ =~= report_text(f, d.fix));
    s
}

proof fn lemma_some_push(f: Seq<Found>, x: Found, is: spec_fn(Found) -> bool)
    ensures
        some_found(f.push(x), is) == (some_found(f, is) || is(x)),
{
    let g = f.push(x);
    if some_found(f, is) {
        let i = choose|i: int| 0 <= i < f.len() && is(#[trigger] f[i]);
        assert(is(g[i]));
    }
    if is(x) {
        assert(is(g[f.len() as int]));
    }
    if some_found(g, is) {
        let i = choose|i: int| 0 <= i < g.len() && is(#[trigger] g[i]);
        if i < f.len() {
            assert(is(f[i]));
        }
    }
}

/// Which repair is offered for something left behind: a copy goes only beside the plain directory
/// that it is one of, an adoption is finished where the subvolume is in its place, and a tree from
/// before a rollback goes back where nothing stands in its place. Anything else is left alone.
pub proof fn law_leftovers_are_repaired_by_what_stands_there(l: Leftover, f: LeftFacts)
    ensures
        left_found(l, f).repair is DeleteCopy <==> l is Tmp && f.is_sub && f.orig_is_dir
            && !f.orig_sub,
        left_found(l, f).repair is FinishAdopt <==> (l is Tmp || l is Old) && !f.is_sub
            && f.orig_sub,
        left_found(l, f).repair matches LeftFix::FinishAdopt { register } ==> register
            == !f.registered,
        left_found(l, f).repair is RenameBack <==> l is Rollback && !f.orig_exists,
        left_found(l, f).repair is RetireRollback <==> l is Rollback && f.orig_exists,
{
}

/// A kernel is fine from 6.15 on.
pub proof fn law_kernels_are_fine_from_the_first_with_levels(v: (u32, u32))
    ensures
        kernel_findings(Some(v)).len() == 1,
        !is_problem(kernel_findings(Some(v))[0]) <==> v.0 > 6 || (v.0 == 6 && v.1 >= 15),
        kernel_findings(None).len() == 0,
{
    lemma_levels();
}

/// What goes well or is only told is no problem; a warning or an error is one until it is fixed.
pub proof fn law_problems_are_warnings_and_errors(what: Seq<char>, fix: Option<Seq<char>>)
    ensures
        !is_problem(is_ok(what)),
        !is_problem(is_info(what)),
        is_problem(is_warning(what, fix)),
        is_problem(is_error(what, fix)),
        !is_problem(Found { fixed: true, ..is_warning(what, fix) }),
        !is_problem(Found { fixed: true, ..is_error(what, fix) }),
        mark_of(Found { fixed: true, ..is_error(what, fix) }) == "fixed"@,
        mark_of(is_warning(what, fix)) == "WARN"@,
        mark_of(is_error(what, fix)) == "ERROR"@,
{
    lemma_levels();
}

proof fn lemma_levels()
    ensures
        "ok"@ != "info"@ && "ok"@ != "warn"@ && "ok"@ != "error"@,
        "info"@ != "warn"@ && "info"@ != "error"@ && "warn"@ != "error"@,
{
    reveal_strlit("ok");
    reveal_strlit("info");
    reveal_strlit("warn");
    reveal_strlit("error");
    assert("ok"@.len() == 2 && "info"@.len() == 4 && "warn"@.len() == 4 && "error"@.len() == 5);
    assert("info"@[0] != "warn"@[0]);
}

/// A root shows one finding for each thing that is wrong with it and for each configuration that
/// takes snapshots of it too; one that is not there, or whose store is not, shows only that.
pub proof fn law_roots_show_each_thing_once(f: RootFacts)
    ensures
        !f.is_dir || !f.store_exists ==> root_findings(f).len() == 1 && is_problem(
            root_findings(f)[0],
        ),
        f.is_dir && f.store_exists ==> root_findings(f).len() == (if f.store_is_subvolume {
            0int
        } else {
            1
        }) + (if f.identity matches Some(i) && i.0@ != i.1@ {
            1int
        } else {
            0
        }) + f.snapper@.len() + (if f.free matches Some(b) && b.0 < f.heavy_min_free {
            1int
        } else {
            0
        }),
{
    lemma_levels();
}

/// A project shows that it is frozen and that its last run failed, each where it is so.
pub proof fn law_states_show_each_thing_once(name: Seq<char>, st: ProjectState)
    ensures
        state_findings(name, st).len() == (if st.frozen is Some {
            1int
        } else {
            0
        }) + (if st.last_error is Some {
            1int
        } else {
            0
        }),
        forall|i: int|
            0 <= i < state_findings(name, st).len() ==> is_problem(
                #[trigger] state_findings(name, st)[i],
            ),
{
    lemma_levels();
}

/// Directories that may be adopted show in one finding, and so do subvolumes that nobody manages.
pub proof fn law_unmanaged_directories_show(
    root: Seq<char>,
    unadopted: Seq<Seq<char>>,
    foreign: Seq<Seq<char>>,
)
    ensures
        unmanaged_findings(root, unadopted, foreign).len() == (if unadopted.len() > 0 {
            1int
        } else {
            0
        }) + (if foreign.len() > 0 {
            1int
        } else {
            0
        }),
{
}

/// Everything that was kept shows as an error, and a search that did not end shows as well.
pub proof fn law_kept_things_all_show(live: Seq<char>, kept: Seq<Seq<char>>, complete: bool)
    ensures
        kept_findings(live, kept, complete).len() == kept.len() + (if complete {
            0int
        } else {
            1
        }),
        forall|i: int|
            0 <= i < kept.len() ==> is_problem(#[trigger] kept_findings(live, kept, complete)[i]),
{
    lemma_levels();
}

/// What a subvolume is saved by is a rollback snapshot of that very subvolume, and what an
/// original has to match is an adopt snapshot of a subvolume that the project has or had.
pub proof fn law_saving_snapshots_are_of_the_subvolume(
    m: SnapshotMeta,
    r: ProjectRecord,
    uuid: Seq<u8>,
)
    ensures
        saves(m, uuid) <==> m.kind is Rollback && m.source_uuid@ == uuid,
        is_adopt_snapshot(m, r) <==> m.kind is Adopt && (m.source_uuid@ == r.uuid@ || exists|i: int|
            0 <= i < r.uuid_history@.len() && #[trigger] r.uuid_history@[i]@ == m.source_uuid@),
{
}

/// The first line that gives a key gives its value: what follows the equals sign, without quotes
/// around it.
pub proof fn law_the_first_line_gives_the_value(
    ls: Seq<Seq<char>>,
    key: Seq<char>,
    v: Seq<char>,
    l: Seq<char>,
)
    requires
        v.len() > 0 && v[0] != '"' && v.last() != '"',
        l == key + "="@ + v || l == key + "=\""@ + v + "\""@,
    ensures
        value_in(Seq::empty(), key) is None,
        value_in(ls, key) is Some ==> value_in(ls.push(l), key) == value_in(ls, key),
        value_in(ls, key) is None ==> value_in(ls.push(l), key) == Some(v),
{
    reveal_strlit("=");
    reveal_strlit("=\"");
    reveal_strlit("\"");
    assert(ls.push(l).drop_last() =~= ls);
    let k = key + "="@;
    assert(l.take(k.len() as int) =~= k);
    let rest = l.skip(k.len() as int);
    reveal_with_fuel(char_trim_start, 2);
    reveal_with_fuel(char_trim_end, 2);
    if l == key + "="@ + v {
        assert(rest =~= v);
    } else {
        let w = v + "\""@;
        assert(rest.skip(1) =~= w);
        assert(rest[0] == '"');
        assert(w.drop_last() =~= v);
        assert(w[0] == v[0]);
    }
}

/// A kernel release begins with its two numbers, whatever follows the second one.
pub proof fn law_releases_begin_with_two_numbers(a: nat, b: nat, rest: Seq<char>)
    requires
        a <= u32::MAX,
        b <= u32::MAX,
        rest.len() > 0,
        !is_space(rest.last()),
    ensures
        release_of(dec(a) + "."@ + dec(b) + "."@ + rest) == Some((a, b)),
        release_of(dec(a) + "."@ + dec(b) + "-"@ + rest) == Some((a, b)),
        release_of(dec(a) + "."@ + dec(b)) == Some((a, b)),
{
    reveal_strlit(".");
    reveal_strlit("-");
    let at = |x: char| x == '.' || x == '-';
    lemma_dec_digits(a);
    lemma_dec_digits(b);
    law_number_round_trip(a, u32::MAX as nat);
    law_number_round_trip(b, u32::MAX as nat);
    let x = dec(a);
    let y = dec(b);
    lemma_digits_unbroken(a, at);
    lemma_digits_unbroken(b, at);
    let s0 = x + "."@ + y;
    let s1 = x + "."@ + y + "."@ + rest;
    let s2 = x + "."@ + y + "-"@ + rest;
    assert(is_digit(x[0]) && is_digit(y[y.len() - 1]));
    assert(s0.last() == y.last());
    assert(s0[0] == x[0] && s1[0] == x[0] && s2[0] == x[0]);
    lemma_trim_nothing(s0);
    lemma_trim_nothing(s1);
    lemma_trim_nothing(s2);
    assert(s0 =~= x.push('.') + y);
    assert(s1 =~= x.push('.') + (y.push('.') + rest));
    assert(s2 =~= x.push('.') + (y.push('-') + rest));
    lemma_pieces_break(x, '.', y, at);
    lemma_pieces_break(y, '.', rest, at);
    lemma_pieces_break(y, '-', rest, at);
    lemma_pieces_break(x, '.', y.push('.') + rest, at);
    lemma_pieces_break(x, '.', y.push('-') + rest, at);
}

proof fn lemma_digits_unbroken(n: nat, at: spec_fn(char) -> bool)
    requires
        forall|c: char| is_digit(c) ==> !#[trigger] at(c),
    ensures
        pieces(dec(n), at) == seq![dec(n)],
{
    lemma_dec_digits(n);
    assert forall|i: int| 0 <= i < dec(n).len() implies !at(#[trigger] dec(n)[i]) by {
        assert(is_digit(dec(n)[i]));
    }
    lemma_one_piece(dec(n), at);
}

/// An operation counts as interrupted once its journal was not written for more than ten minutes,
/// and from then on.
pub proof fn law_journals_stand_still_after_ten_minutes(
    j: JournalEntry,
    now: Timestamp,
    later: Timestamp,
)
    ensures
        j.updated.ns <= now.ns ==> (stands_still(j, now) <==> now.ns > j.updated.ns + 10 * 60
            * 1_000_000_000),
        now.ns <= j.updated.ns ==> !stands_still(j, now),
        stands_still(j, now) && now.ns <= later.ns ==> stands_still(j, later),
{
}

/// A repair is offered where the advice begins with the command that makes it, and nowhere else.
pub proof fn law_repairs_are_offered_by_command(f: Found, rest: Seq<char>)
    ensures
        f.fix is None ==> !offers_fix(f),
        f.fix == Some("doctor --fix"@ + rest) ==> offers_fix(f),
        f.fix is Some && f.fix->0.len() < 12 ==> !offers_fix(f),
{
    reveal_strlit("doctor --fix");
    let w = "doctor --fix"@;
    assert((w + rest).take(w.len() as int) =~= w);
}

} // verus!
