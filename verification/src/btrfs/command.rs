//! The `btrfs` command line: the arguments of each operation and the output of the reports.

use vstd::prelude::*;

use crate::btrfs::{DefragOpts, DuStats, Uuid};
#[allow(unused_imports)]
use crate::btrfs::uuid_text;
use crate::util::text::{
    cat2, cat3, cat4, cat5, chars_of, dec_u64, lines, parse_u64, str_eq, words,
};
#[allow(unused_imports)]
use crate::util::text::{
    dec, law_number_round_trip, lines_of, parsed, texts, trim_start, words_of,
};

verus! {

/// Where the `btrfs` program is.
pub struct RealBtrfs {
    pub bin: String,
}

impl RealBtrfs {
    /// `btrfs` from the search path.
    pub fn new() -> (r: RealBtrfs)
        ensures
            r.bin@ == "btrfs"@,
    {
        RealBtrfs { bin: "btrfs".to_owned() }
    }
}

/// The arguments that create a subvolume.
pub fn create_args(path: &str) -> (r: Vec<String>)
    ensures
        texts(r@) == seq!["subvolume"@, "create"@, path@],
{
    let r = vec!["subvolume".to_owned(), "create".to_owned(), path.to_owned()];
    assert(texts(r@) =~= seq!["subvolume"@, "create"@, path@]);
    r
}

/// The arguments that take a snapshot.
pub fn snapshot_args(src: &str, dst: &str, readonly: bool) -> (r: Vec<String>)
    ensures
        texts(r@) == seq!["subvolume"@, "snapshot"@] + (if readonly {
            seq!["-r"@]
        } else {
            seq![]
        }) + seq![src@, dst@],
{
    let mut r = vec!["subvolume".to_owned(), "snapshot".to_owned()];
    if readonly {
        r.push("-r".to_owned());
    }
    r.push(src.to_owned());
    r.push(dst.to_owned());
    assert(texts(r@) =~= seq!["subvolume"@, "snapshot"@] + (if readonly {
        seq!["-r"@]
    } else {
        seq![]
    }) + seq![src@, dst@]);
    r
}

/// The arguments that delete a subvolume, with those nested in it where `recursive` holds.
pub fn delete_args(path: &str, recursive: bool) -> (r: Vec<String>)
    ensures
        texts(r@) == seq!["subvolume"@, "delete"@] + (if recursive {
            seq!["-R"@]
        } else {
            seq![]
        }) + seq![path@],
{
    let mut r = vec!["subvolume".to_owned(), "delete".to_owned()];
    if recursive {
        r.push("-R".to_owned());
    }
    r.push(path.to_owned());
    assert(texts(r@) =~= seq!["subvolume"@, "delete"@] + (if recursive {
        seq!["-R"@]
    } else {
        seq![]
    }) + seq![path@]);
    r
}

/// The arguments that make a subvolume read-only, or writable again.
pub fn readonly_args(path: &str, ro: bool) -> (r: Vec<String>)
    ensures
        texts(r@) == seq![
            "property"@,
            "set"@,
            "-f"@,
            "-ts"@,
            path@,
            "ro"@,
            if ro {
                "true"@
            } else {
                "false"@
            },
        ],
{
    let value = if ro {
        "true".to_owned()
    } else {
        "false".to_owned()
    };
    let r = vec![
        "property".to_owned(),
        "set".to_owned(),
        "-f".to_owned(),
        "-ts".to_owned(),
        path.to_owned(),
        "ro".to_owned(),
        value,
    ];
    assert(texts(r@) =~= seq![
        "property"@,
        "set"@,
        "-f"@,
        "-ts"@,
        path@,
        "ro"@,
        if ro {
            "true"@
        } else {
            "false"@
        },
    ]);
    r
}

/// The arguments of a recompression.
pub open spec fn defragment_argv(
    path: Seq<char>,
    compress: Seq<char>,
    level: Option<u8>,
    flush: bool,
) -> Seq<Seq<char>> {
    seq!["filesystem"@, "defragment"@, "-r"@, "-c"@ + compress] + (match level {
        Some(l) => seq!["-L"@, dec(l as nat)],
        None => seq![],
    }) + (if flush {
        seq!["-f"@]
    } else {
        seq![]
    }) + seq![path]
}

/// The arguments that recompress everything in a subvolume.
pub fn defragment_args(path: &str, opts: &DefragOpts) -> (r: Vec<String>)
    ensures
        texts(r@) == defragment_argv(path@, opts.compress@, opts.level, opts.flush),
{
    let mut r = vec![
        "filesystem".to_owned(),
        "defragment".to_owned(),
        "-r".to_owned(),
        cat2("-c", opts.compress.as_str()),
    ];
    if let Some(l) = opts.level {
        r.push("-L".to_owned());
        r.push(dec_u64(l as u64));
    }
    if opts.flush {
        r.push("-f".to_owned());
    }
    r.push(path.to_owned());
    assert(texts(r@) =~= defragment_argv(path@, opts.compress@, opts.level, opts.flush));
    r
}

/// The arguments of the usage report.
pub fn du_args(path: &str) -> (r: Vec<String>)
    ensures
        texts(r@) == seq!["filesystem"@, "du"@, "-s"@, "--raw"@, path@],
{
    let r = vec![
        "filesystem".to_owned(),
        "du".to_owned(),
        "-s".to_owned(),
        "--raw".to_owned(),
        path.to_owned(),
    ];
    assert(texts(r@) =~= seq!["filesystem"@, "du"@, "-s"@, "--raw"@, path@]);
    r
}

/// The arguments that send a snapshot as a stream.
pub fn send_args(snapshot: &str, compressed_data: bool) -> (r: Vec<String>)
    ensures
        texts(r@) == seq!["send"@, "-q"@] + (if compressed_data {
            seq!["--compressed-data"@]
        } else {
            seq![]
        }) + seq![snapshot@],
{
    let mut r = vec!["send".to_owned(), "-q".to_owned()];
    if compressed_data {
        r.push("--compressed-data".to_owned());
    }
    r.push(snapshot.to_owned());
    assert(texts(r@) =~= seq!["send"@, "-q"@] + (if compressed_data {
        seq!["--compressed-data"@]
    } else {
        seq![]
    }) + seq![snapshot@]);
    r
}

/// The arguments that receive a stream below a directory.
pub fn receive_args(dest_dir: &str) -> (r: Vec<String>)
    ensures
        texts(r@) == seq!["receive"@, "-q"@, dest_dir@],
{
    let r = vec!["receive".to_owned(), "-q".to_owned(), dest_dir.to_owned()];
    assert(texts(r@) =~= seq!["receive"@, "-q"@, dest_dir@]);
    r
}

/// The arguments that list every subvolume with its identity.
pub fn list_args(fs_path: &str) -> (r: Vec<String>)
    ensures
        texts(r@) == seq!["subvolume"@, "list"@, "-u"@, "-a"@, fs_path@],
{
    let r = vec![
        "subvolume".to_owned(),
        "list".to_owned(),
        "-u".to_owned(),
        "-a".to_owned(),
        fs_path.to_owned(),
    ];
    assert(texts(r@) =~= seq!["subvolume"@, "list"@, "-u"@, "-a"@, fs_path@]);
    r
}

/// Whether a line of the usage report holds numbers: its first character after white space is
/// a digit.
pub open spec fn data_line(l: Seq<char>) -> bool {
    let t = trim_start(l);
    t.len() > 0 && '0' <= t[0] <= '9'
}

fn is_data_line(l: &str) -> (r: bool)
    ensures
        r == data_line(l@),
{
    let v = chars_of(l);
    let mut i: usize = 0;
    assert(l@.skip(0) =~= l@);
    while i < v.len() && crate::util::text::char_is_space(v[i])
        invariant
            i <= v@.len(),
            v@ == l@,
            trim_start(l@) == trim_start(l@.skip(i as int)),
        decreases v@.len() - i,
    {
        assert(l@.skip(i as int).skip(1) =~= l@.skip(i + 1));
        i += 1;
    }
    i < v.len() && '0' <= v[i] && v[i] <= '9'
}

/// The number in column `k` of a line, zero where there is none.
pub open spec fn column(l: Seq<char>, k: int) -> int {
    let w = words_of(l);
    if k < w.len() {
        match parsed(w[k], u64::MAX as nat) {
            Some(n) => n as int,
            None => 0,
        }
    } else {
        0
    }
}

fn number_at(w: &Vec<String>, k: usize) -> (r: u64)
    ensures
        r == if k < w@.len() {
            match parsed(w@[k as int]@, u64::MAX as nat) {
                Some(n) => n as int,
                None => 0,
            }
        } else {
            0
        },
{
    if k < w.len() {
        match parse_u64(w[k].as_str()) {
            Some(n) => n,
            None => 0,
        }
    } else {
        0
    }
}

/// The position of the first line with numbers; the number of lines where there is none.
pub open spec fn first_data(ls: Seq<Seq<char>>) -> int
    decreases ls.len(),
{
    if ls.len() == 0 || data_line(ls[0]) {
        0
    } else {
        1 + first_data(ls.skip(1))
    }
}

/// Reads the usage report: total, exclusive and shared bytes from its first line with numbers.
pub fn parse_du(out: &str) -> (r: Result<DuStats, String>)
    ensures
        ({
            let ls = lines_of(out@);
            let i = first_data(ls);
            match r {
                Ok(d) => 0 <= i < ls.len() && d.total == column(ls[i], 0) && d.exclusive == column(
                    ls[i],
                    1,
                ) && d.set_shared == column(ls[i], 2),
                Err(m) => i >= ls.len() && m@ == "no data line"@,
            }
        }),
{
    let ls = lines(out);
    let ghost all = lines_of(out@);
    let mut i: usize = 0;
    assert(all.skip(0) =~= all);
    while i < ls.len()
        invariant
            i <= ls@.len(),
            texts(ls@) == all,
            all == lines_of(out@),
            first_data(all) == i + first_data(all.skip(i as int)),
        decreases ls@.len() - i,
    {
        assert(all.skip(i as int)[0] == ls@[i as int]@);
        if is_data_line(ls[i].as_str()) {
            let w = words(ls[i].as_str());
            let ghost ws = words_of(ls@[i as int]@);
            assert(all[i as int] == ls@[i as int]@);
            assert(forall|k: int| 0 <= k < w@.len() ==> #[trigger] ws[k] == w@[k]@);
            assert(ws.len() == w@.len());
            return Ok(
                DuStats {
                    total: number_at(&w, 0),
                    exclusive: number_at(&w, 1),
                    set_shared: number_at(&w, 2),
                },
            );
        }
        assert(all.skip(i as int).skip(1) =~= all.skip(i + 1));
        i += 1;
    }
    Err("no data line".to_owned())
}

/// What the words of a listing line say, after what earlier words said: whether the last
/// `uuid` is `want`, and the last `path`.
pub open spec fn line_facts(
    w: Seq<Seq<char>>,
    want: Seq<char>,
    found: bool,
    path: Option<Seq<char>>,
) -> (bool, Option<Seq<char>>)
    decreases w.len(),
{
    if w.len() == 0 {
        (found, path)
    } else if w[0] == "uuid"@ {
        if w.len() == 1 {
            (false, path)
        } else {
            line_facts(w.skip(2), want, w[1] == want, path)
        }
    } else if w[0] == "path"@ {
        if w.len() == 1 {
            (found, None)
        } else {
            line_facts(w.skip(2), want, found, Some(w[1]))
        }
    } else {
        line_facts(w.skip(1), want, found, path)
    }
}

/// The path on a listing line that carries the identity `want`.
pub open spec fn line_path(l: Seq<char>, want: Seq<char>) -> Option<Seq<char>> {
    let f = line_facts(words_of(l), want, false, None);
    if f.0 {
        f.1
    } else {
        None
    }
}

/// The path on the first listing line that carries the identity `want` and a path.
pub open spec fn listed_path(ls: Seq<Seq<char>>, want: Seq<char>) -> Option<Seq<char>>
    decreases ls.len(),
{
    if ls.len() == 0 {
        None
    } else if line_path(ls[0], want) is Some {
        line_path(ls[0], want)
    } else {
        listed_path(ls.skip(1), want)
    }
}

pub open spec fn opt_text(s: Option<String>) -> Option<Seq<char>> {
    match s {
        Some(t) => Some(t@),
        None => None,
    }
}

fn path_on_line(l: &str, want: &str) -> (r: Option<String>)
    ensures
        opt_text(r) == line_path(l@, want@),
{
    let w = words(l);
    let ghost ws = words_of(l@);
    let n: usize = w.len();
    let mut i: usize = 0;
    let mut found = false;
    let mut path: Option<String> = None;
    assert(ws.skip(0) =~= ws);
    while i < n
        invariant
            i <= n,
            n == w@.len(),
            texts(w@) == ws,
            ws == words_of(l@),
            ws.len() == w@.len(),
            line_facts(ws, want@, false, None) == line_facts(
                ws.skip(i as int),
                want@,
                found,
                opt_text(path),
            ),
        decreases n - i,
    {
        let ghost rest = ws.skip(i as int);
        assert(rest[0] == w@[i as int]@);
        if str_eq(w[i].as_str(), "uuid") {
            if n - i == 1 {
                return None;
            }
            assert(rest[1] == w@[i + 1]@);
            assert(rest.skip(2) =~= ws.skip(i + 2));
            found = str_eq(w[i + 1].as_str(), want);
            i += 2;
        } else if str_eq(w[i].as_str(), "path") {
            if n - i == 1 {
                return None;
            }
            assert(rest[1] == w@[i + 1]@);
            assert(rest.skip(2) =~= ws.skip(i + 2));
            path = Some(w[i + 1].clone());
            i += 2;
        } else {
            assert(rest.skip(1) =~= ws.skip(i + 1));
            i += 1;
        }
    }
    if found {
        path
    } else {
        None
    }
}

/// Looks a subvolume up by identity in the listing of all subvolumes.
pub fn find_in_listing(out: &str, uuid: &Uuid) -> (r: Option<String>)
    ensures
        opt_text(r) == listed_path(lines_of(out@), uuid_text(uuid@)),
{
    let want = uuid.to_string();
    let ls = lines(out);
    let ghost all = lines_of(out@);
    let mut i: usize = 0;
    assert(all.skip(0) =~= all);
    while i < ls.len()
        invariant
            i <= ls@.len(),
            texts(ls@) == all,
            all == lines_of(out@),
            want@ == uuid_text(uuid@),
            listed_path(all, want@) == listed_path(all.skip(i as int), want@),
        decreases ls@.len() - i,
    {
        assert(all.skip(i as int)[0] == ls@[i as int]@);
        let p = path_on_line(ls[i].as_str(), want.as_str());
        if p.is_some() {
            return p;
        }
        assert(all.skip(i as int).skip(1) =~= all.skip(i + 1));
        i += 1;
    }
    None
}

/// What a dry run says instead of changing a subvolume.
pub enum Mutation {
    Create { path: String },
    Snapshot { src: String, dst: String, readonly: bool },
    Delete { path: String, recursive: bool },
    SetReadonly { path: String, ro: bool },
    Defragment { path: String, compress: String, level: Option<u8> },
    Send { snapshot: String },
    Receive { dest_dir: String },
}

/// What a dry run says instead of changing a subvolume.
pub open spec fn dry_text(m: Mutation) -> Seq<char> {
    match m {
        Mutation::Create { path } => "btrfs subvolume create "@ + path@,
        Mutation::Snapshot { src, dst, readonly } => "btrfs subvolume snapshot "@ + (if readonly {
            "-r "@
        } else {
            ""@
        }) + src@ + " "@ + dst@,
        Mutation::Delete { path, recursive } => "btrfs subvolume delete "@ + (if recursive {
            "-R "@
        } else {
            ""@
        }) + path@,
        Mutation::SetReadonly { path, ro } => "btrfs property set "@ + path@ + " ro "@ + (if ro {
            "true"@
        } else {
            "false"@
        }),
        Mutation::Defragment { path, compress, level } => "btrfs filesystem defragment -r -c"@
            + compress@ + " "@ + (match level {
            Some(l) => "Some("@ + dec(l as nat) + ")"@,
            None => "None"@,
        }) + " "@ + path@,
        Mutation::Send { snapshot } => "btrfs send "@ + snapshot@,
        Mutation::Receive { dest_dir } => "btrfs receive "@ + dest_dir@,
    }
}

impl Mutation {
    /// What a dry run says instead.
    pub fn describe(&self) -> (r: String)
        ensures
            r@ == "[dry-run] "@ + dry_text(*self),
    {
        let t = match self {
            Mutation::Create { path } => cat2("btrfs subvolume create ", path.as_str()),
            Mutation::Snapshot { src, dst, readonly } => {
                let flag = if *readonly {
                    "-r "
                } else {
                    ""
                };
                cat5("btrfs subvolume snapshot ", flag, src.as_str(), " ", dst.as_str())
            },
            Mutation::Delete { path, recursive } => {
                let flag = if *recursive {
                    "-R "
                } else {
                    ""
                };
                cat3("btrfs subvolume delete ", flag, path.as_str())
            },
            Mutation::SetReadonly { path, ro } => {
                let value = if *ro {
                    "true"
                } else {
                    "false"
                };
                cat4("btrfs property set ", path.as_str(), " ro ", value)
            },
            Mutation::Defragment { path, compress, level } => {
                let l = match level {
                    Some(l) => cat3("Some(", dec_u64(*l as u64).as_str(), ")"),
                    None => "None".to_owned(),
                };
                cat5(
                    "btrfs filesystem defragment -r -c",
                    compress.as_str(),
                    " ",
                    l.as_str(),
                    cat2(" ", path.as_str()).as_str(),
                )
            },
            Mutation::Send { snapshot } => cat2("btrfs send ", snapshot.as_str()),
            Mutation::Receive { dest_dir } => cat2("btrfs receive ", dest_dir.as_str()),
        };
        assert(t@ =~= dry_text(*self));
        cat2("[dry-run] ", t.as_str())
    }
}

/// A usage report is read from its first line that begins with a digit.
pub proof fn law_usage_is_read_from_the_first_numbers(ls: Seq<Seq<char>>)
    ensures
        0 <= first_data(ls) <= ls.len(),
        first_data(ls) < ls.len() ==> data_line(ls[first_data(ls)]),
        forall|i: int| 0 <= i < first_data(ls) ==> !data_line(#[trigger] ls[i]),
    decreases ls.len(),
{
    if ls.len() > 0 && !data_line(ls[0]) {
        let t = ls.skip(1);
        law_usage_is_read_from_the_first_numbers(t);
        assert forall|i: int| 0 <= i < first_data(ls) implies !data_line(#[trigger] ls[i]) by {
            if i > 0 {
                assert(t[i - 1] == ls[i]);
            }
        }
    }
}

/// A column holds the number that its word writes.
pub proof fn law_columns_hold_the_numbers_of_their_words(l: Seq<char>, k: int, n: nat)
    requires
        0 <= k,
    ensures
        k < words_of(l).len() && words_of(l)[k] == dec(n) && n <= u64::MAX ==> column(l, k) == n,
        k >= words_of(l).len() ==> column(l, k) == 0,
{
    if n <= u64::MAX {
        law_number_round_trip(n, u64::MAX as nat);
    }
}

/// Words that name neither an identity nor a path.
pub open spec fn says_nothing(w: Seq<Seq<char>>) -> bool {
    forall|i: int| 0 <= i < w.len() ==> #[trigger] w[i] != "uuid"@ && w[i] != "path"@
}

/// A line of a listing gives the path of a subvolume where it names the identity that is looked
/// for, and none where it names another.
pub proof fn law_listings_are_read_by_identity(
    a: Seq<Seq<char>>,
    u: Seq<char>,
    b: Seq<Seq<char>>,
    p: Seq<char>,
    want: Seq<char>,
)
    requires
        says_nothing(a),
        says_nothing(b),
    ensures
        line_facts(a + seq!["uuid"@, u] + b + seq!["path"@, p], want, false, None) == (
            u == want,
            Some(p),
        ),
{
    reveal_strlit("uuid");
    reveal_strlit("path");
    assert("uuid"@[0] != "path"@[0]);
    let t = seq!["path"@, p];
    let s = seq!["uuid"@, u] + (b + t);
    assert(a + seq!["uuid"@, u] + b + t =~= a + s);
    lemma_says_nothing(a, s, want, false, None);
    assert(s.skip(2) =~= b + t);
    lemma_says_nothing(b, t, want, u == want, None);
    assert(t.skip(2) =~= Seq::<Seq<char>>::empty());
    reveal_with_fuel(line_facts, 3);
}

proof fn lemma_says_nothing(
    a: Seq<Seq<char>>,
    s: Seq<Seq<char>>,
    want: Seq<char>,
    found: bool,
    path: Option<Seq<char>>,
)
    requires
        says_nothing(a),
    ensures
        line_facts(a + s, want, found, path) == line_facts(s, want, found, path),
    decreases a.len(),
{
    if a.len() == 0 {
        assert(a + s =~= s);
    } else {
        assert((a + s)[0] == a[0]);
        assert((a + s).skip(1) =~= a.skip(1) + s);
        assert forall|i: int| 0 <= i < a.skip(1).len() implies #[trigger] a.skip(1)[i] != "uuid"@
            && a.skip(1)[i] != "path"@ by {
            assert(a.skip(1)[i] == a[i + 1]);
        }
        lemma_says_nothing(a.skip(1), s, want, found, path);
    }
}

/// The first line that has a path for the identity gives it.
pub proof fn law_the_first_listed_path_counts(
    ls: Seq<Seq<char>>,
    l: Seq<char>,
    want: Seq<char>,
)
    ensures
        listed_path(Seq::empty(), want) is None,
        line_path(l, want) is Some ==> listed_path(seq![l] + ls, want) == line_path(l, want),
        line_path(l, want) is None ==> listed_path(seq![l] + ls, want) == listed_path(ls, want),
{
    assert((seq![l] + ls).skip(1) =~= ls);
}

} // verus!
