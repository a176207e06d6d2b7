//! Tables for people to read, and how loud the log is.

use vstd::prelude::*;

use crate::util::text::{cat3, chars_of, trim_end_matches, trim_right};
#[allow(unused_imports)]
use crate::util::text::{strip_all, texts, trim_end};

verus! {

pub struct Table {
    pub headers: Vec<String>,
    pub rows: Vec<Vec<String>>,
}

/// The texts of all rows.
pub open spec fn row_texts(rows: Seq<Vec<String>>) -> Seq<Seq<Seq<char>>> {
    Seq::new(rows.len(), |i: int| texts(rows[i]@))
}

/// The width of column `i`: that of its widest cell.
pub open spec fn column_width(
    headers: Seq<Seq<char>>,
    rows: Seq<Seq<Seq<char>>>,
    i: int,
) -> nat
    decreases rows.len(),
{
    if rows.len() == 0 {
        headers[i].len()
    } else {
        let w = column_width(headers, rows.drop_last(), i);
        if i < rows.last().len() && rows.last()[i].len() > w {
            rows.last()[i].len()
        } else {
            w
        }
    }
}

pub open spec fn spaces(n: int) -> Seq<char> {
    Seq::new(
        if n > 0 {
            n as nat
        } else {
            0
        },
        |i: int| ' ',
    )
}

/// The first `k` cells of a line: each but the one of the last column padded to its column and
/// followed by two spaces.
pub open spec fn cells_upto(
    headers: Seq<Seq<char>>,
    rows: Seq<Seq<Seq<char>>>,
    cells: Seq<Seq<char>>,
    k: int,
) -> Seq<char>
    decreases k,
{
    if k <= 0 {
        Seq::empty()
    } else {
        let before = cells_upto(headers, rows, cells, k - 1);
        let c = cells[k - 1];
        if k == headers.len() {
            before + c
        } else {
            before + c + spaces(column_width(headers, rows, k - 1) - c.len()) + "  "@
        }
    }
}

/// One line of a table, without trailing white space, ended by a line feed.
pub open spec fn line_text(
    headers: Seq<Seq<char>>,
    rows: Seq<Seq<Seq<char>>>,
    cells: Seq<Seq<char>>,
) -> Seq<char> {
    let k = if cells.len() < headers.len() {
        cells.len()
    } else {
        headers.len()
    };
    trim_end(cells_upto(headers, rows, cells, k as int)) + "\n"@
}

/// The first `k` rows as lines.
pub open spec fn rows_text(headers: Seq<Seq<char>>, rows: Seq<Seq<Seq<char>>>, k: int) -> Seq<char>
    decreases k,
{
    if k <= 0 {
        Seq::empty()
    } else {
        rows_text(headers, rows, k - 1) + line_text(headers, rows, rows[k - 1])
    }
}

/// The texts of a slice of strings.
pub open spec fn str_texts(v: Seq<&str>) -> Seq<Seq<char>> {
    Seq::new(v.len(), |i: int| v[i]@)
}

fn char_count(s: &str) -> (r: usize)
    ensures
        r == s@.len(),
{
    let v = chars_of(s);
    v.len()
}

impl Table {
    pub fn new(headers: &[&str]) -> (r: Table)
        ensures
            texts(r.headers@) == str_texts(headers@),
            r.rows@ == Seq::<Vec<String>>::empty(),
    {
        let mut h: Vec<String> = Vec::new();
        let mut i: usize = 0;
        while i < headers.len()
            invariant
                i <= headers@.len(),
                texts(h@) == str_texts(headers@).take(i as int),
            decreases headers@.len() - i,
        {
            let ghost before = texts(h@);
            h.push(headers[i].to_owned());
            assert(texts(h@) =~= before.push(headers@[i as int]@));
            assert(str_texts(headers@).take(i + 1) =~= before.push(headers@[i as int]@));
            i += 1;
        }
        assert(str_texts(headers@).take(i as int) =~= str_texts(headers@));
        Table { headers: h, rows: Vec::new() }
    }

    pub fn row(&mut self, cells: Vec<String>)
        ensures
            final(self).headers == old(self).headers,
            final(self).rows@ == old(self).rows@.push(cells),
    {
        self.rows.push(cells);
    }

    pub fn is_empty(&self) -> (r: bool)
        ensures
            r == (self.rows@.len() == 0),
    {
        self.rows.len() == 0
    }

    fn width(&self, i: usize) -> (w: usize)
        requires
            i < self.headers@.len(),
        ensures
            w == column_width(texts(self.headers@), row_texts(self.rows@), i as int),
    {
        let ghost h = texts(self.headers@);
        let ghost all = row_texts(self.rows@);
        let mut w: usize = char_count(self.headers[i].as_str());
        let mut k: usize = 0;
        assert(all.take(0) =~= Seq::empty());
        while k < self.rows.len()
            invariant
                k <= self.rows@.len(),
                i < self.headers@.len(),
                h == texts(self.headers@),
                all == row_texts(self.rows@),
                w == column_width(h, all.take(k as int), i as int),
            decreases self.rows@.len() - k,
        {
            assert(all.take(k + 1).drop_last() =~= all.take(k as int));
            assert(all.take(k + 1).last() == texts(self.rows@[k as int]@));
            if i < self.rows[k].len() {
                let c: usize = char_count(self.rows[k][i].as_str());
                assert(texts(self.rows@[k as int]@)[i as int].len() == c);
                if c > w {
                    w = c;
                }
            }
            k += 1;
        }
        assert(all.take(all.len() as int) =~= all);
        w
    }

    fn line(&self, cells: &Vec<String>) -> (r: String)
        ensures
            r@ == line_text(texts(self.headers@), row_texts(self.rows@), texts(cells@)),
    {
        let ghost h = texts(self.headers@);
        let ghost all = row_texts(self.rows@);
        let ghost cs = texts(cells@);
        let n: usize = self.headers.len();
        let k: usize = if cells.len() < n {
            cells.len()
        } else {
            n
        };
        let mut s = String::new();
        let mut i: usize = 0;
        while i < k
            invariant
                i <= k,
                k <= n,
                k <= cells@.len(),
                n == self.headers@.len(),
                h == texts(self.headers@),
                all == row_texts(self.rows@),
                cs == texts(cells@),
                s@ == cells_upto(h, all, cs, i as int),
            decreases k - i,
        {
            let c = cells[i].as_str();
            assert(cs[i as int] == c@);
            s.append(c);
            if i + 1 != n {
                let w: usize = self.width(i);
                let l: usize = char_count(c);
                let ghost before = s@;
                let mut j: usize = l;
                assert(s@ =~= before + spaces(0));
                while j < w
                    invariant
                        l <= j,
                        j <= w || j == l,
                        s@ == before + spaces(j - l),
                    decreases w - j,
                {
                    s.push(' ');
                    assert(before + spaces(j + 1 - l) =~= (before + spaces(j - l)).push(' '));
                    j += 1;
                }
                assert(spaces(j - l) =~= spaces(w - l));
                s.append("  ");
            }
            i += 1;
        }
        let mut r = trim_right(s.as_str());
        r.append("\n");
        r
    }

    /// The table as text: cells padded to their columns, two spaces between columns.
    pub fn render(&self) -> (r: String)
        ensures
            ({
                let h = texts(self.headers@);
                let all = row_texts(self.rows@);
                r@ == line_text(h, all, h) + rows_text(h, all, all.len() as int)
            }),
    {
        let ghost h = texts(self.headers@);
        let ghost all = row_texts(self.rows@);
        let mut out = self.line(&self.headers);
        let ghost first = out@;
        let mut i: usize = 0;
        assert(first =~= first + rows_text(h, all, 0));
        while i < self.rows.len()
            invariant
                i <= self.rows@.len(),
                h == texts(self.headers@),
                all == row_texts(self.rows@),
                out@ == first + rows_text(h, all, i as int),
            decreases self.rows@.len() - i,
        {
            let l = self.line(&self.rows[i]);
            let ghost before = out@;
            out.append(l.as_str());
            assert(all[i as int] == texts(self.rows@[i as int]@));
            assert(out@ =~= first + (rows_text(h, all, i as int) + l@));
            i += 1;
        }
        out
    }
}

/// A table as text.
pub open spec fn table_text(headers: Seq<Seq<char>>, rows: Seq<Seq<Seq<char>>>) -> Seq<char> {
    line_text(headers, rows, headers) + rows_text(headers, rows, rows.len() as int)
}

/// What is printed for people: nothing where they want none or there is nothing to say, and no
/// empty lines at the end.
pub fn emit(quiet: bool, human: &str) -> (r: Option<String>)
    ensures
        match r {
            Some(t) => !quiet && human@.len() > 0 && t@ == strip_all(human@, "\n"@),
            None => quiet || human@.len() == 0,
        },
{
    proof {
        reveal_strlit("\n");
    }
    if quiet || human.is_empty() {
        return None;
    }
    Some(trim_end_matches(human, "\n"))
}

/// How important a line of the log is.
#[derive(Clone, Copy, Debug, PartialEq, Eq, Structural)]
pub enum Level {
    Error,
    Warn,
    Info,
    Debug,
    Trace,
}

/// The least important lines that are logged.
pub fn max_level(verbose: u8, quiet: bool) -> (r: Level)
    ensures
        r == if quiet {
            Level::Warn
        } else if verbose == 0 {
            Level::Info
        } else if verbose == 1 {
            Level::Debug
        } else {
            Level::Trace
        },
{
    if quiet {
        Level::Warn
    } else if verbose == 0 {
        Level::Info
    } else if verbose == 1 {
        Level::Debug
    } else {
        Level::Trace
    }
}

/// The name of a level.
pub open spec fn level_name(l: Level) -> Seq<char> {
    match l {
        Level::Error => "error"@,
        Level::Warn => "warning"@,
        Level::Info => ""@,
        Level::Debug => "debug"@,
        Level::Trace => "trace"@,
    }
}

/// The priority of a level in the journal.
pub open spec fn priority(l: Level) -> Seq<char> {
    match l {
        Level::Error => "3"@,
        Level::Warn => "4"@,
        Level::Info => "6"@,
        _ => "7"@,
    }
}

/// What a line of the log begins with.
pub fn log_prefix(l: Level, journald: bool) -> (r: String)
    ensures
        r@ == if journald {
            "<"@ + priority(l) + ">"@
        } else if l == Level::Info {
            "bpm: "@
        } else {
            "bpm: "@ + level_name(l) + ": "@
        },
{
    if journald {
        let p = match l {
            Level::Error => "3",
            Level::Warn => "4",
            Level::Info => "6",
            Level::Debug => "7",
            Level::Trace => "7",
        };
        return cat3("<", p, ">");
    }
    let name = match l {
        Level::Error => "error",
        Level::Warn => "warning",
        Level::Info => return "bpm: ".to_owned(),
        Level::Debug => "debug",
        Level::Trace => "trace",
    };
    cat3("bpm: ", name, ": ")
}

/// A column is as wide as its widest cell.
pub proof fn law_columns_are_as_wide_as_their_widest_cell(
    headers: Seq<Seq<char>>,
    rows: Seq<Seq<Seq<char>>>,
    i: int,
)
    ensures
        headers[i].len() <= column_width(headers, rows, i),
        forall|r: int|
            0 <= r < rows.len() && i < (#[trigger] rows[r]).len() ==> rows[r][i].len()
                <= column_width(headers, rows, i),
        column_width(headers, rows, i) == headers[i].len() || exists|r: int|
            0 <= r < rows.len() && i < (#[trigger] rows[r]).len() && rows[r][i].len()
                == column_width(headers, rows, i),
    decreases rows.len(),
{
    if rows.len() > 0 {
        let t = rows.drop_last();
        law_columns_are_as_wide_as_their_widest_cell(headers, t, i);
        assert(forall|r: int| 0 <= r < t.len() ==> t[r] == rows[r]);
        let w = column_width(headers, t, i);
        if column_width(headers, rows, i) == w {
            if w != headers[i].len() {
                let r = choose|r: int|
                    0 <= r < t.len() && i < (#[trigger] t[r]).len() && t[r][i].len() == w;
                assert(i < rows[r].len() && rows[r][i].len() == w);
            }
        } else {
            let r = rows.len() - 1;
            assert(i < rows[r].len() && rows[r][i].len() == column_width(headers, rows, i));
        }
        assert forall|r: int| 0 <= r < rows.len() && i < (#[trigger] rows[r]).len() implies
            rows[r][i].len() <= column_width(headers, rows, i) by {
            if r < t.len() {
                assert(t[r] == rows[r]);
            }
        }
    }
}

/// A column begins at the same place in every line.
pub proof fn law_columns_line_up(
    headers: Seq<Seq<char>>,
    rows: Seq<Seq<Seq<char>>>,
    r: int,
    k: int,
)
    requires
        0 <= r < rows.len(),
        0 <= k < headers.len(),
        k <= rows[r].len(),
    ensures
        cells_upto(headers, rows, rows[r], k).len() == cells_upto(headers, rows, headers, k).len(),
    decreases k,
{
    if k > 0 {
        law_columns_line_up(headers, rows, r, k - 1);
        law_columns_are_as_wide_as_their_widest_cell(headers, rows, k - 1);
        assert(rows[r][k - 1].len() <= column_width(headers, rows, k - 1));
    }
}

} // verus!
