//! Styled terminal output: what each kind of message looks like.
//!
//! The text of every line is computed here; writing it to the terminal
//! is the caller's part.
use vstd::prelude::*;
use crate::text;
use vstd::string::StringSliceAdditionalSpecFns;

verus! {

/// Whether output uses ANSI colour codes.
#[derive(Debug)]
pub struct Output {
    supports_ansi: bool,
}

/// The number of bytes of the UTF-8 encoding of a string (`str::len`).
pub open spec fn byte_len(s: Seq<char>) -> nat {
    (vstd::utf8::encode_utf8(s).len() as usize) as nat
}

/// `text` wrapped in the ANSI colour `code` when colours are on.
pub open spec fn styled(ansi: bool, t: Seq<char>, code: Seq<char>) -> Seq<char> {
    if ansi {
        seq!['\x1b', '['] + code + seq!['m'] + t + seq!['\x1b', '[', '0', 'm']
    } else {
        t
    }
}

/// `n` copies of `c`.
pub open spec fn repeat(c: char, n: nat) -> Seq<char> {
    Seq::new(n, |i: int| c)
}

/// The widths of the columns: for each column, the largest byte length of its cells.
pub open spec fn col_width(rows: Seq<Seq<Seq<char>>>, col: int) -> nat
    decreases rows.len(),
{
    if rows.len() == 0 {
        0
    } else {
        let w = col_width(rows.drop_last(), col);
        let r = rows.last();
        if col < r.len() && byte_len(r[col]) > w {
            byte_len(r[col])
        } else {
            w
        }
    }
}

/// The number of columns: the length of the longest row.
pub open spec fn col_count(rows: Seq<Seq<Seq<char>>>) -> nat
    decreases rows.len(),
{
    if rows.len() == 0 {
        0
    } else {
        let c = col_count(rows.drop_last());
        if rows.last().len() > c {
            rows.last().len()
        } else {
            c
        }
    }
}

/// The separator line: `+` and, for each column, `w + 2` box-drawing dashes.
pub open spec fn sep_from(widths: Seq<nat>, i: int) -> Seq<char>
    decreases widths.len() - i,
{
    if i >= widths.len() {
        seq![]
    } else {
        repeat('─', widths[i] + 2) + (if i + 1 < widths.len() {
            seq!['+']
        } else {
            seq![]
        }) + sep_from(widths, i + 1)
    }
}

pub open spec fn sep_line(widths: Seq<nat>) -> Seq<char> {
    seq!['+'] + sep_from(widths, 0) + seq!['+']
}

/// A cell padded with spaces to `w` characters (`{:<w}`).
pub open spec fn pad(cell: Seq<char>, w: nat) -> Seq<char> {
    if cell.len() < w {
        cell + repeat(' ', (w - cell.len()) as nat)
    } else {
        cell
    }
}

/// The text of one row from cell `i` on.
pub open spec fn row_from(ansi: bool, row: Seq<Seq<char>>, widths: Seq<nat>, i: int) -> Seq<char>
    decreases row.len() - i,
{
    if i < 0 || i >= row.len() {
        seq![]
    } else {
        styled(ansi, seq![' '] + pad(row[i], widths[i]) + seq![' '], seq!['9', '0']) + (if i
            < widths.len() - 1 {
            styled(ansi, seq!['│'], seq!['9', '0'])
        } else {
            seq![]
        }) + row_from(ansi, row, widths, i + 1)
    }
}

pub open spec fn row_line(ansi: bool, row: Seq<Seq<char>>, widths: Seq<nat>) -> Seq<char> {
    seq![' '] + row_from(ansi, row, widths, 0) + seq![' ']
}

/// The lines of a table: a separator, the first row, a separator, the other
/// rows, and a separator.
pub open spec fn table_spec(ansi: bool, rows: Seq<Seq<Seq<char>>>) -> Seq<Seq<char>> {
    let n = col_count(rows);
    if rows.len() == 0 || n == 0 {
        seq![]
    } else {
        let widths = Seq::new(n, |c: int| col_width(rows, c));
        let sep = styled(ansi, sep_line(widths), seq!['9', '0']);
        seq![sep, row_line(ansi, rows[0], widths), sep] + Seq::new(
            (rows.len() - 1) as nat,
            |k: int| row_line(ansi, rows[k + 1], widths),
        ) + seq![sep]
    }
}

pub open spec fn row_views(rows: Seq<Vec<String>>) -> Seq<Seq<Seq<char>>> {
    rows.map_values(|r: Vec<String>| text::str_views(r@))
}

/// Appends `n` copies of `c`.
fn push_repeat(s: &mut String, c: char, n: usize)
    ensures
        final(s)@ == old(s)@ + repeat(c, n as nat),
{
    let mut i: usize = 0;
    while i < n
        invariant
            i <= n,
            s@ == old(s)@ + repeat(c, i as nat),
        decreases n - i,
    {
        text::push_char(s, c);
        proof {
            assert(old(s)@ + repeat(c, (i + 1) as nat) =~= (old(s)@ + repeat(c, i as nat)).push(c));
        }
        i += 1;
    }
}

/// The byte length of a string.
fn len_of(s: &String) -> (n: usize)
    ensures
        n == byte_len(s@),
{
    let st: &str = s.as_str();
    let n = st.len();
    proof {
        assert(st@ == s@);
    }
    n
}

impl Output {
    /// An output that uses colours when `supports_ansi` holds (whether the
    /// terminal takes them is for the caller to find out).
    pub fn new(supports_ansi: bool) -> (r: Output)
        ensures
            r.ansi() == supports_ansi,
    {
        Output { supports_ansi }
    }

    pub closed spec fn ansi(&self) -> bool {
        self.supports_ansi
    }

    pub fn supports_ansi(&self) -> (r: bool)
        ensures
            r == self.ansi(),
    {
        self.supports_ansi
    }

    pub fn style(&self, t: &str, code: &str) -> (r: String)
        ensures
            r@ == styled(self.ansi(), t@, code@),
    {
        if self.supports_ansi {
            let mut r = text::owned("\x1b[");
            r.append(code);
            r.append("m");
            r.append(t);
            r.append("\x1b[0m");
            proof {
                reveal_strlit("\x1b[");
                reveal_strlit("m");
                reveal_strlit("\x1b[0m");
                assert(r@ =~= styled(self.ansi(), t@, code@));
            }
            r
        } else {
            text::owned(t)
        }
    }

    /// `"  <icon> text"` with the icon in the given colour.
    fn status_line(&self, icon: &str, code: &str, t: &str) -> (r: String)
        ensures
            r@ == seq![' ', ' '] + styled(self.ansi(), icon@, code@) + seq![' '] + t@,
    {
        let st = self.style(icon, code);
        let mut r = text::owned("  ");
        r.append(st.as_str());
        r.append(" ");
        r.append(t);
        proof {
            reveal_strlit("  ");
            reveal_strlit(" ");
            assert(r@ =~= seq![' ', ' '] + styled(self.ansi(), icon@, code@) + seq![' '] + t@);
        }
        r
    }

    /// The line that an info message prints.
    pub fn info_line(&self, t: &str) -> (r: String)
        ensures
            r@ == seq![' ', ' '] + styled(self.ansi(), seq!['ℹ'], seq!['3', '4']) + seq![' ']
                + t@,
    {
        proof {
            reveal_strlit("ℹ");
            reveal_strlit("34");
        }
        self.status_line("ℹ", "34", t)
    }

    /// The line that a success message prints.
    pub fn success_line(&self, t: &str) -> (r: String)
        ensures
            r@ == seq![' ', ' '] + styled(self.ansi(), seq!['✔'], seq!['3', '2']) + seq![' ']
                + t@,
    {
        proof {
            reveal_strlit("✔");
            reveal_strlit("32");
        }
        self.status_line("✔", "32", t)
    }

    /// The line that a warning prints.
    pub fn warn_line(&self, t: &str) -> (r: String)
        ensures
            r@ == seq![' ', ' '] + styled(self.ansi(), seq!['⚠'], seq!['3', '3']) + seq![' ']
                + t@,
    {
        proof {
            reveal_strlit("⚠");
            reveal_strlit("33");
        }
        self.status_line("⚠", "33", t)
    }

    /// The line that an error message prints (to standard error).
    pub fn error_line(&self, t: &str) -> (r: String)
        ensures
            r@ == seq![' ', ' '] + styled(self.ansi(), seq!['✘'], seq!['3', '1']) + seq![' ']
                + t@,
    {
        proof {
            reveal_strlit("✘");
            reveal_strlit("31");
        }
        self.status_line("✘", "31", t)
    }

    /// The line that a comment prints.
    pub fn comment_line(&self, t: &str) -> (r: String)
        ensures
            r@ == seq![' ', ' '] + styled(self.ansi(), t@, seq!['9', '0']),
    {
        let st = self.style(t, "90");
        proof {
            reveal_strlit("90");
            reveal_strlit("  ");
        }
        text::cat("  ", st.as_str())
    }

    /// The three lines of a title: a rule, the text, a rule.
    pub fn title_lines(&self, t: &str) -> (r: Vec<String>)
        ensures
            r@.len() == 3,
            r@[0]@ == seq!['\n', ' '] + styled(
                self.ansi(),
                repeat('─', byte_len(t@) + 4),
                seq!['3', '6'],
            ) + seq![' '],
            r@[1]@ == seq![' ', ' '] + styled(self.ansi(), t@, seq!['3', '6', ';', '1']) + seq![
                ' ',
                ' ',
            ],
            r@[2]@ == seq![' '] + styled(self.ansi(), repeat('─', byte_len(t@) + 4), seq!['3', '6'])
                + seq![' '],
    {
        let mut rule = String::new();
        push_repeat(&mut rule, '─', t.len());
        push_repeat(&mut rule, '─', 4);
        proof {
            assert(repeat('─', byte_len(t@)) + repeat('─', 4) =~= repeat('─', byte_len(t@) + 4));
            assert(Seq::<char>::empty() + repeat('─', byte_len(t@)) =~= repeat('─', byte_len(t@)));
        }
        let r1 = self.style(rule.as_str(), "36");
        let r2 = self.style(t, "36;1");
        let l0 = text::cat3("\n ", r1.as_str(), " ");
        let l1 = text::cat3("  ", r2.as_str(), "  ");
        let l2 = text::cat3(" ", r1.as_str(), " ");
        proof {
            reveal_strlit("\n ");
            reveal_strlit(" ");
            reveal_strlit("  ");
            reveal_strlit("36");
            reveal_strlit("36;1");
        }
        let mut r: Vec<String> = Vec::new();
        r.push(l0);
        r.push(l1);
        r.push(l2);
        r
    }
}


pub open spec fn nat_views(v: Seq<usize>) -> Seq<nat> {
    v.map_values(|w: usize| w as nat)
}

/// The separator line of a table with these column widths.
fn sep_text(widths: &Vec<usize>) -> (r: String)
    ensures
        r@ == sep_line(nat_views(widths@)),
{
    let ghost ws = nat_views(widths@);
    let mut acc = String::new();
    text::push_char(&mut acc, '+');
    let mut i: usize = 0;
    proof {
        assert(acc@ + sep_from(ws, 0) =~= seq!['+'] + sep_from(ws, 0));
    }
    while i < widths.len()
        invariant
            ws == nat_views(widths@),
            i <= widths@.len(),
            acc@ + sep_from(ws, i as int) == seq!['+'] + sep_from(ws, 0),
        decreases widths.len() - i,
    {
        let ghost before = acc@;
        push_repeat(&mut acc, '─', widths[i]);
        push_repeat(&mut acc, '─', 2);
        if i + 1 < widths.len() {
            text::push_char(&mut acc, '+');
        }
        proof {
            assert(repeat('─', widths@[i as int] as nat) + repeat('─', 2) =~= repeat(
                '─',
                ws[i as int] + 2,
            ));
            assert(acc@ + sep_from(ws, i + 1) =~= before + sep_from(ws, i as int));
        }
        i += 1;
    }
    text::push_char(&mut acc, '+');
    proof {
        assert(acc@ =~= sep_line(ws));
    }
    acc
}

/// A cell padded to `w` characters.
fn pad_cell(cell: &String, w: usize) -> (r: String)
    ensures
        r@ == pad(cell@, w as nat),
{
    let mut r = text::owned(cell.as_str());
    let n = cell.as_str().unicode_len();
    if n < w {
        push_repeat(&mut r, ' ', w - n);
    }
    r
}

impl Output {
    /// The text of one table row.
    fn row_text(&self, row: &Vec<String>, widths: &Vec<usize>) -> (r: String)
        requires
            row@.len() <= widths@.len(),
        ensures
            r@ == row_line(self.ansi(), text::str_views(row@), nat_views(widths@)),
    {
        let ghost ws = nat_views(widths@);
        let ghost rv = text::str_views(row@);
        let mut acc = String::new();
        text::push_char(&mut acc, ' ');
        let mut i: usize = 0;
        proof {
            assert(acc@ + row_from(self.ansi(), rv, ws, 0) =~= seq![' '] + row_from(
                self.ansi(),
                rv,
                ws,
                0,
            ));
        }
        while i < row.len()
            invariant
                ws == nat_views(widths@),
                rv == text::str_views(row@),
                row@.len() <= widths@.len(),
                i <= row@.len(),
                acc@ + row_from(self.ansi(), rv, ws, i as int) == seq![' '] + row_from(
                    self.ansi(),
                    rv,
                    ws,
                    0,
                ),
            decreases row.len() - i,
        {
            let ghost before = acc@;
            let padded = pad_cell(&row[i], widths[i]);
            let cell = text::cat3(" ", padded.as_str(), " ");
            let st = self.style(cell.as_str(), "90");
            acc.append(st.as_str());
            if i < widths.len() - 1 {
                let bar = self.style("│", "90");
                acc.append(bar.as_str());
            }
            proof {
                reveal_strlit(" ");
                reveal_strlit("90");
                reveal_strlit("│");
                assert(rv[i as int] == row@[i as int]@);
                assert(acc@ + row_from(self.ansi(), rv, ws, i + 1) =~= before + row_from(
                    self.ansi(),
                    rv,
                    ws,
                    i as int,
                ));
            }
            i += 1;
        }
        text::push_char(&mut acc, ' ');
        proof {
            assert(acc@ =~= row_line(self.ansi(), rv, ws));
        }
        acc
    }

    /// The lines of a table whose first row is a header.
    pub fn table_lines(&self, rows: Vec<Vec<String>>) -> (r: Vec<String>)
        ensures
            text::str_views(r@) == table_spec(self.ansi(), row_views(rows@)),
    {
        let ghost rs = row_views(rows@);
        let mut out: Vec<String> = Vec::new();
        if rows.len() == 0 {
            proof {
                assert(text::str_views(out@) =~= table_spec(self.ansi(), rs));
            }
            return out;
        }
        let mut n: usize = 0;
        let mut k: usize = 0;
        while k < rows.len()
            invariant
                rs == row_views(rows@),
                k <= rows@.len(),
                n == col_count(rs.take(k as int)),
            decreases rows.len() - k,
        {
            proof {
                assert(rs.take(k + 1).drop_last() =~= rs.take(k as int));
                assert(rs.take(k + 1).last() == rs[k as int]);
                assert(rs[k as int].len() == rows@[k as int]@.len());
            }
            if rows[k].len() > n {
                n = rows[k].len();
            }
            k += 1;
        }
        proof {
            assert(rs.take(rows@.len() as int) =~= rs);
        }
        if n == 0 {
            proof {
                assert(text::str_views(out@) =~= table_spec(self.ansi(), rs));
            }
            return out;
        }
        let mut widths: Vec<usize> = Vec::new();
        let mut c: usize = 0;
        while c < n
            invariant
                rs == row_views(rows@),
                n == col_count(rs),
                c <= n,
                widths@.len() == c,
                forall|j: int| 0 <= j < c ==> (#[trigger] widths@[j]) as nat == col_width(rs, j),
            decreases n - c,
        {
            let mut w: usize = 0;
            let mut k2: usize = 0;
            while k2 < rows.len()
                invariant
                    rs == row_views(rows@),
                    k2 <= rows@.len(),
                    w as nat == col_width(rs.take(k2 as int), c as int),
                decreases rows.len() - k2,
            {
                proof {
                    assert(rs.take(k2 + 1).drop_last() =~= rs.take(k2 as int));
                    assert(rs.take(k2 + 1).last() == rs[k2 as int]);
                    assert(rs[k2 as int] == text::str_views(rows@[k2 as int]@));
                }
                if c < rows[k2].len() {
                    let l = len_of(&rows[k2][c]);
                    proof {
                        assert(rs[k2 as int][c as int] == rows@[k2 as int]@[c as int]@);
                    }
                    if l > w {
                        w = l;
                    }
                }
                k2 += 1;
            }
            proof {
                assert(rs.take(rows@.len() as int) =~= rs);
            }
            widths.push(w);
            c += 1;
        }
        let ghost ws = Seq::new(n as nat, |j: int| col_width(rs, j));
        proof {
            assert(nat_views(widths@) =~= ws);
        }
        let sep = sep_text(&widths);
        let sep_st = self.style(sep.as_str(), "90");
        proof {
            reveal_strlit("90");
        }
        proof {
            assert(rows@[0]@.len() <= col_count(rs)) by {
                lemma_col_count_bound(rs, 0);
            }
            assert(rs[0] == text::str_views(rows@[0]@));
        }
        let first = self.row_text(&rows[0], &widths);
        out.push(text::owned(sep_st.as_str()));
        out.push(first);
        out.push(text::owned(sep_st.as_str()));
        let ghost head = seq![sep_st@, row_line(self.ansi(), rs[0], ws), sep_st@];
        proof {
            assert(text::str_views(out@) =~= head);
        }
        let mut k3: usize = 1;
        while k3 < rows.len()
            invariant
                rs == row_views(rows@),
                n == col_count(rs),
                nat_views(widths@) == ws,
                widths@.len() == n,
                1 <= k3 <= rows@.len(),
                text::str_views(out@) == head + Seq::new(
                    (k3 - 1) as nat,
                    |j: int| row_line(self.ansi(), rs[j + 1], ws),
                ),
            decreases rows.len() - k3,
        {
            proof {
                assert(rows@[k3 as int]@.len() <= col_count(rs)) by {
                    lemma_col_count_bound(rs, k3 as int);
                }
                assert(rs[k3 as int] == text::str_views(rows@[k3 as int]@));
            }
            let line = self.row_text(&rows[k3], &widths);
            let ghost before = text::str_views(out@);
            out.push(line);
            proof {
                assert(text::str_views(out@) =~= before.push(line@));
                assert(line@ == row_line(self.ansi(), rs[k3 as int], ws));
                assert(text::str_views(out@) =~= head + Seq::new(
                    k3 as nat,
                    |j: int| row_line(self.ansi(), rs[j + 1], ws),
                ));
            }
            k3 += 1;
        }
        let ghost before = text::str_views(out@);
        out.push(text::owned(sep_st.as_str()));
        proof {
            assert(text::str_views(out@) =~= before.push(sep_st@));
            assert(rs.len() > 0);
            assert(col_count(rs) != 0);
            let widths2 = Seq::new(col_count(rs), |c: int| col_width(rs, c));
            assert(widths2 =~= ws);
            assert(sep_st@ == styled(self.ansi(), sep_line(widths2), seq!['9', '0']));
            assert(Seq::new(
                (rows@.len() - 1) as nat,
                |j: int| row_line(self.ansi(), rs[j + 1], ws),
            ) =~= Seq::new((rs.len() - 1) as nat, |k: int| row_line(self.ansi(), rs[k + 1], widths2)));
            assert(text::str_views(out@) =~= table_spec(self.ansi(), rs));
        }
        out
    }
}


/// Where a line goes.
#[derive(Debug, Clone, Copy, PartialEq, Eq, Structural)]
pub enum Stream {
    Stdout,
    Stderr,
}

/// Whether the output of a process uses colours: the terminal takes them, and
/// neither `CI` nor `NO_COLOR` is set, and the environment is not testing.
pub open spec fn colours_on(supports_ansi: bool, ci: bool, no_color: bool, testing: bool) -> bool {
    supports_ansi && !(ci || no_color || testing)
}

impl Output {
    /// The output configured from the environment: `supports_ansi` is what the
    /// terminal takes, `ci` and `no_color` whether those variables are set.
    pub fn from_env(supports_ansi: bool, ci: bool, no_color: bool, env: &crate::env::Environment) -> (r: Output)
        ensures
            r.ansi() == colours_on(supports_ansi, ci, no_color, env@ is Testing),
    {
        let force_plain = ci || no_color || env.is_testing();
        Output { supports_ansi: supports_ansi && !force_plain }
    }

    /// The line a listed item prints: `  • item`.
    pub fn listing_line(&self, item: &str) -> (r: String)
        ensures
            r@ == seq![' ', ' '] + styled(self.ansi(), seq!['•'], seq!['3', '3']) + seq![' ']
                + item@,
    {
        proof {
            reveal_strlit("•");
            reveal_strlit("33");
        }
        self.status_line("•", "33", item)
    }

    /// What a task prints before it runs: `  ➤ description ... `.
    pub fn task_start(&self, description: &str) -> (r: String)
        ensures
            r@ == seq![' ', ' '] + styled(self.ansi(), seq!['➤'], seq!['3', '6']) + seq![' ']
                + description@ + seq![' ', '.', '.', '.', ' '],
    {
        proof {
            reveal_strlit("➤");
            reveal_strlit("36");
            reveal_strlit(" ... ");
        }
        let l = self.status_line("➤", "36", description);
        text::cat(l.as_str(), " ... ")
    }

    /// What a task prints once it has run, from its outcome.
    pub fn task_end(&self, outcome: &Result<String, String>) -> (r: String)
        ensures
            r@ == match outcome {
                Ok(msg) => styled(self.ansi(), seq!['✔'], seq!['3', '2']) + seq![' '] + styled(
                    self.ansi(),
                    msg@,
                    seq!['9', '0'],
                ),
                Err(e) => styled(self.ansi(), seq!['✘'], seq!['3', '1']) + seq![' '] + e@,
            },
    {
        proof {
            reveal_strlit("✔");
            reveal_strlit("32");
            reveal_strlit("✘");
            reveal_strlit("31");
            reveal_strlit("90");
            reveal_strlit(" ");
        }
        match outcome {
            Ok(msg) => {
                let a = self.style("✔", "32");
                let b = self.style(msg.as_str(), "90");
                text::cat3(a.as_str(), " ", b.as_str())
            },
            Err(e) => {
                let a = self.style("✘", "31");
                text::cat3(a.as_str(), " ", e.as_str())
            },
        }
    }

    pub fn spinner(&self) -> (r: Spinner)
        ensures
            r.animated() == self.ansi(),
            r.message_view() == Seq::<char>::empty(),
    {
        Spinner::new(self.supports_ansi)
    }

    pub fn progress_bar(&self, total: u64) -> (r: ProgressBar)
        ensures
            r.total_value() == total,
            r.current_value() == 0,
            r.animated() == self.ansi(),
    {
        ProgressBar::new(total, self.supports_ansi)
    }
}

// ───────────────────────── spinner ─────────────────────────

/// The frames of the spinner.
pub open spec fn spinner_frames() -> Seq<Seq<char>> {
    seq!["⠋"@, "⠙"@, "⠹"@, "⠸"@, "⠼"@, "⠴"@, "⠦"@, "⠧"@, "⠇"@, "⠏"@]
}

/// A spinner: a message, and frames that turn before it while colours are on.
#[derive(Debug)]
pub struct Spinner {
    frames: Vec<&'static str>,
    message: String,
    supports_ansi: bool,
}

impl Spinner {
    pub closed spec fn animated(&self) -> bool {
        self.supports_ansi
    }

    pub closed spec fn message_view(&self) -> Seq<char> {
        self.message@
    }

    pub closed spec fn wf(&self) -> bool {
        str_views_static(self.frames@) == spinner_frames()
    }

    fn new(supports_ansi: bool) -> (r: Spinner)
        ensures
            r.animated() == supports_ansi,
            r.message_view() == Seq::<char>::empty(),
            r.wf(),
    {
        let frames = vec!["⠋", "⠙", "⠹", "⠸", "⠼", "⠴", "⠦", "⠧", "⠇", "⠏"];
        proof {
            assert(str_views_static(frames@) =~= spinner_frames());
        }
        Spinner { frames, message: String::new(), supports_ansi }
    }

    /// Whether the frames turn (colours on); otherwise the message is printed once.
    pub fn is_animated(&self) -> (r: bool)
        ensures
            r == self.animated(),
    {
        self.supports_ansi
    }

    /// Starts the spinner with a message. Without colours it gives the text to
    /// print at once, `  message ... `; with colours nothing, and the caller turns
    /// the frames.
    pub fn start(&mut self, message: &str) -> (r: Option<String>)
        ensures
            final(self).message_view() == message@,
            final(self).animated() == old(self).animated(),
            old(self).wf() ==> final(self).wf(),
            match r {
                Some(t) => !old(self).animated() && t@ == seq![' ', ' '] + message@ + seq![' ', '.', '.', '.', ' '],
                None => old(self).animated(),
            },
    {
        self.message = text::owned(message);
        if !self.supports_ansi {
            proof {
                reveal_strlit("  ");
                reveal_strlit(" ... ");
            }
            Some(text::cat3("  ", message, " ... "))
        } else {
            None
        }
    }

    /// The `i`-th frame of the animation: `\r  frame message`, the frames turning
    /// round.
    pub fn frame_text(&self, i: usize) -> (r: String)
        requires
            self.wf(),
        ensures
            r@ == seq!['\r', ' ', ' '] + spinner_frames()[(i % 10) as int] + seq![' '] + self.message_view(),
    {
        proof {
            assert(str_views_static(self.frames@).len() == self.frames@.len());
            assert(self.frames@.len() == 10);
        }
        let f = self.frames[i % self.frames.len()];
        proof {
            assert(str_views_static(self.frames@)[(i % 10) as int] == f@);
            reveal_strlit("\r  ");
            reveal_strlit(" ");
            assert(f@ == spinner_frames()[(i % 10) as int]);
        }
        let a = text::cat("\r  ", f);
        text::cat3(a.as_str(), " ", self.message.as_str())
    }

    /// The line that ends the spinner with success.
    pub fn ok_text(&self, message: &str) -> (r: String)
        ensures
            r@ == if self.animated() {
                seq!['\r', ' ', ' '] + seq!['\x1b', '[', '3', '2', 'm', '✔', '\x1b', '[', '0', 'm', ' ']
                    + self.message_view() + seq![' ', '\x1b', '[', '9', '0', 'm'] + message@ + seq![
                    '\x1b',
                    '[',
                    '0',
                    'm',
                ]
            } else {
                message@
            },
    {
        if !self.supports_ansi {
            return text::owned(message);
        }
        proof {
            reveal_strlit("\r  \x1b[32m✔\x1b[0m ");
            reveal_strlit(" \x1b[90m");
            reveal_strlit("\x1b[0m");
        }
        let a = text::cat("\r  \x1b[32m✔\x1b[0m ", self.message.as_str());
        let b = text::cat3(a.as_str(), " \x1b[90m", message);
        let r = text::cat(b.as_str(), "\x1b[0m");
        proof {
            assert(r@ =~= seq!['\r', ' ', ' '] + seq!['\x1b', '[', '3', '2', 'm', '✔', '\x1b', '[', '0', 'm', ' ']
                + self.message_view() + seq![' ', '\x1b', '[', '9', '0', 'm'] + message@ + seq![
                '\x1b',
                '[',
                '0',
                'm',
            ]);
        }
        r
    }

    /// The line that ends the spinner with a failure (to standard error).
    pub fn fail_text(&self, message: &str) -> (r: String)
        ensures
            r@ == if self.animated() {
                seq!['\r', ' ', ' '] + seq!['\x1b', '[', '3', '1', 'm', '✘', '\x1b', '[', '0', 'm', ' ']
                    + self.message_view() + seq![' ', '\x1b', '[', '9', '0', 'm'] + message@ + seq![
                    '\x1b',
                    '[',
                    '0',
                    'm',
                ]
            } else {
                "FAILED: "@ + message@
            },
    {
        if !self.supports_ansi {
            return text::cat("FAILED: ", message);
        }
        proof {
            reveal_strlit("\r  \x1b[31m✘\x1b[0m ");
            reveal_strlit(" \x1b[90m");
            reveal_strlit("\x1b[0m");
        }
        let a = text::cat("\r  \x1b[31m✘\x1b[0m ", self.message.as_str());
        let b = text::cat3(a.as_str(), " \x1b[90m", message);
        let r = text::cat(b.as_str(), "\x1b[0m");
        proof {
            assert(r@ =~= seq!['\r', ' ', ' '] + seq!['\x1b', '[', '3', '1', 'm', '✘', '\x1b', '[', '0', 'm', ' ']
                + self.message_view() + seq![' ', '\x1b', '[', '9', '0', 'm'] + message@ + seq![
                '\x1b',
                '[',
                '0',
                'm',
            ]);
        }
        r
    }
}

pub open spec fn str_views_static(v: Seq<&'static str>) -> Seq<Seq<char>> {
    v.map_values(|s: &'static str| s@)
}

// ───────────────────────── progress bar ─────────────────────────

/// A progress bar: how far of how much, and when it started.
#[derive(Debug)]
pub struct ProgressBar {
    total: u64,
    current: u64,
    start: std::time::Instant,
    supports_ansi: bool,
}

/// `s` repeated `n` times.
pub open spec fn repeat_str(s: Seq<char>, n: nat) -> Seq<char>
    decreases n,
{
    if n == 0 {
        seq![]
    } else {
        repeat_str(s, (n - 1) as nat) + s
    }
}

/// `n` in decimal, right-aligned in five columns.
pub open spec fn right5(n: u64) -> Seq<char> {
    let d = text::decimal(n as nat);
    if d.len() < 5 {
        repeat(' ', (5 - d.len()) as nat) + d
    } else {
        d
    }
}

/// The text of a bar: `filled` full cells and the rest of thirty empty, the
/// percentage, the count and the seconds elapsed.
pub open spec fn bar_text(pct: u32, filled: nat, current: u64, total: u64, secs: u64) -> Seq<char> {
    let empty: nat = if filled < 30 { (30 - filled) as nat } else { 0 };
    "\r  \x1b[34m▐\x1b[0m ["@ + repeat_str("\x1b[34m█\x1b[0m"@, filled) + repeat_str(
        "\x1b[90m░\x1b[0m"@,
        empty,
    ) + "] "@ + text::decimal(pct as nat) + "% ("@ + text::decimal(current as nat) + seq!['/']
        + text::decimal(total as nat) + seq![')', ' '] + right5(secs) + seq!['s']
}

fn push_str_times(r: &mut String, s: &str, n: usize)
    ensures
        final(r)@ == old(r)@ + repeat_str(s@, n as nat),
{
    let mut i: usize = 0;
    while i < n
        invariant
            i <= n,
            r@ == old(r)@ + repeat_str(s@, i as nat),
        decreases n - i,
    {
        r.append(s);
        proof {
            assert(old(r)@ + repeat_str(s@, i as nat) + s@ =~= old(r)@ + repeat_str(s@, (i + 1) as nat));
        }
        i += 1;
    }
}

impl ProgressBar {
    pub closed spec fn total_value(&self) -> u64 {
        self.total
    }

    pub closed spec fn current_value(&self) -> u64 {
        self.current
    }

    pub closed spec fn animated(&self) -> bool {
        self.supports_ansi
    }

    /// The clock reading taken when the bar was made.
    pub closed spec fn start_view(&self) -> std::time::Instant {
        self.start
    }

    fn new(total: u64, supports_ansi: bool) -> (r: ProgressBar)
        ensures
            r.total_value() == total,
            r.current_value() == 0,
            r.animated() == supports_ansi,
    {
        ProgressBar { total, current: 0, start: crate::application::instant_now(), supports_ansi }
    }

    /// Moves the bar on by `n`.
    pub fn advance(&mut self, n: u64)
        requires
            old(self).current_value() + n <= u64::MAX,
        ensures
            final(self).current_value() == old(self).current_value() + n,
            final(self).total_value() == old(self).total_value(),
            final(self).animated() == old(self).animated(),
            final(self).start_view() == old(self).start_view(),
    {
        self.current = self.current + n;
    }

    /// Sets the bar to `n`.
    pub fn set(&mut self, n: u64)
        ensures
            final(self).current_value() == n,
            final(self).total_value() == old(self).total_value(),
            final(self).animated() == old(self).animated(),
            final(self).start_view() == old(self).start_view(),
    {
        self.current = n;
    }

    pub fn current(&self) -> (r: u64)
        ensures
            r == self.current_value(),
    {
        self.current
    }

    pub fn total(&self) -> (r: u64)
        ensures
            r == self.total_value(),
    {
        self.total
    }

    /// When the bar started.
    pub fn started(&self) -> (r: std::time::Instant)
        ensures
            r == self.start_view(),
    {
        self.start
    }

    /// What the bar shows, given its percentage, its filled cells and the
    /// seconds since it started; nothing without colours.
    pub fn bar_line(&self, pct: u32, filled: usize, secs: u64) -> (r: Option<String>)
        ensures
            match r {
                Some(t) => self.animated() && t@ == bar_text(
                    pct,
                    filled as nat,
                    self.current_value(),
                    self.total_value(),
                    secs,
                ),
                None => !self.animated(),
            },
    {
        if !self.supports_ansi {
            return None;
        }
        let empty: usize = if filled < 30 {
            30 - filled
        } else {
            0
        };
        let mut r = text::owned("\r  \x1b[34m▐\x1b[0m [");
        push_str_times(&mut r, "\x1b[34m█\x1b[0m", filled);
        push_str_times(&mut r, "\x1b[90m░\x1b[0m", empty);
        r.append("] ");
        let p = text::u64_to_string(pct as u64);
        r.append(p.as_str());
        r.append("% (");
        let c = text::u64_to_string(self.current);
        r.append(c.as_str());
        r.append("/");
        let t = text::u64_to_string(self.total);
        r.append(t.as_str());
        r.append(") ");
        let e = text::u64_to_string(secs);
        let el = text::chars_of(e.as_str());
        if el.len() < 5 {
            push_repeat(&mut r, ' ', 5 - el.len());
        }
        r.append(e.as_str());
        r.append("s");
        proof {
            reveal_strlit("/");
            reveal_strlit(") ");
            reveal_strlit("s");
            assert(r@ =~= bar_text(pct, filled as nat, self.current_value(), self.total_value(), secs));
        }
        Some(r)
    }
}

// ───────────────────────── log channel ─────────────────────────

/// The severity of a log entry, from the most to the least severe.
#[derive(Debug, Clone, Copy, PartialEq, Eq, Structural)]
pub enum Level {
    Emergency,
    Alert,
    Critical,
    Error,
    Warning,
    Notice,
    Info,
    Debug,
}

/// The rank of a level: the more severe, the lower.
pub open spec fn level_rank(l: Level) -> int {
    match l {
        Level::Emergency => 0,
        Level::Alert => 1,
        Level::Critical => 2,
        Level::Error => 3,
        Level::Warning => 4,
        Level::Notice => 5,
        Level::Info => 6,
        Level::Debug => 7,
    }
}

fn rank(l: Level) -> (r: u8)
    ensures
        r == level_rank(l),
{
    match l {
        Level::Emergency => 0,
        Level::Alert => 1,
        Level::Critical => 2,
        Level::Error => 3,
        Level::Warning => 4,
        Level::Notice => 5,
        Level::Info => 6,
        Level::Debug => 7,
    }
}

/// A log entry.
#[derive(Debug)]
pub struct LogEntry {
    pub level: Level,
    pub message: String,
}

/// A log channel that shows entries through the styled output.
#[derive(Debug)]
pub struct Log<'a> {
    output: &'a Output,
    min_level: Level,
}

/// The line an entry at `level` is shown as, and where it goes.
pub open spec fn log_line(ansi: bool, level: Level, message: Seq<char>) -> (Stream, Seq<char>) {
    match level {
        Level::Emergency | Level::Alert | Level::Critical | Level::Error => (
            Stream::Stderr,
            seq![' ', ' '] + styled(ansi, seq!['✘'], seq!['3', '1']) + seq![' '] + message,
        ),
        Level::Warning => (
            Stream::Stdout,
            seq![' ', ' '] + styled(ansi, seq!['⚠'], seq!['3', '3']) + seq![' '] + message,
        ),
        Level::Notice | Level::Info => (
            Stream::Stdout,
            seq![' ', ' '] + styled(ansi, seq!['ℹ'], seq!['3', '4']) + seq![' '] + message,
        ),
        Level::Debug => (Stream::Stdout, seq![' ', ' '] + styled(ansi, message, seq!['9', '0'])),
    }
}

impl<'a> Log<'a> {
    pub fn new(output: &'a Output, min_level: Level) -> (r: Log<'a>)
        ensures
            r.min() == min_level,
            r.out() == *output,
    {
        Log { output, min_level }
    }

    pub closed spec fn min(&self) -> Level {
        self.min_level
    }

    pub closed spec fn out(&self) -> Output {
        *self.output
    }

    pub fn name(&self) -> (r: &'static str)
        ensures
            r@ == "output"@,
    {
        "output"
    }

    /// Whether entries at `level` are shown: those at least as severe as the
    /// channel's least level.
    pub fn is_enabled_for(&self, level: Level) -> (r: bool)
        ensures
            r == (level_rank(level) <= level_rank(self.min())),
    {
        rank(level) <= rank(self.min_level)
    }

    /// What showing an entry prints, and where; nothing for an entry below the
    /// channel's level.
    pub fn write(&self, entry: &LogEntry) -> (r: Option<(Stream, String)>)
        ensures
            match r {
                Some((to, t)) => level_rank(entry.level) <= level_rank(self.min()) && (to, t@)
                    == log_line(self.out().ansi(), entry.level, entry.message@),
                None => level_rank(entry.level) > level_rank(self.min()),
            },
    {
        if !self.is_enabled_for(entry.level) {
            return None;
        }
        let m = entry.message.as_str();
        match entry.level {
            Level::Emergency | Level::Alert | Level::Critical | Level::Error => Some(
                (Stream::Stderr, self.output.error_line(m)),
            ),
            Level::Warning => Some((Stream::Stdout, self.output.warn_line(m))),
            Level::Notice | Level::Info => Some((Stream::Stdout, self.output.info_line(m))),
            Level::Debug => Some((Stream::Stdout, self.output.comment_line(m))),
        }
    }
}

proof fn lemma_col_count_bound(rows: Seq<Seq<Seq<char>>>, k: int)
    requires
        0 <= k < rows.len(),
    ensures
        rows[k].len() <= col_count(rows),
    decreases rows.len(),
{
    if k < rows.len() - 1 {
        lemma_col_count_bound(rows.drop_last(), k);
    }
}
} // verus!
