//! The command line's view of domains: what each allows, the imports that cross
//! their boundaries, and the reports of `check --arch` and `inspect --domains`.
use vstd::prelude::*;
use crate::text;
use crate::cli::exit::ExitCode;
use crate::cli::input::{Input, dashes};

verus! {

/// A message for the terminal, by how it is shown.
#[derive(Debug, Clone)]
pub enum Say {
    Title(String),
    Info(String),
    Line(String),
    Success(String),
    Error(String),
}

/// What a message is.
pub ghost enum SayView {
    Title(Seq<char>),
    Info(Seq<char>),
    Line(Seq<char>),
    Success(Seq<char>),
    Error(Seq<char>),
}

impl View for Say {
    type V = SayView;

    open spec fn view(&self) -> SayView {
        match self {
            Say::Title(s) => SayView::Title(s@),
            Say::Info(s) => SayView::Info(s@),
            Say::Line(s) => SayView::Line(s@),
            Say::Success(s) => SayView::Success(s@),
            Say::Error(s) => SayView::Error(s@),
        }
    }
}

pub open spec fn say_views(v: Seq<Say>) -> Seq<SayView> {
    v.map_values(|s: Say| s@)
}

fn push_say(out: &mut Vec<Say>, s: Say)
    ensures
        say_views(final(out)@) == say_views(old(out)@).push(s@),
{
    proof {
        assert(say_views(out@.push(s)) =~= say_views(out@).push(s@));
    }
    out.push(s);
}

// ───────────────────────── allows lists ─────────────────────────

/// The last position of `c` in `s[..i]`.
pub open spec fn last_pos(s: Seq<char>, c: char, i: int) -> Option<int>
    decreases i,
{
    if i <= 0 {
        None
    } else if s[i - 1] == c {
        Some(i - 1)
    } else {
        last_pos(s, c, i - 1)
    }
}

/// An item of an allows list: trimmed, its quotes cut, trimmed again.
pub open spec fn clean_item(item: Seq<char>) -> Seq<char> {
    text::trim(text::trim_end_matches(text::trim_start_matches(text::trim(item), seq!['"']), seq!['"']))
}

/// The non-empty cleaned items among comma-separated pieces.
pub open spec fn list_items(pieces: Seq<Seq<char>>) -> Seq<Seq<char>>
    decreases pieces.len(),
{
    if pieces.len() == 0 {
        Seq::empty()
    } else {
        let rest = list_items(pieces.drop_last());
        let c = clean_item(pieces.last());
        if c.len() > 0 {
            rest.push(c)
        } else {
            rest
        }
    }
}

/// The domains a trimmed line of `domain.rs` allows: for a line that starts with
/// `.allows(&`, the items between its first `[` and its last `]`.
pub open spec fn line_allows(t: Seq<char>) -> Seq<Seq<char>> {
    if text::starts_with(t, ".allows(&"@) {
        let start = match text::find_spec(t, '[') {
            Some(k) => k,
            None => t.len() as int,
        };
        let end = match last_pos(t, ']', t.len() as int) {
            Some(k) => k,
            None => 0,
        };
        if start < end {
            list_items(text::split_char(t.subrange(start + 1, end), ','))
        } else {
            Seq::empty()
        }
    } else {
        Seq::empty()
    }
}

/// The domains a `domain.rs` allows, line by line.
pub open spec fn allows_of(lines: Seq<Seq<char>>) -> Seq<Seq<char>>
    decreases lines.len(),
{
    if lines.len() == 0 {
        Seq::empty()
    } else {
        allows_of(lines.drop_last()) + line_allows(text::trim(lines.last()))
    }
}

fn last_pos_exec(s: &[char], c: char) -> (r: Option<usize>)
    ensures
        match r {
            Some(k) => last_pos(s@, c, s@.len() as int) == Some(k as int) && k < s@.len(),
            None => last_pos(s@, c, s@.len() as int) is None,
        },
{
    let mut i: usize = s.len();
    while i > 0
        invariant
            i <= s@.len(),
            last_pos(s@, c, s@.len() as int) == last_pos(s@, c, i as int),
        decreases i,
    {
        if s[i - 1] == c {
            return Some(i - 1);
        }
        i -= 1;
    }
    None
}

fn push_strings(out: &mut Vec<String>, items: Vec<String>)
    ensures
        text::str_views(final(out)@) == text::str_views(old(out)@) + text::str_views(items@),
{
    let ghost start = text::str_views(out@);
    let mut i: usize = 0;
    proof {
        assert(start + text::str_views(items@).take(0) =~= start);
    }
    while i < items.len()
        invariant
            i <= items@.len(),
            text::str_views(out@) == start + text::str_views(items@).take(i as int),
        decreases items@.len() - i,
    {
        let s = text::owned(items[i].as_str());
        proof {
            text::lemma_str_views_push(out@, s);
            assert(text::str_views(items@).take(i + 1) =~= text::str_views(items@).take(i as int).push(
                s@,
            ));
        }
        out.push(s);
        i += 1;
    }
    proof {
        assert(text::str_views(items@).take(i as int) =~= text::str_views(items@));
    }
}

fn items_of(slice: &[char]) -> (r: Vec<String>)
    ensures
        text::str_views(r@) == list_items(text::split_char(slice@, ',')),
{
    let pieces = text::split_char_exec(slice, ',');
    let ghost pv = text::views(pieces@);
    let mut out: Vec<String> = Vec::new();
    let mut i: usize = 0;
    proof {
        assert(pv.take(0) =~= Seq::<Seq<char>>::empty());
    }
    while i < pieces.len()
        invariant
            i <= pieces@.len(),
            pv == text::views(pieces@),
            pv == text::split_char(slice@, ','),
            text::str_views(out@) == list_items(pv.take(i as int)),
        decreases pieces@.len() - i,
    {
        proof {
            assert(pv.take(i + 1).drop_last() =~= pv.take(i as int));
            assert(pv.take(i + 1).last() == pieces@[i as int]@);
        }
        let q = vec!['"'];
        let a = text::trim_exec(pieces[i].as_slice());
        let b = text::trim_start_matches_exec(a.as_slice(), q.as_slice());
        let c = text::trim_end_matches_exec(b.as_slice(), q.as_slice());
        let d = text::trim_exec(c.as_slice());
        proof {
            assert(q@ =~= seq!['"']);
        }
        if d.len() > 0 {
            let s = text::string_of(d.as_slice());
            proof {
                text::lemma_str_views_push(out@, s);
            }
            out.push(s);
        }
        i += 1;
    }
    proof {
        assert(pv.take(pieces@.len() as int) =~= pv);
    }
    out
}

/// The domains a `domain.rs` declares it may use.
pub fn parse_domain_allows(content: &str) -> (r: Vec<String>)
    ensures
        text::str_views(r@) == allows_of(text::lines(content@)),
{
    let cs = text::chars_of(content);
    let ls = text::lines_exec(cs.as_slice());
    let ghost lv = text::lines(content@);
    let mut out: Vec<String> = Vec::new();
    let pre = text::chars_of(".allows(&");
    let mut i: usize = 0;
    proof {
        assert(lv.take(0) =~= Seq::<Seq<char>>::empty());
        assert(text::str_views(out@) =~= Seq::<Seq<char>>::empty());
    }
    while i < ls.len()
        invariant
            i <= ls@.len(),
            text::views(ls@) == lv,
            pre@ == ".allows(&"@,
            text::str_views(out@) == allows_of(lv.take(i as int)),
        decreases ls@.len() - i,
    {
        let t = text::trim_exec(ls[i].as_slice());
        proof {
            assert(lv.take(i + 1).drop_last() =~= lv.take(i as int));
            assert(lv.take(i + 1).last() == ls@[i as int]@);
        }
        if text::starts_with_exec(t.as_slice(), pre.as_slice()) {
            let start = match text::find_char_spec(t.as_slice(), '[') {
                Some(k) => k,
                None => t.len(),
            };
            let end = match last_pos_exec(t.as_slice(), ']') {
                Some(k) => k,
                None => 0,
            };
            if start < end {
                let slice = text::slice_chars(t.as_slice(), start + 1, end);
                let items = items_of(slice.as_slice());
                push_strings(&mut out, items);
            } else {
                proof {
                    assert(allows_of(lv.take(i as int)) + Seq::<Seq<char>>::empty() =~= allows_of(
                        lv.take(i as int),
                    ));
                }
            }
        } else {
            proof {
                assert(allows_of(lv.take(i as int)) + Seq::<Seq<char>>::empty() =~= allows_of(
                    lv.take(i as int),
                ));
            }
        }
        i += 1;
    }
    proof {
        assert(lv.take(ls@.len() as int) =~= lv);
    }
    out
}

// ───────────────────────── imports ─────────────────────────

/// The path of a `use` line, unless it is a group or starts at `super`, `crate` or
/// `self`, or names nothing.
pub open spec fn use_path(line: Seq<char>) -> Option<Seq<char>> {
    let t = text::trim(line);
    if !text::starts_with(t, "use "@) {
        None
    } else {
        let rest = text::trim(text::trim_end_matches(t.skip(4), seq![';']));
        if text::starts_with(rest, seq!['{']) || text::starts_with(rest, "super"@)
            || text::starts_with(rest, "crate"@) || text::starts_with(rest, "self"@) {
            None
        } else if text::before_first(rest, "::"@).len() == 0 {
            None
        } else {
            Some(rest)
        }
    }
}

/// The path of a `use` line.
pub fn parse_use_path(line: &str) -> (r: Option<String>)
    ensures
        match r {
            Some(p) => use_path(line@) == Some(p@),
            None => use_path(line@) is None,
        },
{
    let cs = text::chars_of(line);
    let t = text::trim_exec(cs.as_slice());
    let pre = text::chars_of("use ");
    proof {
        reveal_strlit("use ");
    }
    if !text::starts_with_exec(t.as_slice(), pre.as_slice()) {
        return None;
    }
    let after = text::slice_chars(t.as_slice(), 4, t.len());
    proof {
        assert(after@ =~= t@.skip(4));
    }
    let semi = vec![';'];
    let cut = text::trim_end_matches_exec(after.as_slice(), semi.as_slice());
    let rest = text::trim_exec(cut.as_slice());
    let brace = vec!['{'];
    let sup = text::chars_of("super");
    let cr = text::chars_of("crate");
    let sf = text::chars_of("self");
    proof {
        reveal_strlit("super");
        reveal_strlit("crate");
        reveal_strlit("self");
        assert(semi@ =~= seq![';']);
        assert(brace@ =~= seq!['{']);
    }
    if text::starts_with_exec(rest.as_slice(), brace.as_slice()) || text::starts_with_exec(
        rest.as_slice(),
        sup.as_slice(),
    ) || text::starts_with_exec(rest.as_slice(), cr.as_slice()) || text::starts_with_exec(
        rest.as_slice(),
        sf.as_slice(),
    ) {
        return None;
    }
    let sep = text::chars_of("::");
    proof {
        reveal_strlit("::");
    }
    let first = text::before_first_exec(rest.as_slice(), sep.as_slice());
    if first.len() == 0 {
        None
    } else {
        Some(text::string_of(rest.as_slice()))
    }
}

/// An import of one domain by another, in a file.
#[derive(Debug, Clone)]
pub struct Violation {
    pub from_domain: String,
    pub to_domain: String,
    pub source_file: String,
    pub imported_path: String,
    /// The importing domain allows the imported one.
    pub is_warning: bool,
}

/// What a violation records.
pub open spec fn violation_view(v: Violation) -> (Seq<char>, Seq<char>, Seq<char>, Seq<char>, bool) {
    (v.from_domain@, v.to_domain@, v.source_file@, v.imported_path@, v.is_warning)
}

pub open spec fn violation_views(v: Seq<Violation>) -> Seq<(Seq<char>, Seq<char>, Seq<char>, Seq<char>, bool)> {
    v.map_values(|x: Violation| violation_view(x))
}

/// The violations an import of `path` makes: one per other domain whose name occurs
/// in it, in the order of the domains.
pub open spec fn import_violations(
    from: Seq<char>,
    allowed: Seq<Seq<char>>,
    domains: Seq<Seq<char>>,
    file: Seq<char>,
    path: Seq<char>,
) -> Seq<(Seq<char>, Seq<char>, Seq<char>, Seq<char>, bool)>
    decreases domains.len(),
{
    if domains.len() == 0 {
        Seq::empty()
    } else {
        let rest = import_violations(from, allowed, domains.drop_last(), file, path);
        let d = domains.last();
        if d != from && text::contains_sub(path, d) {
            rest.push((from, d, file, path, allowed.contains(d)))
        } else {
            rest
        }
    }
}

/// The violations of the lines of a file, in order.
pub open spec fn lines_violations(
    from: Seq<char>,
    allowed: Seq<Seq<char>>,
    domains: Seq<Seq<char>>,
    file: Seq<char>,
    lines: Seq<Seq<char>>,
) -> Seq<(Seq<char>, Seq<char>, Seq<char>, Seq<char>, bool)>
    decreases lines.len(),
{
    if lines.len() == 0 {
        Seq::empty()
    } else {
        let rest = lines_violations(from, allowed, domains, file, lines.drop_last());
        match use_path(lines.last()) {
            Some(p) => rest + import_violations(from, allowed, domains, file, p),
            None => rest,
        }
    }
}

/// The violations of a domain's files, file by file.
pub open spec fn files_violations(
    from: Seq<char>,
    allowed: Seq<Seq<char>>,
    domains: Seq<Seq<char>>,
    files: Seq<(Seq<char>, Seq<char>)>,
) -> Seq<(Seq<char>, Seq<char>, Seq<char>, Seq<char>, bool)>
    decreases files.len(),
{
    if files.len() == 0 {
        Seq::empty()
    } else {
        files_violations(from, allowed, domains, files.drop_last()) + lines_violations(
            from,
            allowed,
            domains,
            files.last().0,
            text::lines(files.last().1),
        )
    }
}

fn string_in(list: &[String], x: &str) -> (r: bool)
    ensures
        r == text::str_views(list@).contains(x@),
{
    let mut i: usize = 0;
    while i < list.len()
        invariant
            i <= list@.len(),
            forall|j: int| 0 <= j < i ==> text::str_views(list@)[j] != x@,
        decreases list@.len() - i,
    {
        proof {
            assert(text::str_views(list@)[i as int] == list@[i as int]@);
        }
        if text::str_eq(list[i].as_str(), x) {
            return true;
        }
        i += 1;
    }
    false
}

fn import_violations_exec(
    from: &str,
    allowed: &[String],
    domains: &[String],
    file: &str,
    path: &str,
    out: &mut Vec<Violation>,
)
    ensures
        violation_views(final(out)@) == violation_views(old(out)@) + import_violations(
            from@,
            text::str_views(allowed@),
            text::str_views(domains@),
            file@,
            path@,
        ),
{
    let ghost dv = text::str_views(domains@);
    let ghost start = violation_views(out@);
    let pc = text::chars_of(path);
    let mut i: usize = 0;
    proof {
        assert(dv.take(0) =~= Seq::<Seq<char>>::empty());
        assert(start + import_violations(from@, text::str_views(allowed@), dv.take(0), file@, path@)
            =~= start);
    }
    while i < domains.len()
        invariant
            i <= domains@.len(),
            dv == text::str_views(domains@),
            pc@ == path@,
            violation_views(out@) == start + import_violations(
                from@,
                text::str_views(allowed@),
                dv.take(i as int),
                file@,
                path@,
            ),
        decreases domains@.len() - i,
    {
        let d = domains[i].as_str();
        proof {
            assert(dv.take(i + 1).drop_last() =~= dv.take(i as int));
            assert(dv.take(i + 1).last() == d@);
        }
        let dc = text::chars_of(d);
        if !text::str_eq(d, from) && text::contains_exec(pc.as_slice(), dc.as_slice()) {
            let w = string_in(allowed, d);
            let v = Violation {
                from_domain: text::owned(from),
                to_domain: text::owned(d),
                source_file: text::owned(file),
                imported_path: text::owned(path),
                is_warning: w,
            };
            proof {
                assert(violation_views(out@.push(v)) =~= violation_views(out@).push(violation_view(v)));
            }
            out.push(v);
        }
        i += 1;
    }
    proof {
        assert(dv.take(domains@.len() as int) =~= dv);
    }
}

/// The imports in a domain's files (path and text) that name other domains; each is
/// a warning where the domain allows the other one.
pub fn scan_domain_imports(
    domain_name: &str,
    allowed: &[String],
    all_domains: &[String],
    files: &[(String, String)],
) -> (r: Vec<Violation>)
    ensures
        violation_views(r@) == files_violations(
            domain_name@,
            text::str_views(allowed@),
            text::str_views(all_domains@),
            files@.map_values(|f: (String, String)| (f.0@, f.1@)),
        ),
{
    let ghost fv = files@.map_values(|f: (String, String)| (f.0@, f.1@));
    let ghost av = text::str_views(allowed@);
    let ghost dv = text::str_views(all_domains@);
    let mut out: Vec<Violation> = Vec::new();
    let mut f: usize = 0;
    proof {
        assert(fv.take(0) =~= Seq::<(Seq<char>, Seq<char>)>::empty());
        assert(violation_views(out@) =~= Seq::<(Seq<char>, Seq<char>, Seq<char>, Seq<char>, bool)>::empty());
    }
    while f < files.len()
        invariant
            f <= files@.len(),
            fv == files@.map_values(|f: (String, String)| (f.0@, f.1@)),
            av == text::str_views(allowed@),
            dv == text::str_views(all_domains@),
            violation_views(out@) == files_violations(domain_name@, av, dv, fv.take(f as int)),
        decreases files@.len() - f,
    {
        let path = files[f].0.as_str();
        let content = files[f].1.as_str();
        let cs = text::chars_of(content);
        let ls = text::lines_exec(cs.as_slice());
        let ghost lv = text::lines(content@);
        let ghost before = violation_views(out@);
        let mut l: usize = 0;
        proof {
            assert(lv.take(0) =~= Seq::<Seq<char>>::empty());
            assert(before + lines_violations(domain_name@, av, dv, path@, lv.take(0)) =~= before);
        }
        while l < ls.len()
            invariant
                l <= ls@.len(),
                text::views(ls@) == lv,
                av == text::str_views(allowed@),
                dv == text::str_views(all_domains@),
                violation_views(out@) == before + lines_violations(
                    domain_name@,
                    av,
                    dv,
                    path@,
                    lv.take(l as int),
                ),
            decreases ls@.len() - l,
        {
            let line = text::string_of(ls[l].as_slice());
            proof {
                assert(lv.take(l + 1).drop_last() =~= lv.take(l as int));
                assert(lv.take(l + 1).last() == line@);
            }
            match parse_use_path(line.as_str()) {
                Some(p) => {
                    import_violations_exec(domain_name, allowed, all_domains, path, p.as_str(), &mut out);
                },
                None => {},
            }
            l += 1;
        }
        proof {
            assert(lv.take(ls@.len() as int) =~= lv);
            assert(fv.take(f + 1).drop_last() =~= fv.take(f as int));
            assert(fv.take(f + 1).last() == (path@, content@));
        }
        f += 1;
    }
    proof {
        assert(fv.take(files@.len() as int) =~= fv);
    }
    out
}


// ───────────────────────── the report of `check --arch` ─────────────────────────

pub open spec fn check_marker(has_def: bool) -> Seq<char> {
    if has_def {
        "\x1b[32m✓\x1b[0m"@
    } else {
        "\x1b[33m⚠\x1b[0m"@
    }
}

/// The lines about one domain directory.
pub open spec fn domain_dir_lines(name: Seq<char>, has_def: bool) -> Seq<SayView> {
    seq![SayView::Line("  "@ + check_marker(has_def) + " "@ + name)] + if has_def {
        Seq::<SayView>::empty()
    } else {
        seq![SayView::Line("    \x1b[33mMissing domain.rs — run: viontin make:domain "@ + name + "\x1b[0m"@)]
    }
}

pub open spec fn domain_dirs_lines(ds: Seq<(Seq<char>, bool)>) -> Seq<SayView>
    decreases ds.len(),
{
    if ds.len() == 0 {
        Seq::empty()
    } else {
        domain_dirs_lines(ds.drop_last()) + domain_dir_lines(ds.last().0, ds.last().1)
    }
}

/// The lines about one violation.
pub open spec fn violation_lines(v: (Seq<char>, Seq<char>, Seq<char>, Seq<char>, bool)) -> Seq<SayView> {
    seq![
        SayView::Line(
            if v.4 {
                "\x1b[33m⚠\x1b[0m \x1b[33m"@ + v.0 + "\x1b[0m → \x1b[33m"@ + v.1
                    + "\x1b[0m (allowed but not recommended)"@
            } else {
                "\x1b[31m✘\x1b[0m \x1b[31m"@ + v.0 + "\x1b[0m → \x1b[31m"@ + v.1 + "\x1b[0m (NOT allowed)"@
            },
        ),
        SayView::Line("    in: "@ + v.2),
        SayView::Line("    import: "@ + v.3),
    ]
}

pub open spec fn violations_lines(vs: Seq<(Seq<char>, Seq<char>, Seq<char>, Seq<char>, bool)>) -> Seq<SayView>
    decreases vs.len(),
{
    if vs.len() == 0 {
        Seq::empty()
    } else {
        violations_lines(vs.drop_last()) + violation_lines(vs.last())
    }
}

/// How many violations are errors.
pub open spec fn error_count(vs: Seq<(Seq<char>, Seq<char>, Seq<char>, Seq<char>, bool)>) -> nat
    decreases vs.len(),
{
    if vs.len() == 0 {
        0
    } else {
        error_count(vs.drop_last()) + if vs.last().4 {
            0nat
        } else {
            1nat
        }
    }
}

/// The report of `check --arch` for the domain directories (`None` where there is no
/// `src/domain`), each with whether it has a `domain.rs`, and the violations found.
pub open spec fn arch_report(
    domains: Option<Seq<(Seq<char>, bool)>>,
    vs: Seq<(Seq<char>, Seq<char>, Seq<char>, Seq<char>, bool)>,
) -> (Seq<SayView>, ExitCode) {
    let head = seq![SayView::Title("Architecture Check"@), SayView::Line(""@)];
    match domains {
        None => (
            head + seq![
                SayView::Info("No domains detected (src/domain/ not found)"@),
                SayView::Line(""@),
                SayView::Info("Create a domain with: \x1b[33mviontin make:domain <name>\x1b[0m"@),
            ],
            ExitCode::Success,
        ),
        Some(ds) => if ds.len() == 0 {
            (head + seq![SayView::Info("No domains found in src/domain/"@)], ExitCode::Success)
        } else {
            let listed = head + seq![
                SayView::Info("Found "@ + text::decimal(ds.len()) + " domain(s):"@),
            ] + domain_dirs_lines(ds) + seq![SayView::Line(""@)];
            if vs.len() == 0 {
                (listed + seq![SayView::Success("✓ All domain boundaries respected"@)], ExitCode::Success)
            } else {
                let e = error_count(vs);
                let w = (vs.len() - e) as nat;
                let body = listed + violations_lines(vs) + seq![SayView::Line(""@)];
                if e > 0 {
                    (
                        body + seq![
                            SayView::Error(
                                text::decimal(e) + " error(s), "@ + text::decimal(w) + " warning(s)"@,
                            ),
                        ],
                        ExitCode::Failure,
                    )
                } else {
                    (body + seq![SayView::Info("0 errors, "@ + text::decimal(w) + " warning(s)"@)], ExitCode::Success)
                }
            }
        },
    }
}

proof fn lemma_error_count_le(vs: Seq<(Seq<char>, Seq<char>, Seq<char>, Seq<char>, bool)>)
    ensures
        error_count(vs) <= vs.len(),
    decreases vs.len(),
{
    if vs.len() > 0 {
        lemma_error_count_le(vs.drop_last());
    }
}

fn say_line(t: String) -> (r: Say)
    ensures
        r@ == SayView::Line(t@),
{
    Say::Line(t)
}

/// The report of `check --arch`.
pub fn check_arch_report(domains: Option<&[(String, bool)]>, violations: &[Violation]) -> (r: (
    Vec<Say>,
    ExitCode,
))
    ensures
        (say_views(r.0@), r.1) == arch_report(
            match domains {
                Some(d) => Some(d@.map_values(|x: (String, bool)| (x.0@, x.1))),
                None => None,
            },
            violation_views(violations@),
        ),
{
    let mut out: Vec<Say> = Vec::new();
    push_say(&mut out, Say::Title(text::owned("Architecture Check")));
    push_say(&mut out, Say::Line(text::owned("")));
    let ds = match domains {
        None => {
            push_say(&mut out, Say::Info(text::owned("No domains detected (src/domain/ not found)")));
            push_say(&mut out, Say::Line(text::owned("")));
            push_say(
                &mut out,
                Say::Info(text::owned("Create a domain with: \x1b[33mviontin make:domain <name>\x1b[0m")),
            );
            proof {
                assert(say_views(out@) =~= arch_report(None, violation_views(violations@)).0);
            }
            return (out, ExitCode::Success);
        },
        Some(d) => d,
    };
    let ghost dv = ds@.map_values(|x: (String, bool)| (x.0@, x.1));
    let ghost vv = violation_views(violations@);
    if ds.len() == 0 {
        push_say(&mut out, Say::Info(text::owned("No domains found in src/domain/")));
        proof {
            assert(say_views(out@) =~= arch_report(Some(dv), vv).0);
        }
        return (out, ExitCode::Success);
    }
    let n = text::usize_to_string(ds.len());
    push_say(&mut out, Say::Info(text::cat3("Found ", n.as_str(), " domain(s):")));
    let ghost head = say_views(out@);
    let mut i: usize = 0;
    proof {
        assert(dv.take(0) =~= Seq::<(Seq<char>, bool)>::empty());
        assert(head + domain_dirs_lines(dv.take(0)) =~= head);
    }
    while i < ds.len()
        invariant
            i <= ds@.len(),
            dv == ds@.map_values(|x: (String, bool)| (x.0@, x.1)),
            say_views(out@) == head + domain_dirs_lines(dv.take(i as int)),
        decreases ds@.len() - i,
    {
        let name = ds[i].0.as_str();
        let has_def = ds[i].1;
        proof {
            assert(dv.take(i + 1).drop_last() =~= dv.take(i as int));
            assert(dv.take(i + 1).last() == (name@, has_def));
        }
        let ghost before = say_views(out@);
        let marker = if has_def {
            "\x1b[32m✓\x1b[0m"
        } else {
            "\x1b[33m⚠\x1b[0m"
        };
        let a = text::cat3("  ", marker, " ");
        push_say(&mut out, say_line(text::cat(a.as_str(), name)));
        if !has_def {
            push_say(
                &mut out,
                say_line(text::cat3("    \x1b[33mMissing domain.rs — run: viontin make:domain ", name, "\x1b[0m")),
            );
        }
        proof {
            assert(say_views(out@) =~= before + domain_dir_lines(name@, has_def));
        }
        i += 1;
    }
    push_say(&mut out, Say::Line(text::owned("")));
    proof {
        assert(dv.take(ds@.len() as int) =~= dv);
    }
    let ghost listed = say_views(out@);
    if violations.len() == 0 {
        push_say(&mut out, Say::Success(text::owned("✓ All domain boundaries respected")));
        proof {
            assert(say_views(out@) =~= arch_report(Some(dv), vv).0);
        }
        return (out, ExitCode::Success);
    }
    let mut errors: usize = 0;
    let mut k: usize = 0;
    proof {
        assert(vv.take(0) =~= Seq::<(Seq<char>, Seq<char>, Seq<char>, Seq<char>, bool)>::empty());
        assert(listed + violations_lines(vv.take(0)) =~= listed);
    }
    while k < violations.len()
        invariant
            k <= violations@.len(),
            vv == violation_views(violations@),
            errors == error_count(vv.take(k as int)),
            errors <= k,
            say_views(out@) == listed + violations_lines(vv.take(k as int)),
        decreases violations@.len() - k,
    {
        let v = &violations[k];
        proof {
            assert(vv.take(k + 1).drop_last() =~= vv.take(k as int));
            assert(vv.take(k + 1).last() == violation_view(*v));
        }
        let ghost before = say_views(out@);
        let first = if v.is_warning {
            let a = text::cat3("\x1b[33m⚠\x1b[0m \x1b[33m", v.from_domain.as_str(), "\x1b[0m → \x1b[33m");
            text::cat3(a.as_str(), v.to_domain.as_str(), "\x1b[0m (allowed but not recommended)")
        } else {
            errors = errors + 1;
            let a = text::cat3("\x1b[31m✘\x1b[0m \x1b[31m", v.from_domain.as_str(), "\x1b[0m → \x1b[31m");
            text::cat3(a.as_str(), v.to_domain.as_str(), "\x1b[0m (NOT allowed)")
        };
        push_say(&mut out, say_line(first));
        push_say(&mut out, say_line(text::cat("    in: ", v.source_file.as_str())));
        push_say(&mut out, say_line(text::cat("    import: ", v.imported_path.as_str())));
        proof {
            assert(say_views(out@) =~= before + violation_lines(violation_view(*v)));
        }
        k += 1;
    }
    proof {
        assert(vv.take(violations@.len() as int) =~= vv);
        lemma_error_count_le(vv);
    }
    push_say(&mut out, Say::Line(text::owned("")));
    let warnings = violations.len() - errors;
    let ws = text::usize_to_string(warnings);
    if errors > 0 {
        let es = text::usize_to_string(errors);
        let a = text::cat3(es.as_str(), " error(s), ", ws.as_str());
        push_say(&mut out, Say::Error(text::cat(a.as_str(), " warning(s)")));
        proof {
            assert(say_views(out@) =~= arch_report(Some(dv), vv).0);
        }
        (out, ExitCode::Failure)
    } else {
        push_say(&mut out, Say::Info(text::cat3("0 errors, ", ws.as_str(), " warning(s)")));
        proof {
            assert(say_views(out@) =~= arch_report(Some(dv), vv).0);
        }
        (out, ExitCode::Success)
    }
}


// ───────────────────────── `inspect` ─────────────────────────

/// Whether an input has a flag, as `Input::has_flag` answers.
pub open spec fn flagged(input: Input, name: Seq<char>) -> bool {
    input.flag_set().contains(name) || exists|j: int|
        0 <= j < input.args_view().len() && #[trigger] input.args_view()[j] == dashes() + name
}

pub open spec fn section_names() -> Seq<Seq<char>> {
    seq![
        "models"@,
        "routes"@,
        "commands"@,
        "events"@,
        "jobs"@,
        "mail"@,
        "notifications"@,
        "queries"@,
    ]
}

/// The sections whose flags are given, in their order.
pub open spec fn flagged_sections(input: Input, names: Seq<Seq<char>>) -> Seq<Seq<char>>
    decreases names.len(),
{
    if names.len() == 0 {
        Seq::empty()
    } else {
        let rest = flagged_sections(input, names.drop_last());
        if flagged(input, names.last()) {
            rest.push(names.last())
        } else {
            rest
        }
    }
}

/// Which modules `inspect` shows: all of them for an empty list, else those whose
/// name contains one of the listed names.
pub struct Filter(pub Vec<String>);

impl Filter {
    pub fn matches(&self, name: &str) -> (r: bool)
        ensures
            r == (self.0@.len() == 0 || exists|i: int|
                0 <= i < self.0@.len() && (text::contains_sub(name@, #[trigger] self.0@[i]@)
                    || self.0@[i]@ == name@)),
    {
        if self.0.len() == 0 {
            return true;
        }
        let nc = text::chars_of(name);
        let mut i: usize = 0;
        while i < self.0.len()
            invariant
                i <= self.0@.len(),
                nc@ == name@,
                forall|j: int|
                    0 <= j < i ==> !(text::contains_sub(name@, #[trigger] self.0@[j]@) || self.0@[j]@
                        == name@),
            decreases self.0@.len() - i,
        {
            let fc = text::chars_of(self.0[i].as_str());
            if text::contains_exec(nc.as_slice(), fc.as_slice()) || text::str_eq(
                self.0[i].as_str(),
                name,
            ) {
                return true;
            }
            i += 1;
        }
        false
    }
}

/// Whether no section flag is given.
pub fn no_filter(input: &Input) -> (r: bool)
    ensures
        r == (flagged_sections(*input, section_names()).len() == 0),
{
    let f = filter_for(input);
    f.0.len() == 0
}

/// The filter the section flags make.
pub fn filter_for(input: &Input) -> (r: Filter)
    ensures
        text::str_views(r.0@) == flagged_sections(*input, section_names()),
{
    let names: [&str; 8] = [
        "models",
        "routes",
        "commands",
        "events",
        "jobs",
        "mail",
        "notifications",
        "queries",
    ];
    let ghost nv = names@.map_values(|s: &str| s@);
    proof {
        assert(nv =~= section_names());
        assert(nv.take(0) =~= Seq::<Seq<char>>::empty());
    }
    let mut out: Vec<String> = Vec::new();
    let mut i: usize = 0;
    while i < 8
        invariant
            i <= 8,
            nv == names@.map_values(|s: &str| s@),
            text::str_views(out@) == flagged_sections(*input, nv.take(i as int)),
        decreases 8 - i,
    {
        proof {
            assert(nv.take(i + 1).drop_last() =~= nv.take(i as int));
            assert(nv.take(i + 1).last() == names@[i as int]@);
        }
        if input.has_flag(names[i]) {
            let s = text::owned(names[i]);
            proof {
                text::lemma_str_views_push(out@, s);
            }
            out.push(s);
        }
        i += 1;
    }
    proof {
        assert(nv.take(8) =~= nv);
    }
    Filter(out)
}

/// Names joined with `, `.
pub open spec fn joined(names: Seq<Seq<char>>) -> Seq<char>
    decreases names.len(),
{
    if names.len() == 0 {
        Seq::empty()
    } else if names.len() == 1 {
        names[0]
    } else {
        joined(names.drop_last()) + ", "@ + names.last()
    }
}

fn join_names(names: &Vec<String>) -> (r: String)
    ensures
        r@ == joined(text::str_views(names@)),
{
    let ghost nv = text::str_views(names@);
    let mut out = text::owned("");
    let mut i: usize = 0;
    proof {
        reveal_strlit("");
        assert(nv.take(0) =~= Seq::<Seq<char>>::empty());
    }
    while i < names.len()
        invariant
            i <= names@.len(),
            nv == text::str_views(names@),
            out@ == joined(nv.take(i as int)),
        decreases names@.len() - i,
    {
        proof {
            assert(nv.take(i + 1).drop_last() =~= nv.take(i as int));
            assert(nv.take(i + 1).last() == names@[i as int]@);
        }
        if i == 0 {
            out = text::owned(names[i].as_str());
            proof {
                assert(nv.take(1) =~= seq![names@[0]@]);
            }
        } else {
            out = text::cat3(out.as_str(), ", ", names[i].as_str());
        }
        i += 1;
    }
    proof {
        assert(nv.take(i as int) =~= nv);
    }
    out
}

/// A file as `inspect` shows it: its name and the names it exports.
#[derive(Debug, Clone)]
pub struct ShownFile {
    pub name: String,
    pub exports: Vec<String>,
}

/// A module as `inspect` shows it.
#[derive(Debug, Clone)]
pub struct ShownModule {
    pub name: String,
    pub files: Vec<ShownFile>,
}

pub open spec fn file_line(f: ShownFile, child_prefix: Seq<char>, last: bool) -> Seq<char> {
    "  │ "@ + child_prefix + " "@ + (if last {
        "└──"@
    } else {
        "├──"@
    }) + " "@ + f.name@ + (if f.exports@.len() == 0 {
        Seq::<char>::empty()
    } else {
        " ("@ + joined(text::str_views(f.exports@)) + ")"@
    })
}

pub open spec fn file_lines(fs: Seq<ShownFile>, n: int, child_prefix: Seq<char>) -> Seq<Seq<char>>
    decreases fs.len(),
{
    if fs.len() == 0 {
        Seq::empty()
    } else {
        file_lines(fs.drop_last(), n, child_prefix).push(
            file_line(fs.last(), child_prefix, fs.len() - 1 == n - 1),
        )
    }
}

pub open spec fn module_lines(m: ShownModule, last: bool) -> Seq<Seq<char>> {
    let n = m.files@.len();
    let count = if n > 0 {
        " ("@ + text::decimal(n) + " file"@ + (if n == 1 {
            Seq::<char>::empty()
        } else {
            "s"@
        }) + ")"@
    } else {
        Seq::<char>::empty()
    };
    seq![
        "  │ "@ + (if last {
            "└──"@
        } else {
            "├──"@
        }) + " "@ + m.name@ + count,
    ] + file_lines(
        m.files@,
        n as int,
        if last {
            "    "@
        } else {
            "│   "@
        },
    )
}

pub open spec fn modules_lines(ms: Seq<ShownModule>, n: int) -> Seq<Seq<char>>
    decreases ms.len(),
{
    if ms.len() == 0 {
        Seq::empty()
    } else {
        modules_lines(ms.drop_last(), n) + module_lines(ms.last(), ms.len() - 1 == n - 1)
    }
}

/// The tree `inspect` shows: the project, `src`, then each module and its files
/// (where no module is shown, `main.rs` or `(empty)`).
pub open spec fn structure_tree(root: Seq<char>, ms: Seq<ShownModule>, has_main: bool) -> Seq<Seq<char>> {
    seq![" "@ + root, " └── src"@] + (if ms.len() == 0 {
        seq![
            if has_main {
                "     └── main.rs"@
            } else {
                "     └── (empty)"@
            },
        ]
    } else {
        Seq::<Seq<char>>::empty()
    }) + modules_lines(ms, ms.len() as int)
}

/// The lines of the tree `inspect` shows.
pub fn structure_lines(root_name: &str, modules: &[ShownModule], has_main: bool) -> (r: Vec<String>)
    ensures
        text::str_views(r@) == structure_tree(root_name@, modules@, has_main),
{
    let mut out: Vec<String> = Vec::new();
    let a = text::cat(" ", root_name);
    proof {
        text::lemma_str_views_push(out@, a);
    }
    out.push(a);
    let b = text::owned(" └── src");
    proof {
        text::lemma_str_views_push(out@, b);
    }
    out.push(b);
    if modules.len() == 0 {
        let c = if has_main {
            text::owned("     └── main.rs")
        } else {
            text::owned("     └── (empty)")
        };
        proof {
            text::lemma_str_views_push(out@, c);
        }
        out.push(c);
    }
    let ghost head = text::str_views(out@);
    let n = modules.len();
    let mut mi: usize = 0;
    proof {
        assert(modules@.take(0) =~= Seq::<ShownModule>::empty());
        assert(head + modules_lines(modules@.take(0), n as int) =~= head);
    }
    while mi < n
        invariant
            mi <= n,
            n == modules@.len(),
            text::str_views(out@) == head + modules_lines(modules@.take(mi as int), n as int),
        decreases n - mi,
    {
        let m = &modules[mi];
        proof {
            assert(modules@.take(mi + 1).drop_last() =~= modules@.take(mi as int));
            assert(modules@.take(mi + 1).last() == *m);
        }
        let ghost before = text::str_views(out@);
        let last = mi == n - 1;
        let branch = if last {
            "└──"
        } else {
            "├──"
        };
        let child_prefix = if last {
            "    "
        } else {
            "│   "
        };
        let fcount = m.files.len();
        let count = if fcount > 0 {
            let cnt = text::usize_to_string(fcount);
            let plural = if fcount == 1 {
                ""
            } else {
                "s"
            };
            let x = text::cat3(" (", cnt.as_str(), " file");
            text::cat3(x.as_str(), plural, ")")
        } else {
            text::owned("")
        };
        let l1 = text::cat3("  │ ", branch, " ");
        let l2 = text::cat3(l1.as_str(), m.name.as_str(), count.as_str());
        proof {
            reveal_strlit("");
            text::lemma_str_views_push(out@, l2);
        }
        out.push(l2);
        let ghost mid = text::str_views(out@);
        let mut fi: usize = 0;
        proof {
            assert(m.files@.take(0) =~= Seq::<ShownFile>::empty());
            assert(mid + file_lines(m.files@.take(0), fcount as int, child_prefix@) =~= mid);
        }
        while fi < fcount
            invariant
                fi <= fcount,
                fcount == m.files@.len(),
                text::str_views(out@) == mid + file_lines(
                    m.files@.take(fi as int),
                    fcount as int,
                    child_prefix@,
                ),
            decreases fcount - fi,
        {
            let f = &m.files[fi];
            proof {
                assert(m.files@.take(fi + 1).drop_last() =~= m.files@.take(fi as int));
                assert(m.files@.take(fi + 1).last() == *f);
            }
            let fb = if fi == fcount - 1 {
                "└──"
            } else {
                "├──"
            };
            let exports = if f.exports.len() == 0 {
                text::owned("")
            } else {
                let j = join_names(&f.exports);
                text::cat3(" (", j.as_str(), ")")
            };
            let x1 = text::cat3("  │ ", child_prefix, " ");
            let x2 = text::cat3(x1.as_str(), fb, " ");
            let x3 = text::cat3(x2.as_str(), f.name.as_str(), exports.as_str());
            proof {
                reveal_strlit("");
                text::lemma_str_views_push(out@, x3);
                assert(x3@ =~= file_line(*f, child_prefix@, fi == fcount - 1));
            }
            out.push(x3);
            fi += 1;
        }
        proof {
            assert(m.files@.take(fcount as int) =~= m.files@);
            assert(text::str_views(out@) =~= before + module_lines(*m, last));
        }
        mi += 1;
    }
    proof {
        assert(modules@.take(n as int) =~= modules@);
    }
    out
}

/// A domain directory as `inspect --domains` shows it.
#[derive(Debug, Clone)]
pub struct DomainDirInfo {
    pub name: String,
    pub has_def: bool,
    pub has_port: bool,
    pub allows: Vec<String>,
    pub sub_files: Vec<String>,
}

pub open spec fn inspect_marker(present: bool) -> Seq<char> {
    if present {
        "\x1b[32m✓\x1b[0m"@
    } else {
        "\x1b[33m✗\x1b[0m"@
    }
}

/// The allowed domains, each in cyan.
pub open spec fn cyan_list(names: Seq<Seq<char>>) -> Seq<char>
    decreases names.len(),
{
    if names.len() == 0 {
        Seq::empty()
    } else if names.len() == 1 {
        "\x1b[36m"@ + names[0] + "\x1b[0m"@
    } else {
        cyan_list(names.drop_last()) + ", "@ + "\x1b[36m"@ + names.last() + "\x1b[0m"@
    }
}

pub open spec fn domain_info_lines(d: DomainDirInfo) -> Seq<SayView> {
    let allows = text::str_views(d.allows@);
    seq![
        SayView::Line("  \x1b[1m"@ + d.name@ + "\x1b[0m"@),
        SayView::Line(
            "    domain.rs  "@ + inspect_marker(d.has_def) + "   port.rs  "@ + inspect_marker(
                d.has_port,
            ),
        ),
        SayView::Line(
            "    allows: "@ + if allows.len() == 0 {
                "\x1b[2m(no dependencies)\x1b[0m"@
            } else {
                cyan_list(allows)
            },
        ),
    ] + (if d.sub_files@.len() > 0 {
        seq![SayView::Line("    files: "@ + joined(text::str_views(d.sub_files@)))]
    } else {
        Seq::<SayView>::empty()
    }) + seq![SayView::Line(""@)]
}

pub open spec fn domain_infos_lines(ds: Seq<DomainDirInfo>) -> Seq<SayView>
    decreases ds.len(),
{
    if ds.len() == 0 {
        Seq::empty()
    } else {
        domain_infos_lines(ds.drop_last()) + domain_info_lines(ds.last())
    }
}

/// The report of `inspect --domains` (`None` where there is no `src/domain`).
pub open spec fn domains_report(ds: Option<Seq<DomainDirInfo>>) -> Seq<SayView> {
    match ds {
        None => seq![
            SayView::Info("No domains detected (src/domain/ not found)"@),
            SayView::Line(""@),
            SayView::Info("Create a domain with: \x1b[33mviontin make:domain <name>\x1b[0m"@),
        ],
        Some(d) => if d.len() == 0 {
            seq![SayView::Info("No domains found in src/domain/"@)]
        } else {
            seq![SayView::Title("Domains"@)] + domain_infos_lines(d)
        },
    }
}

fn cyan_join(names: &Vec<String>) -> (r: String)
    ensures
        r@ == cyan_list(text::str_views(names@)),
{
    let ghost nv = text::str_views(names@);
    let mut out = text::owned("");
    let mut i: usize = 0;
    proof {
        reveal_strlit("");
        assert(nv.take(0) =~= Seq::<Seq<char>>::empty());
    }
    while i < names.len()
        invariant
            i <= names@.len(),
            nv == text::str_views(names@),
            out@ == cyan_list(nv.take(i as int)),
        decreases names@.len() - i,
    {
        proof {
            assert(nv.take(i + 1).drop_last() =~= nv.take(i as int));
            assert(nv.take(i + 1).last() == names@[i as int]@);
        }
        let c = text::cat3("\x1b[36m", names[i].as_str(), "\x1b[0m");
        if i == 0 {
            out = c;
            proof {
                assert(nv.take(1) =~= seq![names@[0]@]);
            }
        } else {
            out = text::cat3(out.as_str(), ", ", c.as_str());
        }
        i += 1;
    }
    proof {
        assert(nv.take(i as int) =~= nv);
    }
    out
}

/// The report of `inspect --domains`.
pub fn inspect_domains_report(domains: Option<&[DomainDirInfo]>) -> (r: Vec<Say>)
    ensures
        say_views(r@) == domains_report(
            match domains {
                Some(d) => Some(d@),
                None => None,
            },
        ),
{
    let mut out: Vec<Say> = Vec::new();
    let ds = match domains {
        None => {
            push_say(&mut out, Say::Info(text::owned("No domains detected (src/domain/ not found)")));
            push_say(&mut out, Say::Line(text::owned("")));
            push_say(
                &mut out,
                Say::Info(text::owned("Create a domain with: \x1b[33mviontin make:domain <name>\x1b[0m")),
            );
            proof {
                assert(say_views(out@) =~= domains_report(None));
            }
            return out;
        },
        Some(d) => d,
    };
    if ds.len() == 0 {
        push_say(&mut out, Say::Info(text::owned("No domains found in src/domain/")));
        proof {
            assert(say_views(out@) =~= domains_report(Some(ds@)));
        }
        return out;
    }
    push_say(&mut out, Say::Title(text::owned("Domains")));
    let ghost head = say_views(out@);
    let mut i: usize = 0;
    proof {
        assert(ds@.take(0) =~= Seq::<DomainDirInfo>::empty());
        assert(head + domain_infos_lines(ds@.take(0)) =~= head);
    }
    while i < ds.len()
        invariant
            i <= ds@.len(),
            say_views(out@) == head + domain_infos_lines(ds@.take(i as int)),
        decreases ds@.len() - i,
    {
        let d = &ds[i];
        proof {
            assert(ds@.take(i + 1).drop_last() =~= ds@.take(i as int));
            assert(ds@.take(i + 1).last() == *d);
        }
        let ghost before = say_views(out@);
        let def_marker = if d.has_def {
            "\x1b[32m✓\x1b[0m"
        } else {
            "\x1b[33m✗\x1b[0m"
        };
        let port_marker = if d.has_port {
            "\x1b[32m✓\x1b[0m"
        } else {
            "\x1b[33m✗\x1b[0m"
        };
        let allows_str = if d.allows.len() == 0 {
            text::owned("\x1b[2m(no dependencies)\x1b[0m")
        } else {
            cyan_join(&d.allows)
        };
        push_say(&mut out, say_line(text::cat3("  \x1b[1m", d.name.as_str(), "\x1b[0m")));
        let a = text::cat3("    domain.rs  ", def_marker, "   port.rs  ");
        push_say(&mut out, say_line(text::cat(a.as_str(), port_marker)));
        push_say(&mut out, say_line(text::cat("    allows: ", allows_str.as_str())));
        if d.sub_files.len() > 0 {
            let j = join_names(&d.sub_files);
            push_say(&mut out, say_line(text::cat("    files: ", j.as_str())));
        }
        push_say(&mut out, say_line(text::owned("")));
        proof {
            assert(say_views(out@) =~= before + domain_info_lines(*d));
        }
        i += 1;
    }
    proof {
        assert(ds@.take(i as int) =~= ds@);
    }
    out
}

/// The entries of a domain directory that `inspect --domains` lists: every entry but
/// `domain.rs`, `port.rs` and `mod.rs`, directories with a `/` after the name, other
/// Rust files as they are, in sorted order.
pub fn sub_file_names(entries: &[(String, bool)]) -> (r: Vec<String>)
    ensures
        text::sorted(text::str_views(r@)),
        text::str_views(r@).to_multiset() == listed_entries(
            entries@.map_values(|e: (String, bool)| (e.0@, e.1)),
        ).to_multiset(),
{
    let ghost ev = entries@.map_values(|e: (String, bool)| (e.0@, e.1));
    let mut names: Vec<String> = Vec::new();
    let mut i: usize = 0;
    proof {
        assert(ev.take(0) =~= Seq::<(Seq<char>, bool)>::empty());
    }
    while i < entries.len()
        invariant
            i <= entries@.len(),
            ev == entries@.map_values(|e: (String, bool)| (e.0@, e.1)),
            text::str_views(names@) == listed_entries(ev.take(i as int)),
        decreases entries@.len() - i,
    {
        let name = entries[i].0.as_str();
        let is_dir = entries[i].1;
        proof {
            assert(ev.take(i + 1).drop_last() =~= ev.take(i as int));
            assert(ev.take(i + 1).last() == (name@, is_dir));
        }
        let skip = text::str_eq(name, "domain.rs") || text::str_eq(name, "port.rs") || text::str_eq(
            name,
            "mod.rs",
        );
        if !skip {
            if is_dir {
                let s = text::cat(name, "/");
                proof {
                    text::lemma_str_views_push(names@, s);
                }
                names.push(s);
            } else {
                if crate::paths::extension_is_rs(name) {
                    let s = text::owned(name);
                    proof {
                        text::lemma_str_views_push(names@, s);
                    }
                    names.push(s);
                }
            }
        }
        i += 1;
    }
    proof {
        assert(ev.take(i as int) =~= ev);
    }
    text::sort_strings(names)
}

/// The entries `inspect --domains` lists, in the order given.
pub open spec fn listed_entries(es: Seq<(Seq<char>, bool)>) -> Seq<Seq<char>>
    decreases es.len(),
{
    if es.len() == 0 {
        Seq::empty()
    } else {
        let rest = listed_entries(es.drop_last());
        let (n, is_dir) = es.last();
        if n == "domain.rs"@ || n == "port.rs"@ || n == "mod.rs"@ {
            rest
        } else if is_dir {
            rest.push(n + "/"@)
        } else if crate::paths::extension_of(n) == Some("rs"@) {
            rest.push(n)
        } else {
            rest
        }
    }
}

} // verus!
