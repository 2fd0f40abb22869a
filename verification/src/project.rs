//! The structure of a project as the command line shows it: modules, their files,
//! and what each file exports.
use vstd::prelude::*;
use crate::text;

verus! {

/// What the regular expression `pattern` captures as group `group` in its first match
/// in `text`, if it matches and the group takes part.
pub uninterp spec fn regex_capture(pattern: Seq<char>, text: Seq<char>, group: nat) -> Option<
    Seq<char>,
>;

/// `regex::Regex::new(pattern)` and `captures(text)`, then group `group`: the text of
/// that group in the first match (nothing for a pattern that does not compile).
#[verifier::external_body]
pub(crate) fn first_capture(pattern: &str, text: &str, group: usize) -> (r: Option<String>)
    ensures
        match r {
            Some(s) => regex_capture(pattern@, text@, group as nat) == Some(s@),
            None => regex_capture(pattern@, text@, group as nat) is None,
        },
{
    regex::Regex::new(pattern).ok().and_then(|re| re.captures(text)).and_then(|c| c.get(group)).map(
        |m| m.as_str().to_string(),
    )
}

#[derive(Debug, Clone, Copy, PartialEq, Eq, Structural)]
pub enum ExportKind {
    Struct,
    Function,
    Enum,
    Trait,
    Command,
}

/// An item a file makes public.
#[derive(Debug, Clone)]
pub struct Export {
    pub kind: ExportKind,
    pub name: String,
    pub _line: usize,
}

/// A source file of a module and its exports.
#[derive(Debug, Clone)]
pub struct ModuleFile {
    pub path: String,
    pub name: String,
    pub exports: Vec<Export>,
}

/// A directory of the source tree.
#[derive(Debug, Clone)]
pub struct Module {
    pub dir: String,
    pub name: String,
    pub files: Vec<ModuleFile>,
}

/// A project: its root and its modules.
#[derive(Debug, Clone)]
pub struct Project {
    pub root: String,
    pub modules: Vec<Module>,
}

pub open spec fn struct_pattern() -> Seq<char> {
    "pub\\s+struct\\s+(\\w+)"@
}

pub open spec fn fn_pattern() -> Seq<char> {
    "pub\\s+fn\\s+(\\w+)"@
}

pub open spec fn enum_pattern() -> Seq<char> {
    "pub\\s+enum\\s+(\\w+)"@
}

pub open spec fn trait_pattern() -> Seq<char> {
    "pub\\s+trait\\s+(\\w+)"@
}

pub open spec fn command_pattern() -> Seq<char> {
    "impl\\s+Command\\s+for\\s+(\\w+)"@
}

/// The export a line declares, trying struct, function, enum, trait and command
/// patterns in that order.
pub open spec fn line_export(line: Seq<char>) -> Option<(ExportKind, Seq<char>)> {
    match regex_capture(struct_pattern(), line, 1) {
        Some(n) => Some((ExportKind::Struct, n)),
        None => match regex_capture(fn_pattern(), line, 1) {
            Some(n) => Some((ExportKind::Function, n)),
            None => match regex_capture(enum_pattern(), line, 1) {
                Some(n) => Some((ExportKind::Enum, n)),
                None => match regex_capture(trait_pattern(), line, 1) {
                    Some(n) => Some((ExportKind::Trait, n)),
                    None => match regex_capture(command_pattern(), line, 1) {
                        Some(n) => Some((ExportKind::Command, n)),
                        None => None,
                    },
                },
            },
        },
    }
}

/// The exports of a list of lines, in order.
pub open spec fn lines_exports(lines: Seq<Seq<char>>) -> Seq<(ExportKind, Seq<char>)>
    decreases lines.len(),
{
    if lines.len() == 0 {
        Seq::empty()
    } else {
        let rest = lines_exports(lines.drop_last());
        match line_export(lines.last()) {
            Some(e) => rest.push(e),
            None => rest,
        }
    }
}

pub open spec fn export_views(v: Seq<Export>) -> Seq<(ExportKind, Seq<char>)> {
    v.map_values(|e: Export| (e.kind, e.name@))
}

fn line_export_exec(line: &str) -> (r: Option<(ExportKind, String)>)
    ensures
        match r {
            Some(p) => line_export(line@) == Some((p.0, p.1@)),
            None => line_export(line@) is None,
        },
{
    let pats: [&str; 5] = [
        "pub\\s+struct\\s+(\\w+)",
        "pub\\s+fn\\s+(\\w+)",
        "pub\\s+enum\\s+(\\w+)",
        "pub\\s+trait\\s+(\\w+)",
        "impl\\s+Command\\s+for\\s+(\\w+)",
    ];
    match first_capture(pats[0], line, 1) {
        Some(n) => {
            return Some((ExportKind::Struct, n));
        },
        None => {},
    }
    match first_capture(pats[1], line, 1) {
        Some(n) => {
            return Some((ExportKind::Function, n));
        },
        None => {},
    }
    match first_capture(pats[2], line, 1) {
        Some(n) => {
            return Some((ExportKind::Enum, n));
        },
        None => {},
    }
    match first_capture(pats[3], line, 1) {
        Some(n) => {
            return Some((ExportKind::Trait, n));
        },
        None => {},
    }
    match first_capture(pats[4], line, 1) {
        Some(n) => Some((ExportKind::Command, n)),
        None => None,
    }
}

/// The structs, functions, enums, traits and commands a source file declares, one per
/// line at most, in order of the lines.
pub fn extract_exports(content: &str) -> (r: Vec<Export>)
    ensures
        export_views(r@) == lines_exports(text::lines(content@)),
{
    let cs = text::chars_of(content);
    let ls = text::lines_exec(cs.as_slice());
    let ghost lv = text::lines(content@);
    let mut out: Vec<Export> = Vec::new();
    let mut i: usize = 0;
    proof {
        assert(lv.take(0) =~= Seq::<Seq<char>>::empty());
        assert(export_views(out@) =~= Seq::<(ExportKind, Seq<char>)>::empty());
    }
    while i < ls.len()
        invariant
            i <= ls@.len(),
            text::views(ls@) == lv,
            export_views(out@) == lines_exports(lv.take(i as int)),
        decreases ls@.len() - i,
    {
        let line = text::string_of(ls[i].as_slice());
        proof {
            assert(lv.take(i + 1).drop_last() =~= lv.take(i as int));
            assert(lv.take(i + 1).last() == line@);
        }
        match line_export_exec(line.as_str()) {
            Some((kind, name)) => {
                let e = Export { kind, name, _line: 0 };
                proof {
                    assert(export_views(out@.push(e)) =~= export_views(out@).push((kind, e.name@)));
                }
                out.push(e);
            },
            None => {},
        }
        i += 1;
    }
    proof {
        assert(lv.take(ls@.len() as int) =~= lv);
    }
    out
}

/// Whether a directory of the source tree is shown as a module: it has source files,
/// or it is not marked to be ignored.
pub fn shows_module(file_count: usize, ignored: bool) -> (r: bool)
    ensures
        r == (file_count > 0 || !ignored),
{
    file_count > 0 || !ignored
}

} // verus!
