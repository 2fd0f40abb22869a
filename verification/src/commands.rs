//! The commands of the `viontin` command line: their signatures, and the decisions
//! they make between reading and writing files or running cargo.
use vstd::prelude::*;
use crate::text;
use crate::cli::exit::ExitCode;
use crate::arch::{Say, SayView, say_views};
use crate::paths;

verus! {

// ───────────────────────── the commands ─────────────────────────

pub struct AddCommand;

pub struct CheckCommand;

pub struct DevCommand;

pub struct InspectCommand;

pub struct NewCommand;

pub struct InitCommand;

pub struct InstallCommand;

pub struct SearchCommand;

pub struct UninstallCommand;

pub struct RunCommand;

pub struct TestCommand;

pub struct BuildCommand;

impl AddCommand {
    pub fn signature(&self) -> (r: &'static str)
        ensures
            r@ == "add {package} {--path} {--git}"@,
    {
        "add {package} {--path} {--git}"
    }

    pub fn description(&self) -> (r: &'static str)
        ensures
            r@ == "Add a Rust dependency to your project"@,
    {
        "Add a Rust dependency to your project"
    }
}

impl CheckCommand {
    pub fn signature(&self) -> (r: &'static str)
        ensures
            r@ == "check {--arch}"@,
    {
        "check {--arch}"
    }

    pub fn description(&self) -> (r: &'static str)
        ensures
            r@ == "Type-check the project, or verify architecture boundaries with --arch"@,
    {
        "Type-check the project, or verify architecture boundaries with --arch"
    }
}

impl DevCommand {
    pub fn signature(&self) -> (r: &'static str)
        ensures
            r@ == "dev {--port=3000}"@,
    {
        "dev {--port=3000}"
    }

    pub fn description(&self) -> (r: &'static str)
        ensures
            r@ == "Run the project in development mode with file watching"@,
    {
        "Run the project in development mode with file watching"
    }
}

impl InspectCommand {
    pub fn signature(&self) -> (r: &'static str)
        ensures
            r@
                == "inspect {--models} {--routes} {--commands} {--events} {--jobs} {--mail} {--notifications} {--queries} {--domains}"@,
    {
        "inspect {--models} {--routes} {--commands} {--events} {--jobs} {--mail} {--notifications} {--queries} {--domains}"
    }

    pub fn description(&self) -> (r: &'static str)
        ensures
            r@ == "Show project structure and exports"@,
    {
        "Show project structure and exports"
    }
}

impl NewCommand {
    pub fn signature(&self) -> (r: &'static str)
        ensures
            r@ == "new {name} {--with} {--force}"@,
    {
        "new {name} {--with} {--force}"
    }

    pub fn description(&self) -> (r: &'static str)
        ensures
            r@ == "Scaffold a new Rust project"@,
    {
        "Scaffold a new Rust project"
    }
}

impl InitCommand {
    pub fn signature(&self) -> (r: &'static str)
        ensures
            r@ == "init {--lib} {--name}"@,
    {
        "init {--lib} {--name}"
    }

    pub fn description(&self) -> (r: &'static str)
        ensures
            r@ == "Initialize a Rust project in the current directory"@,
    {
        "Initialize a Rust project in the current directory"
    }
}

impl InstallCommand {
    pub fn signature(&self) -> (r: &'static str)
        ensures
            r@ == "install {crate}"@,
    {
        "install {crate}"
    }

    pub fn description(&self) -> (r: &'static str)
        ensures
            r@ == "Install a Rust binary crate"@,
    {
        "Install a Rust binary crate"
    }
}

impl SearchCommand {
    pub fn signature(&self) -> (r: &'static str)
        ensures
            r@ == "search {query}"@,
    {
        "search {query}"
    }

    pub fn description(&self) -> (r: &'static str)
        ensures
            r@ == "Search crates.io"@,
    {
        "Search crates.io"
    }
}

impl UninstallCommand {
    pub fn signature(&self) -> (r: &'static str)
        ensures
            r@ == "uninstall {crate}"@,
    {
        "uninstall {crate}"
    }

    pub fn description(&self) -> (r: &'static str)
        ensures
            r@ == "Uninstall a Rust binary crate"@,
    {
        "Uninstall a Rust binary crate"
    }
}

impl RunCommand {
    pub fn signature(&self) -> (r: &'static str)
        ensures
            r@ == "run {command} {args*}"@,
    {
        "run {command} {args*}"
    }

    pub fn description(&self) -> (r: &'static str)
        ensures
            r@ == "Run a project command"@,
    {
        "Run a project command"
    }
}

impl TestCommand {
    pub fn signature(&self) -> (r: &'static str)
        ensures
            r@ == "test {--filter} {--watch} {--no-run}"@,
    {
        "test {--filter} {--watch} {--no-run}"
    }

    pub fn description(&self) -> (r: &'static str)
        ensures
            r@ == "Run tests with industry-standard TUI output"@,
    {
        "Run tests with industry-standard TUI output"
    }
}

impl BuildCommand {
    pub fn signature(&self) -> (r: &'static str)
        ensures
            r@ == "build {--release}"@,
    {
        "build {--release}"
    }

    pub fn description(&self) -> (r: &'static str)
        ensures
            r@ == "Build the project with cargo"@,
    {
        "Build the project with cargo"
    }
}

// ───────────────────────── `add` ─────────────────────────

/// A package name and the version after its `@`, if any.
pub open spec fn package_and_version(raw: Seq<char>) -> (Seq<char>, Option<Seq<char>>) {
    match text::find_spec(raw, '@') {
        Some(k) => (raw.take(k), Some(raw.skip(k + 1))),
        None => (raw, None),
    }
}

/// Splits `name@version`.
pub fn split_package(raw: &str) -> (r: (String, Option<String>))
    ensures
        (r.0@, match r.1 {
            Some(v) => Some(v@),
            None => None,
        }) == package_and_version(raw@),
{
    let cs = text::chars_of(raw);
    match text::find_char_spec(cs.as_slice(), '@') {
        Some(k) => {
            let n = cs.len();
            let a = text::sub_string(cs.as_slice(), 0, k);
            let b = text::sub_string(cs.as_slice(), k + 1, n);
            proof {
                assert(a@ =~= raw@.take(k as int));
                assert(b@ =~= raw@.skip(k + 1));
            }
            (a, Some(b))
        },
        None => (text::owned(raw), None),
    }
}

/// A package of the framework, with its directory in the repository.
#[derive(Debug, Clone, Copy)]
pub struct Pkg {
    pub name: &'static str,
    pub dir: &'static str,
    pub features: &'static [&'static str],
    pub desc: &'static str,
}

/// The packages of the framework.
pub fn packages() -> (r: Vec<Pkg>)
    ensures
        r@.len() == 5,
        r@[0].name@ == "viontin"@,
        r@[1].name@ == "viontin-framework"@,
        r@[2].name@ == "viontin-tui"@,
        r@[3].name@ == "viontin-orm"@,
        r@[4].name@ == "viontin-gems"@,
{
    let mut v: Vec<Pkg> = Vec::new();
    v.push(Pkg { name: "viontin", dir: "crates/viontin", features: &[], desc: "Unified facade" });
    v.push(
        Pkg {
            name: "viontin-framework",
            dir: "crates/framework",
            features: &[],
            desc: "Runtime implementations with types & traits",
        },
    );
    v.push(Pkg { name: "viontin-tui", dir: "crates/tui", features: &["prompts"], desc: "CLI toolkit" });
    v.push(
        Pkg {
            name: "viontin-orm",
            dir: "../orm/crates/viontin-orm",
            features: &[],
            desc: "Multi-driver ORM",
        },
    );
    v.push(
        Pkg {
            name: "viontin-gems",
            dir: "../gems/crates/viontin-gems",
            features: &[],
            desc: "Plugin system",
        },
    );
    v
}

/// Where a dependency comes from.
#[derive(Debug, Clone)]
pub enum DepSource {
    Path(String),
    Git(String),
    Version(String),
    /// A package of the framework: its path relative to the project, and its features.
    Local(String, Vec<String>),
    Any,
}

/// Where `add` takes a dependency from: an explicit path, else a git URL, else a
/// version (`name@version`), else the framework's own copy of a known package
/// (its relative path and features, where the framework was found), else crates.io.
pub open spec fn source_choice(
    path: Option<String>,
    git: Option<String>,
    version: Option<String>,
    local: Option<(String, Vec<String>)>,
) -> DepSource {
    match path {
        Some(p) => DepSource::Path(p),
        None => match git {
            Some(g) => DepSource::Git(g),
            None => match version {
                Some(v) => DepSource::Version(v),
                None => match local {
                    Some((rel, fs)) => DepSource::Local(rel, fs),
                    None => DepSource::Any,
                },
            },
        },
    }
}

pub fn choose_source(
    path: Option<String>,
    git: Option<String>,
    version: Option<String>,
    local: Option<(String, Vec<String>)>,
) -> (r: DepSource)
    ensures
        r == source_choice(path, git, version, local),
{
    match path {
        Some(p) => DepSource::Path(p),
        None => match git {
            Some(g) => DepSource::Git(g),
            None => match version {
                Some(v) => DepSource::Version(v),
                None => match local {
                    Some((rel, fs)) => DepSource::Local(rel, fs),
                    None => DepSource::Any,
                },
            },
        },
    }
}

/// The known package of that name, if there is one.
pub fn find_package(name: &str) -> (r: Option<Pkg>)
    ensures
        match r {
            Some(p) => p.name@ == name@,
            None => forall|i: int| 0 <= i < packages_spec().len() ==> packages_spec()[i] != name@,
        },
{
    let all = packages();
    let mut i: usize = 0;
    while i < all.len()
        invariant
            i <= all@.len(),
            all@.len() == 5,
            all@[0].name@ == "viontin"@,
            all@[1].name@ == "viontin-framework"@,
            all@[2].name@ == "viontin-tui"@,
            all@[3].name@ == "viontin-orm"@,
            all@[4].name@ == "viontin-gems"@,
            forall|j: int| 0 <= j < i ==> all@[j].name@ != name@,
        decreases all.len() - i,
    {
        if text::str_eq(all[i].name, name) {
            return Some(all[i]);
        }
        i += 1;
    }
    proof {
        assert forall|j: int| 0 <= j < packages_spec().len() implies packages_spec()[j] != name@ by {
            assert(all@[j].name@ != name@);
        }
    }
    None
}

/// The names of the known packages.
pub open spec fn packages_spec() -> Seq<Seq<char>> {
    seq!["viontin"@, "viontin-framework"@, "viontin-tui"@, "viontin-orm"@, "viontin-gems"@]
}

/// `"a", "b"` for features `a` and `b`.
pub open spec fn quoted_list(fs: Seq<Seq<char>>) -> Seq<char>
    decreases fs.len(),
{
    if fs.len() == 0 {
        Seq::empty()
    } else if fs.len() == 1 {
        seq!['"'] + fs[0] + seq!['"']
    } else {
        quoted_list(fs.drop_last()) + ", "@ + seq!['"'] + fs.last() + seq!['"']
    }
}

/// The line of `Cargo.toml` for a dependency.
pub open spec fn dep_line_spec(package: Seq<char>, source: DepSource) -> Seq<char> {
    match source {
        DepSource::Path(p) => package + " = { path = \""@ + p@ + "\" }"@,
        DepSource::Git(u) => package + " = { git = \""@ + u@ + "\" }"@,
        DepSource::Version(v) => package + " = \"^"@ + v@ + "\""@,
        DepSource::Local(rel, fs) => if fs@.len() == 0 {
            package + " = { path = \""@ + rel@ + "\" }"@
        } else {
            package + " = { path = \""@ + rel@ + "\", features = ["@ + quoted_list(
                text::str_views(fs@),
            ) + "] }"@
        },
        DepSource::Any => package + " = \"*\""@,
    }
}

fn quote_features(fs: &Vec<String>) -> (r: String)
    ensures
        r@ == quoted_list(text::str_views(fs@)),
{
    let ghost fv = text::str_views(fs@);
    let mut out = text::owned("");
    let mut i: usize = 0;
    proof {
        reveal_strlit("");
        reveal_strlit("\"");
        assert(fv.take(0) =~= Seq::<Seq<char>>::empty());
    }
    while i < fs.len()
        invariant
            i <= fs@.len(),
            fv == text::str_views(fs@),
            out@ == quoted_list(fv.take(i as int)),
        decreases fs@.len() - i,
    {
        proof {
            assert(fv.take(i + 1).drop_last() =~= fv.take(i as int));
            assert(fv.take(i + 1).last() == fs@[i as int]@);
        }
        proof {
            reveal_strlit("\"");
        }
        let q = text::cat3("\"", fs[i].as_str(), "\"");
        if i == 0 {
            out = q;
            proof {
                assert(fv.take(1) =~= seq![fs@[0]@]);
            }
        } else {
            out = text::cat3(out.as_str(), ", ", q.as_str());
        }
        i += 1;
    }
    proof {
        assert(fv.take(i as int) =~= fv);
    }
    out
}

/// The line of `Cargo.toml` for a dependency.
pub fn dep_line(package: &str, source: &DepSource) -> (r: String)
    ensures
        r@ == dep_line_spec(package@, *source),
{
    proof {
        reveal_strlit("\"");
    }
    match source {
        DepSource::Path(p) => {
            let a = text::cat3(package, " = { path = \"", p.as_str());
            text::cat(a.as_str(), "\" }")
        },
        DepSource::Git(u) => {
            let a = text::cat3(package, " = { git = \"", u.as_str());
            text::cat(a.as_str(), "\" }")
        },
        DepSource::Version(v) => {
            let a = text::cat3(package, " = \"^", v.as_str());
            text::cat(a.as_str(), "\"")
        },
        DepSource::Local(rel, fs) => {
            if fs.len() == 0 {
                let a = text::cat3(package, " = { path = \"", rel.as_str());
                text::cat(a.as_str(), "\" }")
            } else {
                let q = quote_features(fs);
                let a = text::cat3(package, " = { path = \"", rel.as_str());
                let b = text::cat3(a.as_str(), "\", features = [", q.as_str());
                text::cat(b.as_str(), "] }")
            }
        },
        DepSource::Any => text::cat(package, " = \"*\""),
    }
}

/// Whether a line of `Cargo.toml` declares dependency `name`.
pub open spec fn declares(line: Seq<char>, name: Seq<char>) -> bool {
    text::starts_with(text::trim_start(line), name + " ="@)
}

/// The lines with the dependency line placed after `[dependencies]`: before the first
/// following line that is blank or opens a table (with a blank line after it), or at
/// the end followed by a blank line.
pub open spec fn insert_after_deps_spec(lines: Seq<Seq<char>>, dep: Seq<char>) -> Seq<Seq<char>> {
    insert_scan(lines, dep, 0, false, false)
}

/// What is left to emit from line `i` on, inside the dependencies table or not, and
/// whether the line was placed already.
pub open spec fn insert_scan(
    lines: Seq<Seq<char>>,
    dep: Seq<char>,
    i: int,
    in_deps: bool,
    inserted: bool,
) -> Seq<Seq<char>>
    decreases lines.len() - i,
{
    if i >= lines.len() || i < 0 {
        if inserted {
            Seq::empty()
        } else {
            seq![dep, Seq::<char>::empty()]
        }
    } else {
        let line = lines[i];
        let t = text::trim(line);
        if t == "[dependencies]"@ {
            seq![line] + insert_scan(lines, dep, i + 1, true, inserted)
        } else if in_deps && !inserted && (text::starts_with(t, seq!['[']) || t.len() == 0) {
            seq![dep, Seq::<char>::empty(), line] + insert_scan(lines, dep, i + 1, false, true)
        } else {
            seq![line] + insert_scan(lines, dep, i + 1, in_deps, inserted)
        }
    }
}

/// Places a dependency line in the `[dependencies]` table.
pub fn insert_after_deps(lines: &[String], dep_line: &str) -> (r: Vec<String>)
    ensures
        text::str_views(r@) == insert_after_deps_spec(text::str_views(lines@), dep_line@),
{
    let ghost lv = text::str_views(lines@);
    let mut out: Vec<String> = Vec::new();
    let mut in_deps = false;
    let mut inserted = false;
    let header = text::chars_of("[dependencies]");
    let mut i: usize = 0;
    while i < lines.len()
        invariant
            i <= lines@.len(),
            lv == text::str_views(lines@),
            header@ == "[dependencies]"@,
            insert_after_deps_spec(lv, dep_line@) == text::str_views(out@) + insert_scan(
                lv,
                dep_line@,
                i as int,
                in_deps,
                inserted,
            ),
        decreases lines@.len() - i,
    {
        let line = lines[i].as_str();
        proof {
            assert(lv[i as int] == line@);
        }
        let lc = text::chars_of(line);
        let t = text::trim_exec(lc.as_slice());
        let ghost before = text::str_views(out@);
        if text::chars_eq(t.as_slice(), header.as_slice()) {
            let s = text::owned(line);
            proof {
                text::lemma_str_views_push(out@, s);
                assert(before.push(s@) + insert_scan(lv, dep_line@, i + 1, true, inserted) =~= before
                    + (seq![line@] + insert_scan(lv, dep_line@, i + 1, true, inserted)));
            }
            out.push(s);
            in_deps = true;
        } else if in_deps && !inserted && ((t.len() > 0 && t[0] == '[') || t.len() == 0) {
            let d = text::owned(dep_line);
            let e = text::owned("");
            let s = text::owned(line);
            proof {
                reveal_strlit("");
                assert(e@ =~= Seq::<char>::empty());
                if t@.len() > 0 && t@[0] == '[' {
                    assert(t@.subrange(0, 1) =~= seq!['[']);
                    assert(text::starts_with(t@, seq!['[']));
                }
                text::lemma_str_views_push(out@, d);
                text::lemma_str_views_push(out@.push(d), e);
                text::lemma_str_views_push(out@.push(d).push(e), s);
                assert(before.push(d@).push(e@).push(s@) + insert_scan(lv, dep_line@, i + 1, false, true)
                    =~= before + (seq![dep_line@, Seq::<char>::empty(), line@] + insert_scan(
                    lv,
                    dep_line@,
                    i + 1,
                    false,
                    true,
                )));
            }
            out.push(d);
            out.push(e);
            out.push(s);
            in_deps = false;
            inserted = true;
        } else {
            let s = text::owned(line);
            proof {
                if in_deps && !inserted && text::starts_with(t@, seq!['[']) {
                    assert(t@.subrange(0, 1)[0] == t@[0]);
                    assert(t@[0] == '[');
                }
                text::lemma_str_views_push(out@, s);
                assert(before.push(s@) + insert_scan(lv, dep_line@, i + 1, in_deps, inserted)
                    =~= before + (seq![line@] + insert_scan(lv, dep_line@, i + 1, in_deps, inserted)));
            }
            out.push(s);
        }
        i += 1;
    }
    if !inserted {
        let d = text::owned(dep_line);
        let e = text::owned("");
        proof {
            reveal_strlit("");
            assert(e@ =~= Seq::<char>::empty());
            text::lemma_str_views_push(out@, d);
            text::lemma_str_views_push(out@.push(d), e);
            assert(text::str_views(out@).push(d@).push(e@) =~= text::str_views(out@) + seq![
                dep_line@,
                Seq::<char>::empty(),
            ]);
        }
        out.push(d);
        out.push(e);
    } else {
        proof {
            assert(text::str_views(out@) + Seq::<Seq<char>>::empty() =~= text::str_views(out@));
        }
    }
    out
}

/// The lines of `Cargo.toml` with a dependency written in: each line that declares it
/// replaced, or, where none does, the line placed after `[dependencies]`.
pub open spec fn with_dependency(lines: Seq<Seq<char>>, dep: Seq<char>, name: Seq<char>) -> Seq<Seq<char>> {
    if exists|i: int| 0 <= i < lines.len() && declares(#[trigger] lines[i], name) {
        replaced_lines(lines, dep, name)
    } else {
        insert_after_deps_spec(lines, dep)
    }
}

/// The lines with each one that declares `name` replaced by `dep`.
pub open spec fn replaced_lines(lines: Seq<Seq<char>>, dep: Seq<char>, name: Seq<char>) -> Seq<Seq<char>>
    decreases lines.len(),
{
    if lines.len() == 0 {
        Seq::empty()
    } else {
        replaced_lines(lines.drop_last(), dep, name).push(
            if declares(lines.last(), name) {
                dep
            } else {
                lines.last()
            },
        )
    }
}

/// The lines of `Cargo.toml` with a dependency written in, and whether it replaced one.
pub fn write_dep_lines(lines: &[String], dep_line: &str, name: &str) -> (r: (Vec<String>, bool))
    ensures
        text::str_views(r.0@) == with_dependency(text::str_views(lines@), dep_line@, name@),
        r.1 == exists|i: int|
            0 <= i < lines@.len() && declares(#[trigger] text::str_views(lines@)[i], name@),
{
    let ghost lv = text::str_views(lines@);
    let prefix = text::cat(name, " =");
    let pc = text::chars_of(prefix.as_str());
    let mut exists = false;
    let mut i: usize = 0;
    while i < lines.len()
        invariant
            i <= lines@.len(),
            lv == text::str_views(lines@),
            pc@ == name@ + " ="@,
            exists == exists|j: int| 0 <= j < i && declares(#[trigger] lv[j], name@),
        decreases lines@.len() - i,
    {
        let lc = text::chars_of(lines[i].as_str());
        let t = text::trim_start_exec(lc.as_slice());
        proof {
            assert(lv[i as int] == lines@[i as int]@);
        }
        if text::starts_with_exec(t.as_slice(), pc.as_slice()) {
            exists = true;
        }
        i += 1;
    }
    if exists {
        let mut out: Vec<String> = Vec::new();
        let mut k: usize = 0;
        proof {
            assert(lv.take(0) =~= Seq::<Seq<char>>::empty());
        }
        while k < lines.len()
            invariant
                k <= lines@.len(),
                lv == text::str_views(lines@),
                pc@ == name@ + " ="@,
                text::str_views(out@) == replaced_lines(lv.take(k as int), dep_line@, name@),
            decreases lines@.len() - k,
        {
            let lc = text::chars_of(lines[k].as_str());
            let t = text::trim_start_exec(lc.as_slice());
            let s = if text::starts_with_exec(t.as_slice(), pc.as_slice()) {
                text::owned(dep_line)
            } else {
                text::owned(lines[k].as_str())
            };
            proof {
                assert(lv[k as int] == lines@[k as int]@);
                text::lemma_str_views_push(out@, s);
                assert(lv.take(k + 1).drop_last() =~= lv.take(k as int));
                assert(lv.take(k + 1).last() == lines@[k as int]@);
            }
            out.push(s);
            k += 1;
        }
        proof {
            assert(lv.take(lines@.len() as int) =~= lv);
        }
        (out, true)
    } else {
        (insert_after_deps(lines, dep_line), false)
    }
}

/// The lines joined with `\n`.
pub open spec fn joined_lines(lines: Seq<Seq<char>>) -> Seq<char>
    decreases lines.len(),
{
    if lines.len() == 0 {
        Seq::empty()
    } else if lines.len() == 1 {
        lines[0]
    } else {
        joined_lines(lines.drop_last()) + seq!['\n'] + lines.last()
    }
}

/// The lines joined with `\n`.
pub fn join_lines(lines: &[String]) -> (r: String)
    ensures
        r@ == joined_lines(text::str_views(lines@)),
{
    let ghost lv = text::str_views(lines@);
    let mut out = text::owned("");
    let mut i: usize = 0;
    proof {
        reveal_strlit("");
        reveal_strlit("\n");
        assert(lv.take(0) =~= Seq::<Seq<char>>::empty());
    }
    while i < lines.len()
        invariant
            i <= lines@.len(),
            lv == text::str_views(lines@),
            out@ == joined_lines(lv.take(i as int)),
        decreases lines@.len() - i,
    {
        proof {
            assert(lv.take(i + 1).drop_last() =~= lv.take(i as int));
            assert(lv.take(i + 1).last() == lines@[i as int]@);
        }
        if i == 0 {
            out = text::owned(lines[i].as_str());
            proof {
                assert(lv.take(1) =~= seq![lines@[0]@]);
            }
        } else {
            proof {
                reveal_strlit("\n");
            }
            out = text::cat3(out.as_str(), "\n", lines[i].as_str());
        }
        i += 1;
    }
    proof {
        assert(lv.take(i as int) =~= lv);
    }
    out
}

/// The path from `from` to `to` by their components: `..` for each component of
/// `from` past their common start, then the rest of `to`.
pub open spec fn relative_path_spec(from: Seq<char>, to: Seq<char>) -> Seq<char> {
    let f = paths::components(from);
    let t = paths::components(to);
    let k = common_len(f, t, 0);
    paths::push_all(paths::push_all(Seq::empty(), parents((f.len() - k) as nat)), t.skip(k))
}

/// `n` parent components.
pub open spec fn parents(n: nat) -> Seq<paths::Comp>
    decreases n,
{
    if n == 0 {
        Seq::empty()
    } else {
        parents((n - 1) as nat).push(paths::Comp::Parent)
    }
}

/// How many components two paths share at their start, counting from `i`.
pub open spec fn common_len(a: Seq<paths::Comp>, b: Seq<paths::Comp>, i: int) -> int
    decreases a.len() - i,
{
    if 0 <= i < a.len() && i < b.len() && a[i] == b[i] {
        common_len(a, b, i + 1)
    } else {
        i
    }
}

/// The path from `from` to `to`.
pub fn relative_path(from: &str, to: &str) -> (r: String)
    ensures
        r@ == relative_path_spec(from@, to@),
{
    let f = paths::path_components(from);
    let t = paths::path_components(to);
    let ghost fv = paths::part_views(f@);
    let ghost tv = paths::part_views(t@);
    let mut k: usize = 0;
    while k < f.len() && k < t.len() && paths::same_part(&f[k], &t[k])
        invariant
            k <= f@.len(),
            k <= t@.len(),
            fv == paths::part_views(f@),
            tv == paths::part_views(t@),
            common_len(fv, tv, 0) == common_len(fv, tv, k as int),
        decreases f@.len() - k,
    {
        proof {
            assert(fv[k as int] == f@[k as int]@);
            assert(tv[k as int] == t@[k as int]@);
        }
        k += 1;
    }
    proof {
        if k < f@.len() && k < t@.len() {
            assert(fv[k as int] == f@[k as int]@);
            assert(tv[k as int] == t@[k as int]@);
        }
    }
    let mut ups: Vec<paths::PathPart> = Vec::new();
    let mut j: usize = k;
    proof {
        assert(paths::part_views(ups@) =~= parents(0));
    }
    while j < f.len()
        invariant
            k <= j <= f@.len(),
            paths::part_views(ups@) == parents((j - k) as nat),
        decreases f@.len() - j,
    {
        proof {
            assert(paths::part_views(ups@.push(paths::PathPart::Parent)) =~= paths::part_views(
                ups@,
            ).push(paths::Comp::Parent));
        }
        ups.push(paths::PathPart::Parent);
        j += 1;
    }
    let mut out: Vec<char> = Vec::new();
    paths::push_parts(&mut out, &ups, 0);
    paths::push_parts(&mut out, &t, k);
    proof {
        assert(paths::part_views(ups@).skip(0) =~= paths::part_views(ups@));
    }
    text::string_of(out.as_slice())
}

// ───────────────────────── `new` and `init` ─────────────────────────

/// The directories `new --with a,b` creates: the comma-separated items, trimmed,
/// without empty ones.
pub open spec fn with_dirs_spec(pieces: Seq<Seq<char>>) -> Seq<Seq<char>>
    decreases pieces.len(),
{
    if pieces.len() == 0 {
        Seq::empty()
    } else {
        let rest = with_dirs_spec(pieces.drop_last());
        let t = text::trim(pieces.last());
        if t.len() > 0 {
            rest.push(t)
        } else {
            rest
        }
    }
}

/// The directories `new --with` asks for.
pub fn with_dirs(with: &str) -> (r: Vec<String>)
    ensures
        text::str_views(r@) == with_dirs_spec(text::split_char(with@, ',')),
{
    let cs = text::chars_of(with);
    let pieces = text::split_char_exec(cs.as_slice(), ',');
    let ghost pv = text::views(pieces@);
    let mut out: Vec<String> = Vec::new();
    let mut i: usize = 0;
    proof {
        assert(pv.take(0) =~= Seq::<Seq<char>>::empty());
    }
    while i < pieces.len()
        invariant
            i <= pieces@.len(),
            pv == text::views(pieces@),
            text::str_views(out@) == with_dirs_spec(pv.take(i as int)),
        decreases pieces@.len() - i,
    {
        proof {
            assert(pv.take(i + 1).drop_last() =~= pv.take(i as int));
            assert(pv.take(i + 1).last() == pieces@[i as int]@);
        }
        let t = text::trim_exec(pieces[i].as_slice());
        if t.len() > 0 {
            let s = text::string_of(t.as_slice());
            proof {
                text::lemma_str_views_push(out@, s);
            }
            out.push(s);
        }
        i += 1;
    }
    proof {
        assert(pv.take(i as int) =~= pv);
    }
    out
}

/// The arguments of `cargo init`: `--lib` if asked, then `--name` and the name.
pub fn init_args(is_lib: bool, name: Option<&str>) -> (r: Vec<String>)
    ensures
        text::str_views(r@) == seq!["init"@] + (if is_lib {
            seq!["--lib"@]
        } else {
            Seq::<Seq<char>>::empty()
        }) + match name {
            Some(n) => seq!["--name"@, n@],
            None => Seq::<Seq<char>>::empty(),
        },
{
    let mut out: Vec<String> = Vec::new();
    let a = text::owned("init");
    proof {
        text::lemma_str_views_push(out@, a);
    }
    out.push(a);
    if is_lib {
        let b = text::owned("--lib");
        proof {
            text::lemma_str_views_push(out@, b);
        }
        out.push(b);
    }
    match name {
        Some(n) => {
            let c = text::owned("--name");
            proof {
                text::lemma_str_views_push(out@, c);
            }
            out.push(c);
            let d = text::owned(n);
            proof {
                text::lemma_str_views_push(out@, d);
            }
            out.push(d);
        },
        None => {},
    }
    proof {
        assert(text::str_views(out@) =~= seq!["init"@] + (if is_lib {
            seq!["--lib"@]
        } else {
            Seq::<Seq<char>>::empty()
        }) + match name {
            Some(n) => seq!["--name"@, n@],
            None => Seq::<Seq<char>>::empty(),
        });
    }
    out
}

// ───────────────────────── `test` ─────────────────────────

/// The arguments of `cargo test`: `--no-run` if asked, then `--` and the filter.
pub fn test_args(no_run: bool, filter: Option<&str>) -> (r: Vec<String>)
    ensures
        text::str_views(r@) == seq!["test"@] + (if no_run {
            seq!["--no-run"@]
        } else {
            Seq::<Seq<char>>::empty()
        }) + match filter {
            Some(f) => seq!["--"@, f@],
            None => Seq::<Seq<char>>::empty(),
        },
{
    let mut out: Vec<String> = Vec::new();
    let a = text::owned("test");
    proof {
        text::lemma_str_views_push(out@, a);
    }
    out.push(a);
    if no_run {
        let b = text::owned("--no-run");
        proof {
            text::lemma_str_views_push(out@, b);
        }
        out.push(b);
    }
    match filter {
        Some(f) => {
            let c = text::owned("--");
            proof {
                text::lemma_str_views_push(out@, c);
            }
            out.push(c);
            let d = text::owned(f);
            proof {
                text::lemma_str_views_push(out@, d);
            }
            out.push(d);
        },
        None => {},
    }
    proof {
        assert(text::str_views(out@) =~= seq!["test"@] + (if no_run {
            seq!["--no-run"@]
        } else {
            Seq::<Seq<char>>::empty()
        }) + match filter {
            Some(f) => seq!["--"@, f@],
            None => Seq::<Seq<char>>::empty(),
        });
    }
    out
}

pub open spec fn running_pattern() -> Seq<char> {
    "^running\\s+(\\d+)"@
}

pub open spec fn result_pattern() -> Seq<char> {
    "^test\\s+(.+?)\\s+\\.\\.\\.\\s+(\\w+)"@
}

/// How a test ended.
#[derive(Debug, Clone, Copy, PartialEq, Eq, Structural)]
pub enum TestStatus {
    Passed,
    Failed,
    Skipped,
}

/// The outcome a status word stands for: `ok` passes, `FAILED` fails, anything
/// else is skipped.
pub open spec fn status_of(word: Seq<char>) -> TestStatus {
    if word == "ok"@ {
        TestStatus::Passed
    } else if word == "FAILED"@ {
        TestStatus::Failed
    } else {
        TestStatus::Skipped
    }
}

/// A test's suite and name: the parts before and after its last `::`, or `test` and
/// the whole name.
pub open spec fn suite_and_name(full: Seq<char>) -> (Seq<char>, Seq<char>) {
    match last_sep(full, full.len() as int) {
        Some(k) => (full.take(k), full.skip(k + 2)),
        None => ("test"@, full),
    }
}

/// The last position where `::` starts within `s[..i+1]`.
pub open spec fn last_sep(s: Seq<char>, i: int) -> Option<int>
    decreases i + 1,
{
    if i < 0 {
        None
    } else if text::occurs_at(s, "::"@, i) {
        Some(i)
    } else {
        last_sep(s, i - 1)
    }
}

/// Whether a line of cargo's output shows a failure outside a test result.
pub open spec fn failure_line(line: Seq<char>) -> bool {
    text::contains_sub(line, "error["@) || text::contains_sub(line, "error:"@)
        || text::contains_sub(line, "aborting"@) || text::starts_with(line, "----"@)
        || text::starts_with(line, "thread '"@)
}

/// What a test run gathered from cargo's output.
#[derive(Debug, Clone)]
pub struct TestTally {
    /// Each result, as suite, name and status, in the order reported.
    pub results: Vec<(String, String, TestStatus)>,
    pub build_failed: bool,
}

pub open spec fn result_views(v: Seq<(String, String, TestStatus)>) -> Seq<(Seq<char>, Seq<char>, TestStatus)> {
    v.map_values(|r: (String, String, TestStatus)| (r.0@, r.1@, r.2))
}

/// The results and failure that a line adds, given what came before.
pub open spec fn tally_line(
    results: Seq<(Seq<char>, Seq<char>, TestStatus)>,
    failed: bool,
    line: Seq<char>,
) -> (Seq<(Seq<char>, Seq<char>, TestStatus)>, bool) {
    if crate::project::regex_capture(running_pattern(), line, 0) is Some {
        (results, failed)
    } else {
        match (
            crate::project::regex_capture(result_pattern(), line, 1),
            crate::project::regex_capture(result_pattern(), line, 2),
        ) {
            (Some(full), Some(word)) => {
                let (suite, name) = suite_and_name(full);
                (results.push((suite, name, status_of(word))), failed)
            },
            _ => (results, failed || failure_line(line)),
        }
    }
}

fn last_sep_exec(s: &[char]) -> (r: Option<usize>)
    ensures
        match r {
            Some(k) => last_sep(s@, s@.len() as int) == Some(k as int) && k + 2 <= s@.len(),
            None => last_sep(s@, s@.len() as int) is None,
        },
{
    let sep = vec![':', ':'];
    proof {
        reveal_strlit("::");
        assert(sep@ =~= "::"@);
    }
    let n = s.len();
    let mut j: usize = n;
    loop
        invariant
            j <= n,
            n == s@.len(),
            sep@ == "::"@,
            "::"@.len() == 2,
            last_sep(s@, n as int) == last_sep(s@, j as int),
        decreases j,
    {
        if text::occurs_at_exec(s, sep.as_slice(), j) {
            return Some(j);
        }
        if j == 0 {
            assert(last_sep(s@, -1) is None);
            return None;
        }
        j -= 1;
    }
}

impl TestTally {
    pub fn new() -> (r: TestTally)
        ensures
            r.results@.len() == 0,
            !r.build_failed,
    {
        TestTally { results: Vec::new(), build_failed: false }
    }

    /// Takes in a line of cargo's output.
    pub fn feed(&mut self, line: &str)
        ensures
            (result_views(final(self).results@), final(self).build_failed) == tally_line(
                result_views(old(self).results@),
                old(self).build_failed,
                line@,
            ),
    {
        let running = crate::project::first_capture("^running\\s+(\\d+)", line, 0);
        if running.is_some() {
            return;
        }
        let full = crate::project::first_capture("^test\\s+(.+?)\\s+\\.\\.\\.\\s+(\\w+)", line, 1);
        let word = crate::project::first_capture("^test\\s+(.+?)\\s+\\.\\.\\.\\s+(\\w+)", line, 2);
        match (full, word) {
            (Some(f), Some(w)) => {
                let fc = text::chars_of(f.as_str());
                let (suite, name) = match last_sep_exec(fc.as_slice()) {
                    Some(k) => {
                        let n = fc.len();
                        let a = text::sub_string(fc.as_slice(), 0, k);
                        let b = text::sub_string(fc.as_slice(), k + 2, n);
                        proof {
                            assert(a@ =~= f@.take(k as int));
                            assert(b@ =~= f@.skip(k + 2));
                        }
                        (a, b)
                    },
                    None => (text::owned("test"), f),
                };
                let status = if text::str_eq(w.as_str(), "ok") {
                    TestStatus::Passed
                } else if text::str_eq(w.as_str(), "FAILED") {
                    TestStatus::Failed
                } else {
                    TestStatus::Skipped
                };
                let entry = (suite, name, status);
                proof {
                    assert(result_views(self.results@.push(entry)) =~= result_views(self.results@).push(
                        (entry.0@, entry.1@, status),
                    ));
                }
                self.results.push(entry);
            },
            _ => {
                let lc = text::chars_of(line);
                let a = text::chars_of("error[");
                let b = text::chars_of("error:");
                let c = text::chars_of("aborting");
                let d = text::chars_of("----");
                let e = text::chars_of("thread '");
                if text::contains_exec(lc.as_slice(), a.as_slice()) || text::contains_exec(
                    lc.as_slice(),
                    b.as_slice(),
                ) || text::contains_exec(lc.as_slice(), c.as_slice()) || text::starts_with_exec(
                    lc.as_slice(),
                    d.as_slice(),
                ) || text::starts_with_exec(lc.as_slice(), e.as_slice()) {
                    self.build_failed = true;
                }
            },
        }
    }

    /// How many results have a status.
    pub fn count(&self, status: TestStatus) -> (r: usize)
        ensures
            r == count_status(result_views(self.results@), status),
    {
        let ghost rv = result_views(self.results@);
        let mut n: usize = 0;
        let mut i: usize = 0;
        proof {
            assert(rv.take(0) =~= Seq::<(Seq<char>, Seq<char>, TestStatus)>::empty());
        }
        while i < self.results.len()
            invariant
                i <= self.results@.len(),
                rv == result_views(self.results@),
                n == count_status(rv.take(i as int), status),
                n <= i,
            decreases self.results@.len() - i,
        {
            proof {
                assert(rv.take(i + 1).drop_last() =~= rv.take(i as int));
                assert(rv.take(i + 1).last().2 == self.results@[i as int].2);
            }
            if self.results[i].2 == status {
                n = n + 1;
            }
            i += 1;
        }
        proof {
            assert(rv.take(i as int) =~= rv);
        }
        n
    }

    /// Failure where the build failed or a test failed, success otherwise.
    pub fn exit_code(&self) -> (r: ExitCode)
        ensures
            r == if self.build_failed || count_status(result_views(self.results@), TestStatus::Failed)
                > 0 {
                ExitCode::Failure
            } else {
                ExitCode::Success
            },
    {
        if self.build_failed || self.count(TestStatus::Failed) > 0 {
            ExitCode::Failure
        } else {
            ExitCode::Success
        }
    }
}

/// How many results have a status.
pub open spec fn count_status(rs: Seq<(Seq<char>, Seq<char>, TestStatus)>, s: TestStatus) -> nat
    decreases rs.len(),
{
    if rs.len() == 0 {
        0
    } else {
        count_status(rs.drop_last(), s) + if rs.last().2 == s {
            1nat
        } else {
            0nat
        }
    }
}

// ───────────────────────── `dev` ─────────────────────────

/// Where the development loop is.
#[derive(Debug, Clone, Copy, PartialEq, Eq, Structural)]
pub enum DevState {
    /// The project is to be started.
    Start,
    /// The project runs.
    Running,
    /// The project stopped; a change is awaited.
    Idle,
}

/// What happened since the last step.
#[derive(Debug, Clone)]
pub enum DevEvent {
    /// The project was started.
    Spawned,
    /// Starting the project failed, for this reason.
    SpawnFailed(String),
    /// A Rust file changed.
    Changed(String),
    /// The project stopped, with this status code (if any).
    Exited(Option<i32>),
    /// Nothing happened within the wait.
    Quiet,
    /// The watcher stopped.
    Disconnected,
}

/// What the loop does next: the messages to show, whether to stop the running
/// project and drop pending changes, and the next state or the exit code.
#[derive(Debug)]
pub struct DevStep {
    pub messages: Vec<Say>,
    pub kill: bool,
    pub drain: bool,
    pub next: Result<DevState, ExitCode>,
}

/// `Debug` of an optional status code.
pub open spec fn code_text(code: Option<i32>) -> Seq<char> {
    match code {
        Some(c) => "Some("@ + text::signed_decimal(c as int) + ")"@,
        None => "None"@,
    }
}

/// The messages of a step, as text.
pub open spec fn dev_step_spec(state: DevState, event: DevEvent) -> (Seq<SayView>, bool, bool, Result<DevState, ExitCode>) {
    match event {
        DevEvent::SpawnFailed(e) => (
            seq![SayView::Error("Failed to start cargo: "@ + e@)],
            false,
            false,
            Err(ExitCode::Failure),
        ),
        DevEvent::Spawned => (Seq::empty(), false, false, Ok(DevState::Running)),
        DevEvent::Changed(f) => if state == DevState::Idle {
            (
                seq![SayView::Info("[change] "@ + f@ + " modified, restarting..."@)],
                false,
                false,
                Ok(DevState::Start),
            )
        } else {
            (
                seq![
                    SayView::Line(""@),
                    SayView::Info("[change] "@ + f@ + " modified, restarting..."@),
                    SayView::Line(""@),
                ],
                true,
                true,
                Ok(DevState::Start),
            )
        },
        DevEvent::Exited(code) => (
            (if code != Some(0i32) {
                seq![SayView::Error("Process exited with code "@ + code_text(code))]
            } else {
                Seq::<SayView>::empty()
            }) + seq![SayView::Info("Watching for changes..."@)],
            false,
            true,
            Ok(DevState::Idle),
        ),
        DevEvent::Quiet => (Seq::empty(), false, false, Ok(state)),
        DevEvent::Disconnected => (Seq::empty(), false, false, Err(ExitCode::Failure)),
    }
}

fn code_string(code: Option<i32>) -> (r: String)
    ensures
        r@ == code_text(code),
{
    match code {
        Some(c) => {
            let n = text::i64_to_string(c as i64);
            text::cat3("Some(", n.as_str(), ")")
        },
        None => text::owned("None"),
    }
}

/// The development loop's decision for an event in a state.
pub fn dev_step(state: DevState, event: DevEvent) -> (r: DevStep)
    ensures
        (say_views(r.messages@), r.kill, r.drain, r.next) == dev_step_spec(state, event),
{
    let mut msgs: Vec<Say> = Vec::new();
    let r = match event {
        DevEvent::SpawnFailed(e) => {
            msgs.push(Say::Error(text::cat("Failed to start cargo: ", e.as_str())));
            DevStep { messages: msgs, kill: false, drain: false, next: Err(ExitCode::Failure) }
        },
        DevEvent::Spawned => DevStep {
            messages: msgs,
            kill: false,
            drain: false,
            next: Ok(DevState::Running),
        },
        DevEvent::Changed(f) => {
            let m = text::cat3("[change] ", f.as_str(), " modified, restarting...");
            if state == DevState::Idle {
                msgs.push(Say::Info(m));
                DevStep { messages: msgs, kill: false, drain: false, next: Ok(DevState::Start) }
            } else {
                msgs.push(Say::Line(text::owned("")));
                msgs.push(Say::Info(m));
                msgs.push(Say::Line(text::owned("")));
                DevStep { messages: msgs, kill: true, drain: true, next: Ok(DevState::Start) }
            }
        },
        DevEvent::Exited(code) => {
            if code != Some(0i32) {
                let c = code_string(code);
                msgs.push(Say::Error(text::cat("Process exited with code ", c.as_str())));
            }
            msgs.push(Say::Info(text::owned("Watching for changes...")));
            DevStep { messages: msgs, kill: false, drain: true, next: Ok(DevState::Idle) }
        },
        DevEvent::Quiet => DevStep { messages: msgs, kill: false, drain: false, next: Ok(state) },
        DevEvent::Disconnected => DevStep {
            messages: msgs,
            kill: false,
            drain: false,
            next: Err(ExitCode::Failure),
        },
    };
    proof {
        assert(say_views(r.messages@) =~= dev_step_spec(state, event).0);
    }
    r
}

/// The messages `dev` shows before it starts watching.
pub fn dev_banner() -> (r: Vec<Say>)
    ensures
        say_views(r@) == seq![
            SayView::Title("Dev"@),
            SayView::Info("Watching src/ for changes..."@),
            SayView::Line(""@),
        ],
{
    let mut v: Vec<Say> = Vec::new();
    v.push(Say::Title(text::owned("Dev")));
    v.push(Say::Info(text::owned("Watching src/ for changes...")));
    v.push(Say::Line(text::owned("")));
    proof {
        assert(say_views(v@) =~= seq![
            SayView::Title("Dev"@),
            SayView::Info("Watching src/ for changes..."@),
            SayView::Line(""@),
        ]);
    }
    v
}

} // verus!
