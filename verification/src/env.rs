//! The application environment, and variables read from the process and from `.env` files.
use vstd::prelude::*;
use crate::text;

verus! {

/// The environment an application runs in.
#[derive(Debug, Clone, PartialEq, Eq)]
pub enum Environment {
    Local,
    Development,
    Staging,
    Production,
    Testing,
    Custom(String),
}

/// What an `Environment` is, with a custom name as text.
pub ghost enum EnvironmentView {
    Local,
    Development,
    Staging,
    Production,
    Testing,
    Custom(Seq<char>),
}

impl View for Environment {
    type V = EnvironmentView;

    open spec fn view(&self) -> EnvironmentView {
        match self {
            Environment::Local => EnvironmentView::Local,
            Environment::Development => EnvironmentView::Development,
            Environment::Staging => EnvironmentView::Staging,
            Environment::Production => EnvironmentView::Production,
            Environment::Testing => EnvironmentView::Testing,
            Environment::Custom(s) => EnvironmentView::Custom(s@),
        }
    }
}

/// The environment a name stands for: `local` and `development` both mean local.
pub open spec fn environment_named(s: Seq<char>) -> EnvironmentView {
    if s == "local"@ || s == "development"@ {
        EnvironmentView::Local
    } else if s == "staging"@ {
        EnvironmentView::Staging
    } else if s == "production"@ {
        EnvironmentView::Production
    } else if s == "testing"@ {
        EnvironmentView::Testing
    } else {
        EnvironmentView::Custom(s)
    }
}

/// The name of an environment.
pub open spec fn environment_name(e: EnvironmentView) -> Seq<char> {
    match e {
        EnvironmentView::Local => "local"@,
        EnvironmentView::Development => "development"@,
        EnvironmentView::Staging => "staging"@,
        EnvironmentView::Production => "production"@,
        EnvironmentView::Testing => "testing"@,
        EnvironmentView::Custom(s) => s,
    }
}

/// The value that the command line gives for the environment, scanning from
/// argument `i`: `--env NAME` or `--env=NAME`, whichever comes first.
pub open spec fn env_argument(args: Seq<Seq<char>>, i: int) -> Option<Seq<char>>
    decreases args.len() - i,
{
    if i < 0 || i >= args.len() {
        None
    } else if args[i] == "--env"@ && i + 1 < args.len() {
        Some(args[i + 1])
    } else if text::starts_with(args[i], "--env="@) {
        Some(args[i].skip(6))
    } else {
        env_argument(args, i + 1)
    }
}

/// The environment chosen from the command line, then `APP_ENV`, then the kind of build.
pub open spec fn detected_environment(
    args: Seq<Seq<char>>,
    app_env: Option<Seq<char>>,
    debug_build: bool,
) -> EnvironmentView {
    match env_argument(args, 0) {
        Some(name) => environment_named(name),
        None => match app_env {
            Some(name) => environment_named(name),
            None => if debug_build {
                EnvironmentView::Local
            } else {
                EnvironmentView::Production
            },
        },
    }
}

impl Environment {
    /// The environment a name stands for.
    pub fn from_str(s: &str) -> (r: Environment)
        ensures
            r@ == environment_named(s@),
    {
        if text::str_eq(s, "local") || text::str_eq(s, "development") {
            Environment::Local
        } else if text::str_eq(s, "staging") {
            Environment::Staging
        } else if text::str_eq(s, "production") {
            Environment::Production
        } else if text::str_eq(s, "testing") {
            Environment::Testing
        } else {
            Environment::Custom(text::owned(s))
        }
    }

    /// The environment given by `--env NAME` or `--env=NAME` among `args`, else by the
    /// value of `APP_ENV`, else local for a debug build and production otherwise.
    pub fn detect_from(args: &[String], app_env: Option<&str>, debug_build: bool) -> (r:
        Environment)
        ensures
            r@ == detected_environment(text::str_views(args@), opt_str_view(app_env), debug_build),
    {
        let ghost views = text::str_views(args@);
        let mut i: usize = 0;
        while i < args.len()
            invariant
                i <= args@.len(),
                views == text::str_views(args@),
                env_argument(views, 0) == env_argument(views, i as int),
            decreases args@.len() - i,
        {
            let a = args[i].as_str();
            if text::str_eq(a, "--env") && i + 1 < args.len() {
                proof {
                    reveal_strlit("--env");
                }
                return Environment::from_str(args[i + 1].as_str());
            }
            let chars = text::chars_of(a);
            let prefix = text::chars_of("--env=");
            proof {
                reveal_strlit("--env=");
            }
            if text::starts_with_exec(chars.as_slice(), prefix.as_slice()) {
                let rest = text::sub_string(chars.as_slice(), 6, chars.len());
                proof {
                    assert(rest@ =~= views[i as int].skip(6));
                }
                return Environment::from_str(rest.as_str());
            }
            i += 1;
        }
        match app_env {
            Some(v) => Environment::from_str(v),
            None => if debug_build {
                Environment::Local
            } else {
                Environment::Production
            },
        }
    }

    pub fn is_local(&self) -> (r: bool)
        ensures
            r == (self@ is Local || self@ is Development),
    {
        match self {
            Environment::Local | Environment::Development => true,
            _ => false,
        }
    }

    pub fn is_production(&self) -> (r: bool)
        ensures
            r == (self@ is Production),
    {
        match self {
            Environment::Production => true,
            _ => false,
        }
    }

    pub fn is_prod(&self) -> (r: bool)
        ensures
            r == (self@ is Production),
    {
        self.is_production()
    }

    pub fn is_testing(&self) -> (r: bool)
        ensures
            r == (self@ is Testing),
    {
        match self {
            Environment::Testing => true,
            _ => false,
        }
    }

    pub fn is_dev(&self) -> (r: bool)
        ensures
            r == (self@ is Local || self@ is Development),
    {
        match self {
            Environment::Local | Environment::Development => true,
            _ => false,
        }
    }

    /// Whether two environments are the same (`==`).
    pub fn same_as(&self, other: &Environment) -> (r: bool)
        ensures
            r == (self@ == other@),
    {
        match (self, other) {
            (Environment::Local, Environment::Local) => true,
            (Environment::Development, Environment::Development) => true,
            (Environment::Staging, Environment::Staging) => true,
            (Environment::Production, Environment::Production) => true,
            (Environment::Testing, Environment::Testing) => true,
            (Environment::Custom(a), Environment::Custom(b)) => crate::text::str_eq(a.as_str(), b.as_str()),
            _ => false,
        }
    }

    /// The environment's name.
    pub fn as_str(&self) -> (r: &str)
        ensures
            r@ == environment_name(self@),
    {
        match self {
            Environment::Local => "local",
            Environment::Development => "development",
            Environment::Staging => "staging",
            Environment::Production => "production",
            Environment::Testing => "testing",
            Environment::Custom(s) => s.as_str(),
        }
    }
}

pub open spec fn opt_str_view(o: Option<&str>) -> Option<Seq<char>> {
    match o {
        Some(s) => Some(s@),
        None => None,
    }
}

// ───────────────────────── .env files ─────────────────────────

/// A value without the pair of matching quotes (`"…"` or `'…'`) around it, if it has one.
pub open spec fn unquote(v: Seq<char>) -> Seq<char> {
    if v.len() >= 2 && ((v[0] == '"' && v.last() == '"') || (v[0] == '\'' && v.last() == '\'')) {
        v.subrange(1, v.len() - 1)
    } else {
        v
    }
}

/// A value that starts and ends with the same quote but is that quote alone; cutting the
/// quotes from it would take the range `1..0`.
pub open spec fn lone_quote(v: Seq<char>) -> bool {
    v == seq!['"'] || v == seq!['\'']
}

/// The assignment a trimmed line of a `.env` file makes, if any: blank lines and
/// `#` comments make none, nor do lines without `=`.
pub open spec fn dotenv_line(t: Seq<char>) -> Option<(Seq<char>, Seq<char>)> {
    if t.len() == 0 || t[0] == '#' {
        None
    } else {
        match text::find_spec(t, '=') {
            Some(eq) => Some((text::trim(t.take(eq)), unquote(text::trim(t.skip(eq + 1))))),
            None => None,
        }
    }
}

/// A line whose first character is `#` is a comment: it assigns nothing.
pub proof fn lemma_comment_line_assigns_nothing(t: Seq<char>)
    requires
        t.len() > 0,
        t[0] == '#',
    ensures
        dotenv_line(t) is None,
{
}

/// The assignments of a list of lines, in order.
pub open spec fn dotenv_pairs(lines: Seq<Seq<char>>) -> Seq<(Seq<char>, Seq<char>)>
    decreases lines.len(),
{
    if lines.len() == 0 {
        Seq::empty()
    } else {
        let rest = dotenv_pairs(lines.drop_last());
        match dotenv_line(text::trim(lines.last())) {
            Some(p) => rest.push(p),
            None => rest,
        }
    }
}

/// No line of the file has a lone quote for its value.
pub open spec fn dotenv_well_quoted(content: Seq<char>) -> bool {
    forall|i: int|
        0 <= i < text::lines(content).len() ==> {
            let t = text::trim(#[trigger] text::lines(content)[i]);
            match text::find_spec(t, '=') {
                Some(eq) => !(t.len() > 0 && t[0] != '#' && lone_quote(text::trim(t.skip(eq + 1)))),
                None => true,
            }
        }
}

pub open spec fn pair_views(v: Seq<(String, String)>) -> Seq<(Seq<char>, Seq<char>)> {
    v.map_values(|p: (String, String)| (p.0@, p.1@))
}

/// One trimmed line of a `.env` file.
fn parse_dotenv_line(t: &[char]) -> (r: Option<(String, String)>)
    requires
        match text::find_spec(t@, '=') {
            Some(eq) => !(t@.len() > 0 && t@[0] != '#' && lone_quote(text::trim(t@.skip(eq + 1)))),
            None => true,
        },
    ensures
        match r {
            Some(p) => dotenv_line(t@) == Some((p.0@, p.1@)),
            None => dotenv_line(t@) is None,
        },
{
    if t.len() == 0 || t[0] == '#' {
        return None;
    }
    match text::find_char_spec(t, '=') {
        Some(eq) => {
            let key_raw = text::slice_chars(t, 0, eq);
            let key = text::trim_exec(key_raw.as_slice());
            let val_raw = text::slice_chars(t, eq + 1, t.len());
            let val = text::trim_exec(val_raw.as_slice());
            proof {
                assert(key_raw@ =~= t@.take(eq as int));
                assert(val_raw@ =~= t@.skip(eq + 1));
            }
            let n = val.len();
            let quoted = n >= 2 && ((val[0] == '"' && val[n - 1] == '"') || (val[0] == '\''
                && val[n - 1] == '\''));
            let value = if quoted {
                text::sub_string(val.as_slice(), 1, n - 1)
            } else {
                text::string_of(val.as_slice())
            };
            proof {
                if quoted {
                    assert(value@ =~= unquote(val@));
                } else {
                    assert(value@ =~= unquote(val@));
                }
            }
            Some((text::string_of(key.as_slice()), value))
        },
        None => None,
    }
}

/// Whether a trimmed line is free of a lone quote for its value.
fn line_well_quoted(t: &[char]) -> (r: bool)
    ensures
        r == match text::find_spec(t@, '=') {
            Some(eq) => !(t@.len() > 0 && t@[0] != '#' && lone_quote(text::trim(t@.skip(eq + 1)))),
            None => true,
        },
{
    match text::find_char_spec(t, '=') {
        Some(eq) => {
            if t.len() == 0 || t[0] == '#' {
                return true;
            }
            let val_raw = text::slice_chars(t, eq + 1, t.len());
            let val = text::trim_exec(val_raw.as_slice());
            proof {
                assert(val_raw@ =~= t@.skip(eq + 1));
            }
            let lone = val.len() == 1 && (val[0] == '"' || val[0] == '\'');
            proof {
                if val@.len() == 1 && (val@[0] == '"' || val@[0] == '\'') {
                    if val@[0] == '"' {
                        assert(val@ =~= seq!['"']);
                    } else {
                        assert(val@ =~= seq!['\'']);
                    }
                }
            }
            !lone
        },
        None => true,
    }
}

/// A comment line (one that begins with `#` once trimmed) adds no variable to what
/// the lines before it assign, whatever it holds after the `#`.
pub proof fn lemma_comment_adds_nothing(lines: Seq<Seq<char>>, comment: Seq<char>)
    requires
        text::trim(comment).len() > 0,
        text::trim(comment)[0] == '#',
    ensures
        dotenv_pairs(lines.push(comment)) == dotenv_pairs(lines),
{
    assert(lines.push(comment).drop_last() =~= lines);
    lemma_comment_line_assigns_nothing(text::trim(comment));
}

/// Whether no line of a `.env` file has a lone quote for its value (such a
/// file is refused by `parse_dotenv` and `Env::load`).
pub fn is_well_quoted(content: &str) -> (r: bool)
    ensures
        r == dotenv_well_quoted(content@),
{
    let cs = text::chars_of(content);
    let ls = text::lines_exec(cs.as_slice());
    let ghost lv = text::lines(content@);
    let mut i: usize = 0;
    while i < ls.len()
        invariant
            i <= ls@.len(),
            text::views(ls@) == lv,
            lv == text::lines(content@),
            forall|j: int| 0 <= j < i ==> {
                let t = text::trim(#[trigger] lv[j]);
                match text::find_spec(t, '=') {
                    Some(eq) => !(t.len() > 0 && t[0] != '#' && lone_quote(text::trim(t.skip(eq + 1)))),
                    None => true,
                }
            },
        decreases ls.len() - i,
    {
        let t = text::trim_exec(ls[i].as_slice());
        proof {
            assert(text::views(ls@)[i as int] == ls@[i as int]@);
        }
        if !line_well_quoted(t.as_slice()) {
            return false;
        }
        i += 1;
    }
    true
}

/// The assignments of a `.env` file, in order of their lines.
pub fn parse_dotenv(content: &str) -> (r: Vec<(String, String)>)
    requires
        dotenv_well_quoted(content@),
    ensures
        pair_views(r@) == dotenv_pairs(text::lines(content@)),
{
    let chars = text::chars_of(content);
    let lines = text::lines_exec(chars.as_slice());
    let ghost ls = text::lines(content@);
    let mut out: Vec<(String, String)> = Vec::new();
    let mut i: usize = 0;
    proof {
        assert(ls.take(0) =~= Seq::<Seq<char>>::empty());
        assert(pair_views(out@) =~= Seq::<(Seq<char>, Seq<char>)>::empty());
    }
    while i < lines.len()
        invariant
            i <= lines@.len(),
            text::views(lines@) == ls,
            ls == text::lines(content@),
            dotenv_well_quoted(content@),
            pair_views(out@) == dotenv_pairs(ls.take(i as int)),
        decreases lines@.len() - i,
    {
        let t = text::trim_exec(lines[i].as_slice());
        proof {
            assert(ls[i as int] == lines@[i as int]@);
            assert(ls.take(i + 1).drop_last() =~= ls.take(i as int));
            assert(ls.take(i + 1).last() == ls[i as int]);
        }
        let parsed = parse_dotenv_line(t.as_slice());
        match parsed {
            Some(p) => {
                proof {
                    assert(pair_views(out@.push(p)) =~= pair_views(out@).push((p.0@, p.1@)));
                }
                out.push(p);
            },
            None => {},
        }
        i += 1;
    }
    proof {
        assert(ls.take(lines@.len() as int) =~= ls);
    }
    out
}

/// The value bound to `key` first in a list of assignments.
pub open spec fn first_binding(v: Seq<(Seq<char>, Seq<char>)>, key: Seq<char>) -> Option<Seq<char>>
    decreases v.len(),
{
    if v.len() == 0 {
        None
    } else if v[0].0 == key {
        Some(v[0].1)
    } else {
        first_binding(v.drop_first(), key)
    }
}

/// Whether the words `true`, `1`, `yes` or `on` are written.
pub open spec fn truthy(lower: Seq<char>) -> bool {
    lower == "true"@ || lower == "1"@ || lower == "yes"@ || lower == "on"@
}

/// Whether a lowercased value is one of `true`, `1`, `yes`, `on`.
pub fn is_truthy_word(lower: &str) -> (r: bool)
    ensures
        r == truthy(lower@),
{
    text::str_eq(lower, "true") || text::str_eq(lower, "1") || text::str_eq(lower, "yes")
        || text::str_eq(lower, "on")
}

/// Whether a value means true: its lowercase form is `true`, `1`, `yes` or `on`.
pub fn parse_flag(v: &str) -> (r: bool)
    ensures
        r == truthy(text::lowercase(v@)),
{
    let lower = text::to_lowercase(v);
    is_truthy_word(lower.as_str())
}

/// Variables of the process and those loaded from `.env` files.
///
/// A variable of the process wins over one of a file; among files, the first
/// assignment of a name wins.
pub struct Env {
    process: Vec<(String, String)>,
    loaded: Vec<(String, String)>,
    has_loaded: bool,
}

impl Env {
    pub closed spec fn process_view(&self) -> Seq<(Seq<char>, Seq<char>)> {
        pair_views(self.process@)
    }

    pub closed spec fn loaded_view(&self) -> Seq<(Seq<char>, Seq<char>)> {
        pair_views(self.loaded@)
    }

    pub closed spec fn was_loaded(&self) -> bool {
        self.has_loaded
    }

    /// The value of `key`: the process's, else the first one loaded.
    pub open spec fn lookup(&self, key: Seq<char>) -> Option<Seq<char>> {
        match first_binding(self.process_view(), key) {
            Some(v) => Some(v),
            None => first_binding(self.loaded_view(), key),
        }
    }

    /// Variables as the process has them, with nothing loaded yet.
    pub fn from_process(vars: Vec<(String, String)>) -> (r: Env)
        ensures
            r.process_view() == pair_views(vars@),
            r.loaded_view().len() == 0,
            !r.was_loaded(),
    {
        Env { process: vars, loaded: Vec::new(), has_loaded: false }
    }

    /// Loads the contents of a `.env` file. Its assignments are added whether or not a
    /// file was loaded before; a second load is refused with an error all the same.
    pub fn load(&mut self, content: &str) -> (r: Result<(), String>)
        requires
            dotenv_well_quoted(content@),
        ensures
            final(self).process_view() == old(self).process_view(),
            final(self).loaded_view() == old(self).loaded_view() + dotenv_pairs(
                text::lines(content@),
            ),
            final(self).was_loaded(),
            r is Ok <==> !old(self).was_loaded(),
            r matches Err(e) ==> e@ == "Env already loaded"@,
    {
        let pairs = parse_dotenv(content);
        let ghost before = pair_views(self.loaded@);
        let mut i: usize = 0;
        proof {
            assert(before + pair_views(pairs@).take(0) =~= before);
        }
        while i < pairs.len()
            invariant
                i <= pairs@.len(),
                self.process == old(self).process,
                self.has_loaded == old(self).has_loaded,
                pair_views(self.loaded@) == before + pair_views(pairs@).take(i as int),
            decreases pairs@.len() - i,
        {
            let k = text::owned(pairs[i].0.as_str());
            let v = text::owned(pairs[i].1.as_str());
            proof {
                assert(pair_views(self.loaded@.push((k, v))) =~= pair_views(self.loaded@).push(
                    (k@, v@),
                ));
                assert(pair_views(pairs@).take(i + 1) =~= pair_views(pairs@).take(i as int).push(
                    (k@, v@),
                ));
            }
            self.loaded.push((k, v));
            i += 1;
        }
        proof {
            assert(pair_views(pairs@).take(pairs@.len() as int) =~= pair_views(pairs@));
        }
        if self.has_loaded {
            Err(text::owned("Env already loaded"))
        } else {
            self.has_loaded = true;
            Ok(())
        }
    }

    fn find_in(v: &Vec<(String, String)>, key: &str) -> (r: Option<String>)
        ensures
            opt_string_view(r) == first_binding(pair_views(v@), key@),
    {
        let mut i: usize = 0;
        proof {
            assert(pair_views(v@).skip(0) =~= pair_views(v@));
        }
        while i < v.len()
            invariant
                i <= v@.len(),
                first_binding(pair_views(v@), key@) == first_binding(
                    pair_views(v@).skip(i as int),
                    key@,
                ),
            decreases v@.len() - i,
        {
            proof {
                assert(pair_views(v@).skip(i as int).drop_first() =~= pair_views(v@).skip(i + 1));
            }
            if text::str_eq(v[i].0.as_str(), key) {
                return Some(text::owned(v[i].1.as_str()));
            }
            i += 1;
        }
        proof {
            assert(pair_views(v@).skip(i as int).len() == 0);
        }
        None
    }

    /// The value of `key`, or `None` where it is missing.
    pub fn get_opt(&self, key: &str) -> (r: Option<String>)
        ensures
            opt_string_view(r) == self.lookup(key@),
    {
        match Self::find_in(&self.process, key) {
            Some(v) => Some(v),
            None => Self::find_in(&self.loaded, key),
        }
    }

    /// The value of `key`, or `default` where it is missing.
    pub fn get(&self, key: &str, default: &str) -> (r: String)
        ensures
            r@ == match self.lookup(key@) {
                Some(v) => v,
                None => default@,
            },
    {
        match self.get_opt(key) {
            Some(v) => v,
            None => text::owned(default),
        }
    }

    /// The value of `key` as an integer, or `default` where it is missing or not one.
    pub fn get_int(&self, key: &str, default: i64) -> (r: i64)
        ensures
            r == match self.lookup(key@) {
                Some(v) => match text::parse_i64_spec(v) {
                    Some(n) => n,
                    None => default as int,
                },
                None => default as int,
            },
    {
        match self.get_opt(key) {
            Some(v) => {
                let chars = text::chars_of(v.as_str());
                match text::parse_i64(chars.as_slice()) {
                    Some(n) => n,
                    None => default,
                }
            },
            None => default,
        }
    }

    /// Whether `key` is set to `true`, `1`, `yes` or `on` (in any case), or `default`
    /// where it is missing.
    pub fn get_bool(&self, key: &str, default: bool) -> (r: bool)
        ensures
            r == match self.lookup(key@) {
                Some(v) => truthy(text::lowercase(v)),
                None => default,
            },
    {
        match self.get_opt(key) {
            Some(v) => parse_flag(v.as_str()),
            None => default,
        }
    }

    /// Whether `key` is set.
    pub fn has(&self, key: &str) -> (r: bool)
        ensures
            r == self.lookup(key@) is Some,
    {
        self.get_opt(key).is_some()
    }
}

pub open spec fn opt_string_view(o: Option<String>) -> Option<Seq<char>> {
    match o {
        Some(s) => Some(s@),
        None => None,
    }
}

} // verus!
