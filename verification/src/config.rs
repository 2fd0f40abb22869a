//! Configuration: nested values read by dotted keys (`database.host`), typed
//! getters, `env:` references resolved against the environment, and an overlay
//! of `APP_*` variables.
//!
//! A table is held as a list of entries; a key names its first entry, and
//! setting a key replaces that entry or appends one. Reading the files and the
//! environment is the caller's part: the repository takes what was read.
use vstd::prelude::*;
use crate::text;

verus! {

/// What configuration reads of a floating-point number: its text as Rust
/// displays it, and its value truncated toward zero (`as i64`).
#[derive(Debug)]
pub struct FloatValue {
    pub repr: String,
    pub whole: i64,
}

/// A configuration value.
#[derive(Debug)]
pub enum ConfigValue {
    Null,
    Bool(bool),
    I64(i64),
    F64(FloatValue),
    String(String),
    Array(Vec<ConfigValue>),
    Table(Vec<(String, ConfigValue)>),
}

/// A configuration value as mathematics sees it.
pub ghost enum ValueView {
    Null,
    Bool(bool),
    Int(i64),
    Float(Seq<char>, i64),
    Str(Seq<char>),
    Array(Seq<ValueView>),
    Table(Seq<(Seq<char>, ValueView)>),
}

pub open spec fn value_view(v: ConfigValue) -> ValueView
    decreases v,
{
    match v {
        ConfigValue::Null => ValueView::Null,
        ConfigValue::Bool(b) => ValueView::Bool(b),
        ConfigValue::I64(i) => ValueView::Int(i),
        ConfigValue::F64(f) => ValueView::Float(f.repr@, f.whole),
        ConfigValue::String(s) => ValueView::Str(s@),
        ConfigValue::Array(a) => ValueView::Array(values_view(a@)),
        ConfigValue::Table(t) => ValueView::Table(entries_view(t@)),
    }
}

pub open spec fn values_view(s: Seq<ConfigValue>) -> Seq<ValueView>
    decreases s,
{
    if s.len() == 0 {
        seq![]
    } else {
        values_view(s.drop_last()).push(value_view(s.last()))
    }
}

pub open spec fn entries_view(t: Seq<(String, ConfigValue)>) -> Seq<(Seq<char>, ValueView)>
    decreases t,
{
    if t.len() == 0 {
        seq![]
    } else {
        entries_view(t.drop_last()).push((t.last().0@, value_view(t.last().1)))
    }
}

impl View for ConfigValue {
    type V = ValueView;

    open spec fn view(&self) -> ValueView {
        value_view(*self)
    }
}

pub proof fn lemma_values_view(s: Seq<ConfigValue>)
    ensures
        values_view(s).len() == s.len(),
        forall|i: int| 0 <= i < s.len() ==> #[trigger] values_view(s)[i] == value_view(s[i]),
    decreases s.len(),
{
    if s.len() > 0 {
        lemma_values_view(s.drop_last());
    }
}

pub proof fn lemma_entries_view(t: Seq<(String, ConfigValue)>)
    ensures
        entries_view(t).len() == t.len(),
        forall|i: int|
            0 <= i < t.len() ==> #[trigger] entries_view(t)[i] == (t[i].0@, value_view(t[i].1)),
    decreases t.len(),
{
    if t.len() > 0 {
        lemma_entries_view(t.drop_last());
    }
}

/// `i` is the first entry of `t` under key `k`.
pub open spec fn first_key(t: Seq<(Seq<char>, ValueView)>, k: Seq<char>, i: int) -> bool {
    0 <= i < t.len() && t[i].0 == k && forall|j: int| 0 <= j < i ==> t[j].0 != k
}

/// The value of the first entry under `k`.
pub open spec fn entry_get(t: Seq<(Seq<char>, ValueView)>, k: Seq<char>) -> Option<ValueView> {
    if exists|i: int| first_key(t, k, i) {
        Some(t[choose|i: int| first_key(t, k, i)].1)
    } else {
        None
    }
}

pub proof fn lemma_first_key_unique(t: Seq<(Seq<char>, ValueView)>, k: Seq<char>, i: int)
    requires
        first_key(t, k, i),
    ensures
        entry_get(t, k) == Some(t[i].1),
        (choose|j: int| first_key(t, k, j)) == i,
{
    let j = choose|j: int| first_key(t, k, j);
    assert(first_key(t, k, j));
    if j < i {
        assert(t[j].0 != k);
    }
    if i < j {
        assert(t[i].0 != k);
    }
}

/// The value at the path `parts` below `v`.
pub open spec fn walk(v: ValueView, parts: Seq<Seq<char>>) -> Option<ValueView>
    decreases parts.len(),
{
    if parts.len() == 0 {
        Some(v)
    } else {
        match v {
            ValueView::Table(t) => match entry_get(t, parts[0]) {
                Some(c) => walk(c, parts.drop_first()),
                None => None,
            },
            _ => None,
        }
    }
}

/// What a key reads: the entry under the whole key if there is one, else the
/// value at its dot-separated path.
pub open spec fn lookup(items: Seq<(Seq<char>, ValueView)>, key: Seq<char>) -> Option<ValueView> {
    match entry_get(items, key) {
        Some(v) => Some(v),
        None => {
            let parts = text::split_char(key, '.');
            match entry_get(items, parts[0]) {
                Some(v) => walk(v, parts.drop_first()),
                None => None,
            }
        },
    }
}

/// The entries with `k` set to `v`: its first entry replaced, or one appended.
pub open spec fn entry_set(t: Seq<(Seq<char>, ValueView)>, k: Seq<char>, v: ValueView) -> Seq<
    (Seq<char>, ValueView),
> {
    if exists|i: int| first_key(t, k, i) {
        t.update(choose|i: int| first_key(t, k, i), (k, v))
    } else {
        t.push((k, v))
    }
}

/// The index of the first entry under `key`.
fn find_entry(t: &Vec<(String, ConfigValue)>, key: &[char]) -> (r: Option<usize>)
    ensures
        match r {
            Some(i) => first_key(entries_view(t@), key@, i as int),
            None => !exists|i: int| first_key(entries_view(t@), key@, i),
        },
{
    proof {
        lemma_entries_view(t@);
    }
    let ghost ev = entries_view(t@);
    let mut i: usize = 0;
    while i < t.len()
        invariant
            i <= t@.len(),
            ev == entries_view(t@),
            ev.len() == t@.len(),
            forall|j: int| 0 <= j < t@.len() ==> #[trigger] ev[j] == (t@[j].0@, value_view(t@[j].1)),
            forall|j: int| 0 <= j < i ==> ev[j].0 != key@,
        decreases t.len() - i,
    {
        let kc = text::chars_of(t[i].0.as_str());
        if text::chars_eq(kc.as_slice(), key) {
            assert(ev[i as int].0 == key@);
            return Some(i);
        }
        i += 1;
    }
    proof {
        if exists|j: int| first_key(ev, key@, j) {
            let j = choose|j: int| first_key(ev, key@, j);
            assert(ev[j].0 != key@);
        }
    }
    None
}

/// The value of the first entry under `key`, by reference.
fn entry_ref<'a>(t: &'a Vec<(String, ConfigValue)>, key: &[char]) -> (r: Option<&'a ConfigValue>)
    ensures
        match r {
            Some(v) => entry_get(entries_view(t@), key@) == Some(value_view(*v)),
            None => entry_get(entries_view(t@), key@) is None,
        },
{
    match find_entry(t, key) {
        Some(i) => {
            proof {
                lemma_entries_view(t@);
                lemma_first_key_unique(entries_view(t@), key@, i as int);
            }
            Some(&t[i].1)
        },
        None => None,
    }
}


/// `t` with `key` set to `value`: its first entry replaced, or one appended.
fn entries_set(t: &mut Vec<(String, ConfigValue)>, key: String, value: ConfigValue)
    ensures
        entries_view(final(t)@) == entry_set(entries_view(old(t)@), key@, value_view(value)),
{
    let kc = text::chars_of(key.as_str());
    let ghost before = entries_view(t@);
    let ghost kv = key@;
    let ghost vv = value_view(value);
    proof {
        lemma_entries_view(t@);
    }
    match find_entry(t, kc.as_slice()) {
        Some(i) => {
            proof {
                lemma_first_key_unique(before, kv, i as int);
            }
            t.set(i, (key, value));
            proof {
                lemma_entries_view(t@);
                assert(entries_view(t@) =~= before.update(i as int, (kv, vv)));
            }
        },
        None => {
            let ghost old_t = t@;
            t.push((key, value));
            proof {
                assert(t@.drop_last() =~= old_t);
                assert(entries_view(t@) =~= before.push((kv, vv)));
            }
        },
    }
}

/// A copy of a value.
pub fn copy_value(v: &ConfigValue) -> (r: ConfigValue)
    ensures
        value_view(r) == value_view(*v),
    decreases v,
{
    match v {
        ConfigValue::Null => ConfigValue::Null,
        ConfigValue::Bool(b) => ConfigValue::Bool(*b),
        ConfigValue::I64(i) => ConfigValue::I64(*i),
        ConfigValue::F64(f) => ConfigValue::F64(copy_float(f)),
        ConfigValue::String(s) => ConfigValue::String(text::owned(s.as_str())),
        ConfigValue::Array(a) => {
            let mut out: Vec<ConfigValue> = Vec::new();
            let mut i: usize = 0;
            while i < a.len()
                invariant
                    i <= a@.len(),
                    *v == ConfigValue::Array(*a),
                    values_view(out@) == values_view(a@.take(i as int)),
                decreases a.len() - i,
            {
                proof {
                    assert(decreases_to!(*v => (*v)->Array_0));
                    assert(decreases_to!(*a => a@));
                    assert(decreases_to!(a@ => a@[i as int]));
                    assert(decreases_to!(*v => a@[i as int]));
                }
                let c = copy_value(&a[i]);
                let ghost before = out@;
                out.push(c);
                proof {
                    assert(out@.drop_last() =~= before);
                    assert(a@.take(i + 1).drop_last() =~= a@.take(i as int));
                }
                i += 1;
            }
            assert(a@.take(a@.len() as int) =~= a@);
            ConfigValue::Array(out)
        },
        ConfigValue::Table(t) => {
            let mut out: Vec<(String, ConfigValue)> = Vec::new();
            let mut i: usize = 0;
            while i < t.len()
                invariant
                    i <= t@.len(),
                    *v == ConfigValue::Table(*t),
                    entries_view(out@) == entries_view(t@.take(i as int)),
                decreases t.len() - i,
            {
                proof {
                    assert(decreases_to!(*v => (*v)->Table_0));
                    assert(decreases_to!(*t => t@));
                    assert(decreases_to!(t@ => t@[i as int]));
                    assert(decreases_to!(t@[i as int] => t@[i as int].1));
                    assert(decreases_to!(*v => t@[i as int].1));
                }
                let c = copy_value(&t[i].1);
                let k = text::owned(t[i].0.as_str());
                let ghost before = out@;
                out.push((k, c));
                proof {
                    assert(out@.drop_last() =~= before);
                    assert(t@.take(i + 1).drop_last() =~= t@.take(i as int));
                }
                i += 1;
            }
            assert(t@.take(t@.len() as int) =~= t@);
            ConfigValue::Table(out)
        },
    }
}

/// What configuration reads of an optional float.
pub open spec fn float_view(f: Option<FloatValue>) -> Option<(Seq<char>, i64)> {
    match f {
        Some(x) => Some((x.repr@, x.whole)),
        None => None,
    }
}

pub fn copy_float(f: &FloatValue) -> (r: FloatValue)
    ensures
        r.repr@ == f.repr@,
        r.whole == f.whole,
{
    FloatValue { repr: text::owned(f.repr.as_str()), whole: f.whole }
}

fn copy_float_opt(f: &Option<FloatValue>) -> (r: Option<FloatValue>)
    ensures
        float_view(r) == float_view(*f),
{
    match f {
        Some(x) => Some(copy_float(x)),
        None => None,
    }
}

/// The value a text stands for: an `i64` where it parses as one, else the float
/// it parses as (`as_float`), else a boolean for `true`, `yes`, `on`, `false`,
/// `no` or `off` in any case, else the text itself.
pub open spec fn auto_view(s: Seq<char>, as_float: Option<(Seq<char>, i64)>) -> ValueView {
    match text::parse_i64_spec(s) {
        Some(i) => ValueView::Int(i as i64),
        None => match as_float {
            Some((r, w)) => ValueView::Float(r, w),
            None => {
                let l = text::lowercase(s);
                if l == "true"@ || l == "yes"@ || l == "on"@ {
                    ValueView::Bool(true)
                } else if l == "false"@ || l == "no"@ || l == "off"@ {
                    ValueView::Bool(false)
                } else {
                    ValueView::Str(s)
                }
            },
        },
    }
}

/// The value a text stands for; `as_float` is what the text parses to as an
/// `f64`, if it does.
pub fn auto_type(s: &str, as_float: Option<FloatValue>) -> (r: ConfigValue)
    ensures
        value_view(r) == auto_view(s@, float_view(as_float)),
{
    let cs = text::chars_of(s);
    if let Some(i) = text::parse_i64(cs.as_slice()) {
        return ConfigValue::I64(i);
    }
    if let Some(f) = as_float {
        return ConfigValue::F64(f);
    }
    let l = text::to_lowercase(s);
    let ls = l.as_str();
    if text::str_eq(ls, "true") || text::str_eq(ls, "yes") || text::str_eq(ls, "on") {
        ConfigValue::Bool(true)
    } else if text::str_eq(ls, "false") || text::str_eq(ls, "no") || text::str_eq(ls, "off") {
        ConfigValue::Bool(false)
    } else {
        ConfigValue::String(text::owned(s))
    }
}

/// A variable of the process environment, with what its value parses to as an
/// `f64`, if it does.
#[derive(Debug)]
pub struct EnvVar {
    pub name: String,
    pub value: String,
    pub as_float: Option<FloatValue>,
}

/// The first variable from the `i`-th on that has the name `k`.
pub open spec fn env_index(env: Seq<EnvVar>, k: Seq<char>, i: int) -> Option<int>
    decreases env.len() - i,
{
    if i < 0 || i >= env.len() {
        None
    } else if env[i].name@ == k {
        Some(i)
    } else {
        env_index(env, k, i + 1)
    }
}

fn find_var(env: &[EnvVar], k: &str) -> (r: Option<usize>)
    ensures
        match r {
            Some(j) => env_index(env@, k@, 0) == Some(j as int) && j < env@.len(),
            None => env_index(env@, k@, 0) is None,
        },
{
    let mut i: usize = 0;
    while i < env.len()
        invariant
            i <= env@.len(),
            env_index(env@, k@, 0) == env_index(env@, k@, i as int),
        decreases env.len() - i,
    {
        if text::str_eq(env[i].name.as_str(), k) {
            return Some(i);
        }
        i += 1;
    }
    None
}

/// A value with its `env:` references resolved: a two-element array whose
/// first element is a text `env:NAME` becomes the value of the variable
/// `NAME` (typed as `auto_view` types it), or else the array's second element;
/// other arrays and tables are resolved element by element.
pub open spec fn resolved(v: ValueView, env: Seq<EnvVar>) -> ValueView
    decreases v,
{
    match v {
        ValueView::Array(a) => {
            let reference = if a.len() == 2 {
                match a[0] {
                    ValueView::Str(s) => if text::starts_with(s, "env:"@) {
                        Some(s.skip(4))
                    } else {
                        None
                    },
                    _ => None,
                }
            } else {
                None
            };
            match reference {
                Some(name) => match env_index(env, name, 0) {
                    Some(j) => auto_view(env[j].value@, float_view(env[j].as_float)),
                    None => a[1],
                },
                None => ValueView::Array(resolved_seq(a, env)),
            }
        },
        ValueView::Table(t) => ValueView::Table(resolved_entries(t, env)),
        _ => v,
    }
}

pub open spec fn resolved_seq(s: Seq<ValueView>, env: Seq<EnvVar>) -> Seq<ValueView>
    decreases s,
{
    if s.len() == 0 {
        seq![]
    } else {
        resolved_seq(s.drop_last(), env).push(resolved(s.last(), env))
    }
}

pub open spec fn resolved_entries(t: Seq<(Seq<char>, ValueView)>, env: Seq<EnvVar>) -> Seq<
    (Seq<char>, ValueView),
>
    decreases t,
{
    if t.len() == 0 {
        seq![]
    } else {
        resolved_entries(t.drop_last(), env).push((t.last().0, resolved(t.last().1, env)))
    }
}

/// A copy of `v` with its `env:` references resolved against `env`.
pub fn resolve_env(v: &ConfigValue, env: &[EnvVar]) -> (r: ConfigValue)
    ensures
        value_view(r) == resolved(value_view(*v), env@),
    decreases v,
{
    match v {
        ConfigValue::Array(a) => {
            proof {
                lemma_values_view(a@);
            }
            if a.len() == 2 {
                if let ConfigValue::String(s) = &a[0] {
                    let sc = text::chars_of(s.as_str());
                    let pre = text::chars_of("env:");
                    proof {
                        reveal_strlit("env:");
                    }
                    if text::starts_with_exec(sc.as_slice(), pre.as_slice()) {
                        let name = text::sub_string(sc.as_slice(), 4, sc.len());
                        proof {
                            assert(name@ =~= s@.skip(4));
                        }
                        return match find_var(env, name.as_str()) {
                            Some(j) => auto_type(env[j].value.as_str(), copy_float_opt(&env[j].as_float)),
                            None => copy_value(&a[1]),
                        };
                    }
                }
            }
            let mut out: Vec<ConfigValue> = Vec::new();
            let mut i: usize = 0;
            while i < a.len()
                invariant
                    i <= a@.len(),
                    *v == ConfigValue::Array(*a),
                    values_view(out@) == resolved_seq(values_view(a@.take(i as int)), env@),
                decreases a.len() - i,
            {
                proof {
                    assert(decreases_to!(*v => (*v)->Array_0));
                    assert(decreases_to!(*a => a@));
                    assert(decreases_to!(a@ => a@[i as int]));
                    assert(decreases_to!(*v => a@[i as int]));
                }
                let c = resolve_env(&a[i], env);
                let ghost before = out@;
                out.push(c);
                proof {
                    assert(out@.drop_last() =~= before);
                    assert(a@.take(i + 1).drop_last() =~= a@.take(i as int));
                    let sv = values_view(a@.take(i + 1));
                    assert(sv.drop_last() =~= values_view(a@.take(i as int)));
                    assert(sv.last() == value_view(a@[i as int]));
                }
                i += 1;
            }
            assert(a@.take(a@.len() as int) =~= a@);
            ConfigValue::Array(out)
        },
        ConfigValue::Table(t) => {
            let mut out: Vec<(String, ConfigValue)> = Vec::new();
            let mut i: usize = 0;
            while i < t.len()
                invariant
                    i <= t@.len(),
                    *v == ConfigValue::Table(*t),
                    entries_view(out@) == resolved_entries(entries_view(t@.take(i as int)), env@),
                decreases t.len() - i,
            {
                proof {
                    assert(decreases_to!(*v => (*v)->Table_0));
                    assert(decreases_to!(*t => t@));
                    assert(decreases_to!(t@ => t@[i as int]));
                    assert(decreases_to!(t@[i as int] => t@[i as int].1));
                    assert(decreases_to!(*v => t@[i as int].1));
                }
                let c = resolve_env(&t[i].1, env);
                let k = text::owned(t[i].0.as_str());
                let ghost before = out@;
                out.push((k, c));
                proof {
                    assert(out@.drop_last() =~= before);
                    assert(t@.take(i + 1).drop_last() =~= t@.take(i as int));
                    let sv = entries_view(t@.take(i + 1));
                    assert(sv.drop_last() =~= entries_view(t@.take(i as int)));
                    assert(sv.last() == (t@[i as int].0@, value_view(t@[i as int].1)));
                }
                i += 1;
            }
            assert(t@.take(t@.len() as int) =~= t@);
            ConfigValue::Table(out)
        },
        _ => copy_value(v),
    }
}


/// The text a value reads as, if it is one.
pub open spec fn as_text(v: Option<ValueView>) -> Option<Seq<char>> {
    match v {
        Some(ValueView::Str(s)) => Some(s),
        _ => None,
    }
}

/// The integer a value reads as: an integer, a text that parses as one, or a
/// float truncated.
pub open spec fn as_int(v: Option<ValueView>) -> Option<int> {
    match v {
        Some(ValueView::Int(i)) => Some(i as int),
        Some(ValueView::Str(s)) => text::parse_i64_spec(s),
        Some(ValueView::Float(_, w)) => Some(w as int),
        _ => None,
    }
}

/// The boolean a word stands for.
pub open spec fn bool_word(l: Seq<char>) -> Option<bool> {
    if l == "true"@ || l == "1"@ || l == "yes"@ || l == "on"@ {
        Some(true)
    } else if l == "false"@ || l == "0"@ || l == "no"@ || l == "off"@ {
        Some(false)
    } else {
        None
    }
}

/// The boolean a value reads as: a boolean, or a text that is such a word in
/// any case.
pub open spec fn as_bool(v: Option<ValueView>) -> Option<bool> {
    match v {
        Some(ValueView::Bool(b)) => Some(b),
        Some(ValueView::Str(s)) => bool_word(text::lowercase(s)),
        _ => None,
    }
}

/// A text whose lowercase form is `false`, `0`, `no` or `off` reads as `false`; one
/// whose lowercase form is `true`, `1`, `yes` or `on` reads as `true`; a boolean reads
/// as itself.
pub proof fn lemma_bool_words(s: Seq<char>, b: bool)
    ensures
        (text::lowercase(s) == "false"@ || text::lowercase(s) == "0"@ || text::lowercase(s) == "no"@
            || text::lowercase(s) == "off"@) ==> as_bool(Some(ValueView::Str(s))) == Some(false),
        (text::lowercase(s) == "true"@ || text::lowercase(s) == "1"@ || text::lowercase(s) == "yes"@
            || text::lowercase(s) == "on"@) ==> as_bool(Some(ValueView::Str(s))) == Some(true),
        !(text::lowercase(s) == "false"@ || text::lowercase(s) == "0"@ || text::lowercase(s) == "no"@
            || text::lowercase(s) == "off"@ || text::lowercase(s) == "true"@ || text::lowercase(s)
            == "1"@ || text::lowercase(s) == "yes"@ || text::lowercase(s) == "on"@) ==> as_bool(
            Some(ValueView::Str(s)),
        ) is None,
        as_bool(Some(ValueView::Bool(b))) == Some(b),
{
    reveal_strlit("true");
    reveal_strlit("1");
    reveal_strlit("yes");
    reveal_strlit("on");
    reveal_strlit("false");
    reveal_strlit("0");
    reveal_strlit("no");
    reveal_strlit("off");
    let t = seq!["true"@, "1"@, "yes"@, "on"@];
    let f = seq!["false"@, "0"@, "no"@, "off"@];
    assert forall|i: int, j: int| 0 <= i < 4 && 0 <= j < 4 implies t[i] != f[j] by {
        if t[i].len() == f[j].len() {
            assert(t[i][0] != f[j][0]);
        }
    }
    assert(t[0] == "true"@ && t[1] == "1"@ && t[2] == "yes"@ && t[3] == "on"@);
    assert(f[0] == "false"@ && f[1] == "0"@ && f[2] == "no"@ && f[3] == "off"@);
}

/// The key an environment variable overlays: the name without the prefix,
/// lowercased, with `_` made `.`.
pub open spec fn overlay_key(name: Seq<char>, prefix: Seq<char>) -> Seq<char> {
    text::lowercase(name.skip(prefix.len() as int)).map_values(
        |c: char|
            if c == '_' {
                '.'
            } else {
                c
            },
    )
}

/// The entries after the overlay of `vars`: each variable whose name starts
/// with the prefix and whose key is already present sets that key to its typed
/// value; a frozen repository keeps its entries.
pub open spec fn overlay(
    items: Seq<(Seq<char>, ValueView)>,
    frozen: bool,
    prefix: Seq<char>,
    vars: Seq<EnvVar>,
) -> Seq<(Seq<char>, ValueView)>
    decreases vars.len(),
{
    if vars.len() == 0 {
        items
    } else {
        let prev = overlay(items, frozen, prefix, vars.drop_last());
        let v = vars.last();
        if text::starts_with(v.name@, prefix) {
            let k = overlay_key(v.name@, prefix);
            if lookup(prev, k) is Some && !frozen {
                entry_set(prev, k, auto_view(v.value@, float_view(v.as_float)))
            } else {
                prev
            }
        } else {
            prev
        }
    }
}

/// `t` with each of `add` set in turn.
pub open spec fn merged(t: Seq<(Seq<char>, ValueView)>, add: Seq<(Seq<char>, ValueView)>) -> Seq<
    (Seq<char>, ValueView),
>
    decreases add.len(),
{
    if add.len() == 0 {
        t
    } else {
        entry_set(merged(t, add.drop_last()), add.last().0, add.last().1)
    }
}

/// The entries after loading `pairs` under a namespace: the namespace's table
/// (made empty where there is none) gets each pair; a namespace that holds no
/// table is left as it is.
pub open spec fn loaded(
    items: Seq<(Seq<char>, ValueView)>,
    namespace: Seq<char>,
    pairs: Seq<(Seq<char>, ValueView)>,
) -> Seq<(Seq<char>, ValueView)> {
    match entry_get(items, namespace) {
        None => entry_set(items, namespace, ValueView::Table(merged(seq![], pairs))),
        Some(ValueView::Table(t)) => entry_set(items, namespace, ValueView::Table(merged(t, pairs))),
        Some(_) => items,
    }
}

/// The message a file that does not parse is reported with.
pub open spec fn parse_error_text(e: Seq<char>) -> Seq<char> {
    "Config parse error: "@ + e
}

fn replace_underscores(s: &str) -> (r: String)
    ensures
        r@ == s@.map_values(
            |c: char|
                if c == '_' {
                    '.'
                } else {
                    c
                },
        ),
{
    let cs = text::chars_of(s);
    let mut out: Vec<char> = Vec::new();
    let mut i: usize = 0;
    while i < cs.len()
        invariant
            i <= cs@.len(),
            cs@ == s@,
            out@.len() == i,
            forall|j: int|
                0 <= j < i ==> out@[j] == (if cs@[j] == '_' {
                    '.'
                } else {
                    cs@[j]
                }),
        decreases cs.len() - i,
    {
        let c = cs[i];
        if c == '_' {
            out.push('.');
        } else {
            out.push(c);
        }
        i += 1;
    }
    let r = text::string_of(out.as_slice());
    proof {
        assert(r@ =~= s@.map_values(
            |c: char|
                if c == '_' {
                    '.'
                } else {
                    c
                },
        ));
    }
    r
}

/// The key a variable overlays (see `overlay_key`); the name starts with the prefix.
fn overlay_key_exec(name: &str, prefix: &str) -> (r: String)
    requires
        text::starts_with(name@, prefix@),
    ensures
        r@ == overlay_key(name@, prefix@),
{
    let nc = text::chars_of(name);
    let pc = text::chars_of(prefix);
    let rest = text::sub_string(nc.as_slice(), pc.len(), nc.len());
    proof {
        assert(rest@ =~= name@.skip(prefix@.len() as int));
    }
    let low = text::to_lowercase(rest.as_str());
    replace_underscores(low.as_str())
}


/// Where a key occurs, its first entry exists.
proof fn lemma_first_exists(t: Seq<(Seq<char>, ValueView)>, k: Seq<char>, j: int)
    requires
        0 <= j < t.len(),
        t[j].0 == k,
    ensures
        exists|i: int| first_key(t, k, i),
    decreases j,
{
    if exists|m: int| 0 <= m < j && t[m].0 == k {
        let m = choose|m: int| 0 <= m < j && t[m].0 == k;
        lemma_first_exists(t, k, m);
    } else {
        assert(first_key(t, k, j));
    }
}

/// A key set to a value reads that value back.
pub proof fn lemma_set_then_lookup(items: Seq<(Seq<char>, ValueView)>, key: Seq<char>, v: ValueView)
    ensures
        lookup(entry_set(items, key, v), key) == Some(v),
{
    let n = entry_set(items, key, v);
    if exists|i: int| first_key(items, key, i) {
        let i = choose|i: int| first_key(items, key, i);
        assert(first_key(n, key, i));
        lemma_first_key_unique(n, key, i);
    } else {
        let i = items.len() as int;
        assert forall|j: int| 0 <= j < i implies n[j].0 != key by {
            if items[j].0 == key {
                lemma_first_exists(items, key, j);
            }
        }
        assert(first_key(n, key, i));
        lemma_first_key_unique(n, key, i);
    }
}

/// Setting a key leaves what other whole keys name unchanged.
pub proof fn lemma_set_keeps_others(
    items: Seq<(Seq<char>, ValueView)>,
    key: Seq<char>,
    v: ValueView,
    other: Seq<char>,
)
    requires
        other != key,
    ensures
        entry_get(entry_set(items, key, v), other) == entry_get(items, other),
{
    let n = entry_set(items, key, v);
    if exists|i: int| first_key(items, other, i) {
        let i = choose|i: int| first_key(items, other, i);
        assert(first_key(n, other, i));
        lemma_first_key_unique(n, other, i);
        lemma_first_key_unique(items, other, i);
    } else {
        if exists|i: int| first_key(n, other, i) {
            let i = choose|i: int| first_key(n, other, i);
            if exists|p: int| first_key(items, key, p) {
                let p = choose|p: int| first_key(items, key, p);
                assert(n == items.update(p, (key, v)));
                assert(i != p);
                assert forall|j: int| 0 <= j < i implies items[j].0 != other by {
                    if j != p {
                        assert(n[j] == items[j]);
                    }
                }
            } else {
                assert(n == items.push((key, v)));
                assert(i < items.len());
                assert forall|j: int| 0 <= j < i implies items[j].0 != other by {
                    assert(n[j] == items[j]);
                }
            }
            assert(first_key(items, other, i));
        }
    }
}

/// A repository of configuration values.
#[derive(Debug)]
pub struct ConfigRepository {
    items: Vec<(String, ConfigValue)>,
    frozen: bool,
}

impl ConfigRepository {
    pub closed spec fn entries(&self) -> Seq<(Seq<char>, ValueView)> {
        entries_view(self.items@)
    }

    pub closed spec fn is_frozen_spec(&self) -> bool {
        self.frozen
    }

    pub fn new() -> (r: ConfigRepository)
        ensures
            r.entries() == Seq::<(Seq<char>, ValueView)>::empty(),
            !r.is_frozen_spec(),
    {
        ConfigRepository { items: Vec::new(), frozen: false }
    }

    /// The text under a key.
    pub fn string(&self, key: &str) -> (r: Option<&str>)
        ensures
            match r {
                Some(t) => as_text(lookup(self.entries(), key@)) == Some(t@),
                None => as_text(lookup(self.entries(), key@)) is None,
            },
    {
        match self.get(key) {
            Some(ConfigValue::String(s)) => Some(s.as_str()),
            _ => None,
        }
    }

    /// The integer under a key (see `as_int`).
    pub fn integer(&self, key: &str) -> (r: Option<i64>)
        ensures
            match r {
                Some(i) => as_int(lookup(self.entries(), key@)) == Some(i as int),
                None => as_int(lookup(self.entries(), key@)) is None,
            },
    {
        match self.get(key) {
            Some(ConfigValue::I64(i)) => Some(*i),
            Some(ConfigValue::String(s)) => {
                let cs = text::chars_of(s.as_str());
                text::parse_i64(cs.as_slice())
            },
            Some(ConfigValue::F64(f)) => Some(f.whole),
            _ => None,
        }
    }

    /// The boolean under a key (see `as_bool`).
    pub fn bool(&self, key: &str) -> (r: Option<bool>)
        ensures
            r == as_bool(lookup(self.entries(), key@)),
    {
        match self.get(key) {
            Some(ConfigValue::Bool(b)) => Some(*b),
            Some(ConfigValue::String(s)) => {
                let l = text::to_lowercase(s.as_str());
                let ls = l.as_str();
                if text::str_eq(ls, "true") || text::str_eq(ls, "1") || text::str_eq(ls, "yes")
                    || text::str_eq(ls, "on") {
                    Some(true)
                } else if text::str_eq(ls, "false") || text::str_eq(ls, "0") || text::str_eq(
                    ls,
                    "no",
                ) || text::str_eq(ls, "off") {
                    Some(false)
                } else {
                    None
                }
            },
            _ => None,
        }
    }

    /// The array under a key.
    pub fn array(&self, key: &str) -> (r: Option<&Vec<ConfigValue>>)
        ensures
            match r {
                Some(a) => lookup(self.entries(), key@) == Some(ValueView::Array(values_view(a@))),
                None => !(lookup(self.entries(), key@) matches Some(ValueView::Array(_))),
            },
    {
        match self.get(key) {
            Some(ConfigValue::Array(a)) => Some(a),
            _ => None,
        }
    }

    /// The table under a key.
    pub fn object(&self, key: &str) -> (r: Option<&Vec<(String, ConfigValue)>>)
        ensures
            match r {
                Some(t) => lookup(self.entries(), key@) == Some(ValueView::Table(entries_view(t@))),
                None => !(lookup(self.entries(), key@) matches Some(ValueView::Table(_))),
            },
    {
        match self.get(key) {
            Some(ConfigValue::Table(t)) => Some(t),
            _ => None,
        }
    }

    /// Sets a key (its top-level entry) to a value, unless the repository is frozen.
    pub fn set(&mut self, key: &str, value: ConfigValue)
        ensures
            final(self).entries() == if old(self).is_frozen_spec() {
                old(self).entries()
            } else {
                entry_set(old(self).entries(), key@, value_view(value))
            },
            final(self).is_frozen_spec() == old(self).is_frozen_spec(),
    {
        if self.frozen {
            return;
        }
        entries_set(&mut self.items, text::owned(key), value);
    }

    /// What `set` does, as a law: on a frozen repository nothing changes; otherwise
    /// the key reads the value back and every other whole key reads what it did.
    pub proof fn lemma_set_law(before: ConfigRepository, after: ConfigRepository, key: Seq<char>, value: ConfigValue)
        requires
            after.entries() == if before.is_frozen_spec() {
                before.entries()
            } else {
                entry_set(before.entries(), key, value_view(value))
            },
        ensures
            before.is_frozen_spec() ==> after.entries() == before.entries(),
            !before.is_frozen_spec() ==> lookup(after.entries(), key) == Some(value_view(value)),
            !before.is_frozen_spec() ==> forall|other: Seq<char>|
                other != key ==> #[trigger] entry_get(after.entries(), other) == entry_get(before.entries(), other),
    {
        if !before.is_frozen_spec() {
            lemma_set_then_lookup(before.entries(), key, value_view(value));
            assert forall|other: Seq<char>| other != key implies #[trigger] entry_get(after.entries(), other)
                == entry_get(before.entries(), other) by {
                lemma_set_keeps_others(before.entries(), key, value_view(value), other);
            }
        }
    }

    /// Whether a key reads a value.
    pub fn has(&self, key: &str) -> (r: bool)
        ensures
            r == lookup(self.entries(), key@) is Some,
    {
        self.get(key).is_some()
    }

    /// All entries.
    pub fn all(&self) -> (r: &Vec<(String, ConfigValue)>)
        ensures
            entries_view(r@) == self.entries(),
    {
        &self.items
    }

    /// Freezes the repository: later `set`s do nothing.
    pub fn freeze(&mut self)
        ensures
            final(self).entries() == old(self).entries(),
            final(self).is_frozen_spec(),
    {
        self.frozen = true;
    }

    pub fn is_frozen(&self) -> (r: bool)
        ensures
            r == self.is_frozen_spec(),
    {
        self.frozen
    }

    /// Overlays the environment variables whose names start with `prefix` (see
    /// `overlay`): `APP_DATABASE_HOST` sets `database.host` where that key is present.
    pub fn apply_env_overlay(&mut self, prefix: &str, vars: &[EnvVar])
        ensures
            final(self).entries() == overlay(
                old(self).entries(),
                old(self).is_frozen_spec(),
                prefix@,
                vars@,
            ),
            final(self).is_frozen_spec() == old(self).is_frozen_spec(),
    {
        let ghost e0 = self.entries();
        let mut i: usize = 0;
        while i < vars.len()
            invariant
                i <= vars@.len(),
                self.entries() == overlay(e0, self.is_frozen_spec(), prefix@, vars@.take(i as int)),
                self.is_frozen_spec() == old(self).is_frozen_spec(),
                e0 == old(self).entries(),
            decreases vars.len() - i,
        {
            let v = &vars[i];
            let nc = text::chars_of(v.name.as_str());
            let pc = text::chars_of(prefix);
            proof {
                assert(vars@.take(i + 1).drop_last() =~= vars@.take(i as int));
            }
            if text::starts_with_exec(nc.as_slice(), pc.as_slice()) {
                let k = overlay_key_exec(v.name.as_str(), prefix);
                if self.has(k.as_str()) {
                    let value = auto_type(v.value.as_str(), copy_float_opt(&v.as_float));
                    self.set(k.as_str(), value);
                }
            }
            i += 1;
        }
        proof {
            assert(vars@.take(vars@.len() as int) =~= vars@);
        }
    }

    /// Loads the entries of a parsed file under a namespace, with their `env:`
    /// references resolved against `env` (see `loaded`); a file that did not
    /// parse gives its error. The namespace is written whether or not the
    /// repository is frozen.
    pub fn load_json(
        &mut self,
        namespace: &str,
        parsed: Result<Vec<(String, ConfigValue)>, String>,
        env: &[EnvVar],
    ) -> (r: Result<(), String>)
        ensures
            match parsed {
                Ok(p) => r is Ok && final(self).entries() == loaded(
                    old(self).entries(),
                    namespace@,
                    resolved_entries(entries_view(p@), env@),
                ),
                Err(e) => r matches Err(m) && m@ == parse_error_text(e@) && final(self).entries()
                    == old(self).entries(),
            },
            final(self).is_frozen_spec() == old(self).is_frozen_spec(),
    {
        let pairs = match parsed {
            Ok(p) => p,
            Err(e) => {
                proof {
                    reveal_strlit("Config parse error: ");
                }
                return Err(text::cat("Config parse error: ", e.as_str()));
            },
        };
        let ghost pv = resolved_entries(entries_view(pairs@), env@);
        let nc = text::chars_of(namespace);
        let ghost e0 = self.entries();
        proof {
            lemma_entries_view(self.items@);
        }
        let (base, at): (Vec<(String, ConfigValue)>, Option<usize>) = match find_entry(&self.items, nc.as_slice()) {
            None => (Vec::new(), None),
            Some(i) => {
                proof {
                    lemma_first_key_unique(e0, namespace@, i as int);
                }
                let (k, v) = self.items.remove(i);
                match v {
                    ConfigValue::Table(t) => (t, Some(i)),
                    other => {
                        self.items.insert(i, (k, other));
                        proof {
                            assert(self.items@ =~= old(self).items@);
                        }
                        return Ok(());
                    },
                }
            },
        };
        let mut table = base;
        let ghost t0 = entries_view(table@);
        let mut j: usize = 0;
        while j < pairs.len()
            invariant
                j <= pairs@.len(),
                entries_view(table@) == merged(t0, resolved_entries(entries_view(pairs@.take(j as int)), env@)),
            decreases pairs.len() - j,
        {
            let v = resolve_env(&pairs[j].1, env);
            let k = text::owned(pairs[j].0.as_str());
            proof {
                assert(pairs@.take(j + 1).drop_last() =~= pairs@.take(j as int));
                let sv = entries_view(pairs@.take(j + 1));
                assert(sv.drop_last() =~= entries_view(pairs@.take(j as int)));
                assert(sv.last() == (pairs@[j as int].0@, value_view(pairs@[j as int].1)));
                let rv = resolved_entries(sv, env@);
                assert(rv.drop_last() =~= resolved_entries(entries_view(pairs@.take(j as int)), env@));
            }
            entries_set(&mut table, k, v);
            j += 1;
        }
        proof {
            assert(pairs@.take(pairs@.len() as int) =~= pairs@);
        }
        match at {
            None => {
                entries_set(&mut self.items, text::owned(namespace), ConfigValue::Table(table));
            },
            Some(i) => {
                self.items.insert(i, (text::owned(namespace), ConfigValue::Table(table)));
                proof {
                    lemma_entries_view(self.items@);
                    lemma_entries_view(old(self).items@);
                    assert(entries_view(self.items@) =~= e0.update(i as int, (namespace@, ValueView::Table(merged(t0, pv)))));
                }
            },
        }
        Ok(())
    }

    /// The value a key reads (see `lookup`).
    pub fn get(&self, key: &str) -> (r: Option<&ConfigValue>)
        ensures
            match r {
                Some(v) => lookup(self.entries(), key@) == Some(value_view(*v)),
                None => lookup(self.entries(), key@) is None,
            },
    {
        let kc = text::chars_of(key);
        if let Some(v) = entry_ref(&self.items, kc.as_slice()) {
            return Some(v);
        }
        let parts = text::split_char_exec(kc.as_slice(), '.');
        proof {
            text::lemma_split_char_len(key@, '.');
        }
        let ghost ps = text::views(parts@);
        assert(ps[0] == parts@[0]@);
        let mut current: &ConfigValue = match entry_ref(&self.items, parts[0].as_slice()) {
            Some(v) => v,
            None => {
                return None;
            },
        };
        let mut i: usize = 1;
        while i < parts.len()
            invariant
                1 <= i <= parts@.len(),
                ps == text::views(parts@),
                ps.len() == parts@.len(),
                lookup(self.entries(), key@) == walk(value_view(*current), ps.skip(i as int)),
            decreases parts.len() - i,
        {
            assert(ps.skip(i as int)[0] == parts@[i as int]@);
            assert(ps.skip(i as int).drop_first() =~= ps.skip(i + 1));
            match current {
                ConfigValue::Table(t) => {
                    match entry_ref(t, parts[i].as_slice()) {
                        Some(c) => {
                            current = c;
                        },
                        None => {
                            return None;
                        },
                    }
                },
                _ => {
                    return None;
                },
            }
            i += 1;
        }
        assert(ps.skip(i as int).len() == 0);
        Some(current)
    }
}

/// What the configuration facade gives for a key as text: a text, an integer
/// or a float as written, or a boolean as `true` or `false`; else the default.
pub open spec fn text_or(v: Option<ValueView>, default: Seq<char>) -> Seq<char> {
    match v {
        Some(ValueView::Str(s)) => s,
        Some(ValueView::Int(i)) => text::signed_decimal(i as int),
        Some(ValueView::Float(r, _)) => r,
        Some(ValueView::Bool(b)) => if b {
            "true"@
        } else {
            "false"@
        },
        _ => default,
    }
}

/// The configuration facade: the application's configuration, read by key.
#[derive(Debug)]
pub struct Config {
    repo: ConfigRepository,
}

impl Config {
    pub closed spec fn repository(&self) -> ConfigRepository {
        self.repo
    }

    /// The facade over a loaded repository.
    pub fn init(repo: ConfigRepository) -> (r: Config)
        ensures
            r.repository() == repo,
    {
        Config { repo }
    }

    /// The value under a key as text (see `text_or`).
    pub fn get(&self, key: &str, default: &str) -> (r: String)
        ensures
            r@ == text_or(lookup(self.repository().entries(), key@), default@),
    {
        match self.repo.get(key) {
            Some(ConfigValue::String(s)) => text::owned(s.as_str()),
            Some(ConfigValue::I64(i)) => text::i64_to_string(*i),
            Some(ConfigValue::F64(f)) => text::owned(f.repr.as_str()),
            Some(ConfigValue::Bool(b)) => if *b {
                text::owned("true")
            } else {
                text::owned("false")
            },
            _ => text::owned(default),
        }
    }

    /// The text under a key.
    pub fn get_opt(&self, key: &str) -> (r: Option<String>)
        ensures
            match r {
                Some(t) => as_text(lookup(self.repository().entries(), key@)) == Some(t@),
                None => as_text(lookup(self.repository().entries(), key@)) is None,
            },
    {
        match self.repo.string(key) {
            Some(s) => Some(text::owned(s)),
            None => None,
        }
    }

    /// The integer under a key, or the default.
    pub fn get_int(&self, key: &str, default: i64) -> (r: i64)
        ensures
            r == match as_int(lookup(self.repository().entries(), key@)) {
                Some(i) => i,
                None => default as int,
            },
    {
        match self.repo.integer(key) {
            Some(i) => i,
            None => default,
        }
    }

    /// The boolean under a key, or the default.
    pub fn get_bool(&self, key: &str, default: bool) -> (r: bool)
        ensures
            r == match as_bool(lookup(self.repository().entries(), key@)) {
                Some(b) => b,
                None => default,
            },
    {
        match self.repo.bool(key) {
            Some(b) => b,
            None => default,
        }
    }

    pub fn has(&self, key: &str) -> (r: bool)
        ensures
            r == lookup(self.repository().entries(), key@) is Some,
    {
        self.repo.has(key)
    }

    /// Sets a key, unless the configuration is frozen.
    pub fn set(&mut self, key: &str, value: ConfigValue)
        ensures
            final(self).repository().entries() == if old(self).repository().is_frozen_spec() {
                old(self).repository().entries()
            } else {
                entry_set(old(self).repository().entries(), key@, value_view(value))
            },
            final(self).repository().is_frozen_spec() == old(self).repository().is_frozen_spec(),
    {
        self.repo.set(key, value);
    }

    pub fn freeze(&mut self)
        ensures
            final(self).repository().entries() == old(self).repository().entries(),
            final(self).repository().is_frozen_spec(),
    {
        self.repo.freeze();
    }

    /// Overlays the `APP_` variables of the environment.
    pub fn apply_env_overlay(&mut self, vars: &[EnvVar])
        ensures
            final(self).repository().entries() == overlay(
                old(self).repository().entries(),
                old(self).repository().is_frozen_spec(),
                "APP_"@,
                vars@,
            ),
            final(self).repository().is_frozen_spec() == old(self).repository().is_frozen_spec(),
    {
        self.repo.apply_env_overlay("APP_", vars);
    }
}

} // verus!
