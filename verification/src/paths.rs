//! Unix paths as text: their components, normalizing, relative paths, file names
//! and extensions.
use vstd::prelude::*;
use crate::text;

verus! {

/// A component of a path.
pub ghost enum Comp {
    Root,
    Cur,
    Parent,
    Normal(Seq<char>),
}

/// The components of the `/`-separated parts of a path after its start: empty parts
/// and `.` are dropped, `..` is the parent.
pub open spec fn part_comps(parts: Seq<Seq<char>>) -> Seq<Comp>
    decreases parts.len(),
{
    if parts.len() == 0 {
        Seq::empty()
    } else {
        let rest = part_comps(parts.drop_last());
        let p = parts.last();
        if p.len() == 0 || p == seq!['.'] {
            rest
        } else if p == seq!['.', '.'] {
            rest.push(Comp::Parent)
        } else {
            rest.push(Comp::Normal(p))
        }
    }
}

/// Whether a path starts with the root `/`.
pub open spec fn is_absolute(p: Seq<char>) -> bool {
    p.len() > 0 && p[0] == '/'
}

/// Whether a relative path starts with the current directory `.`.
pub open spec fn starts_at_cur(p: Seq<char>) -> bool {
    !is_absolute(p) && text::split_char(p, '/').len() > 0 && text::split_char(p, '/')[0] == seq!['.']
}

/// The components of a path, as `Path::components` yields them on Unix: the root, or a
/// leading `.`, then the other parts without empty ones and inner `.`.
pub open spec fn components(p: Seq<char>) -> Seq<Comp> {
    let parts = text::split_char(p, '/');
    if is_absolute(p) {
        seq![Comp::Root] + part_comps(parts.drop_first())
    } else if starts_at_cur(p) {
        seq![Comp::Cur] + part_comps(parts.drop_first())
    } else {
        part_comps(parts)
    }
}

/// The text of a component.
pub open spec fn comp_text(c: Comp) -> Seq<char> {
    match c {
        Comp::Root => seq!['/'],
        Comp::Cur => seq!['.'],
        Comp::Parent => seq!['.', '.'],
        Comp::Normal(n) => n,
    }
}

/// `PathBuf::push` of a component's text: an absolute one replaces the path; otherwise
/// a separator is added where the path does not end with one.
pub open spec fn push_text(path: Seq<char>, s: Seq<char>) -> Seq<char> {
    if is_absolute(s) {
        s
    } else if path.len() > 0 && path.last() != '/' {
        path + seq!['/'] + s
    } else {
        path + s
    }
}

/// A path with the components pushed in turn.
pub open spec fn push_all(path: Seq<char>, cs: Seq<Comp>) -> Seq<char>
    decreases cs.len(),
{
    if cs.len() == 0 {
        path
    } else {
        push_all(push_text(path, comp_text(cs[0])), cs.drop_first())
    }
}

/// Components with `.` dropped and each `..` removing the component before it; a
/// `..` at the root, or with nothing before it, stays where it is and is dropped.
pub open spec fn normalized(cs: Seq<Comp>) -> Seq<Comp>
    decreases cs.len(),
{
    if cs.len() == 0 {
        Seq::empty()
    } else {
        let rest = normalized(cs.drop_last());
        match cs.last() {
            Comp::Parent => if rest.len() > 0 && rest.last() != Comp::Root {
                rest.drop_last()
            } else {
                rest
            },
            Comp::Cur => rest,
            other => rest.push(other),
        }
    }
}

/// The path `normalize` gives.
pub open spec fn normalize_spec(p: Seq<char>) -> Seq<char> {
    push_all(Seq::empty(), normalized(components(p)))
}

/// `n` parent components.
pub open spec fn parents(n: nat) -> Seq<Comp> {
    Seq::new(n, |i: int| Comp::Parent)
}

/// The path `relative` gives for the components of target and base: past their
/// common start, one `..` for each component left of the base, then the rest of the
/// target; `.` where nothing is left of either.
pub open spec fn relative_comps(t: Seq<Comp>, b: Seq<Comp>) -> Seq<char>
    decreases t.len(),
{
    if t.len() > 0 && b.len() > 0 && t[0] == b[0] {
        relative_comps(t.drop_first(), b.drop_first())
    } else if t.len() == 0 && b.len() == 0 {
        seq!['.']
    } else {
        push_all(Seq::empty(), parents(b.len()) + t)
    }
}

/// Pushing two runs of components is pushing the first, then the second.
pub proof fn lemma_push_all_concat(p: Seq<char>, a: Seq<Comp>, b: Seq<Comp>)
    ensures
        push_all(p, a + b) == push_all(push_all(p, a), b),
    decreases a.len(),
{
    if a.len() > 0 {
        assert((a + b).drop_first() =~= a.drop_first() + b);
        assert((a + b)[0] == a[0]);
        lemma_push_all_concat(push_text(p, comp_text(a[0])), a.drop_first(), b);
    } else {
        assert(a + b =~= b);
    }
}

/// An executable path component.
#[derive(Debug, Clone)]
pub enum PathPart {
    Root,
    Cur,
    Parent,
    Normal(Vec<char>),
}

impl View for PathPart {
    type V = Comp;

    open spec fn view(&self) -> Comp {
        match self {
            PathPart::Root => Comp::Root,
            PathPart::Cur => Comp::Cur,
            PathPart::Parent => Comp::Parent,
            PathPart::Normal(n) => Comp::Normal(n@),
        }
    }
}

pub open spec fn part_views(v: Seq<PathPart>) -> Seq<Comp> {
    v.map_values(|p: PathPart| p@)
}

pub fn same_part(a: &PathPart, b: &PathPart) -> (r: bool)
    ensures
        r == (a@ == b@),
{
    match (a, b) {
        (PathPart::Root, PathPart::Root) => true,
        (PathPart::Cur, PathPart::Cur) => true,
        (PathPart::Parent, PathPart::Parent) => true,
        (PathPart::Normal(x), PathPart::Normal(y)) => text::chars_eq(x.as_slice(), y.as_slice()),
        _ => false,
    }
}

fn copy_part(p: &PathPart) -> (r: PathPart)
    ensures
        r@ == p@,
{
    match *p {
        PathPart::Root => PathPart::Root,
        PathPart::Cur => PathPart::Cur,
        PathPart::Parent => PathPart::Parent,
        PathPart::Normal(ref n) => {
            let c = text::slice_chars(n.as_slice(), 0, n.len());
            proof {
                assert(c@ =~= n@);
            }
            PathPart::Normal(c)
        },
    }
}

fn parts_to_comps(parts: &Vec<Vec<char>>, from: usize, out: &mut Vec<PathPart>)
    requires
        from <= parts@.len(),
    ensures
        part_views(final(out)@) == part_views(old(out)@) + part_comps(text::views(parts@).skip(
            from as int,
        )),
{
    let ghost ps = text::views(parts@).skip(from as int);
    let ghost start = part_views(out@);
    let mut i: usize = from;
    proof {
        assert(ps.take(0) =~= Seq::<Seq<char>>::empty());
        assert(start + part_comps(ps.take(0)) =~= start);
    }
    while i < parts.len()
        invariant
            from <= i <= parts@.len(),
            ps == text::views(parts@).skip(from as int),
            part_views(out@) == start + part_comps(ps.take(i - from)),
        decreases parts@.len() - i,
    {
        let p = &parts[i];
        proof {
            assert(ps.take(i - from + 1).drop_last() =~= ps.take(i - from));
            assert(ps.take(i - from + 1).last() == p@);
        }
        let is_dot = p.len() == 1 && p[0] == '.';
        let is_dotdot = p.len() == 2 && p[0] == '.' && p[1] == '.';
        proof {
            if p@.len() == 1 && p@[0] == '.' {
                assert(p@ =~= seq!['.']);
            }
            if p@.len() == 2 && p@[0] == '.' && p@[1] == '.' {
                assert(p@ =~= seq!['.', '.']);
            }
        }
        if p.len() == 0 || is_dot {
        } else if is_dotdot {
            proof {
                assert(part_views(out@.push(PathPart::Parent)) =~= part_views(out@).push(Comp::Parent));
            }
            out.push(PathPart::Parent);
        } else {
            let c = text::slice_chars(p.as_slice(), 0, p.len());
            proof {
                assert(c@ =~= p@);
            }
            let n = PathPart::Normal(c);
            proof {
                assert(part_views(out@.push(n)) =~= part_views(out@).push(n@));
            }
            out.push(n);
        }
        i += 1;
    }
    proof {
        assert(ps.take(parts@.len() - from) =~= ps);
    }
}

/// The components of a path.
pub fn path_components(p: &str) -> (r: Vec<PathPart>)
    ensures
        part_views(r@) == components(p@),
{
    let cs = text::chars_of(p);
    let parts = text::split_char_exec(cs.as_slice(), '/');
    let mut out: Vec<PathPart> = Vec::new();
    let ghost pv = text::views(parts@);
    if cs.len() > 0 && cs[0] == '/' {
        out.push(PathPart::Root);
        proof {
            assert(part_views(out@) =~= seq![Comp::Root]);
            lemma_split_nonempty(p@);
        }
        parts_to_comps(&parts, 1, &mut out);
        proof {
            assert(pv.skip(1) =~= pv.drop_first());
        }
    } else if parts.len() > 0 && parts[0].len() == 1 && parts[0][0] == '.' {
        out.push(PathPart::Cur);
        proof {
            assert(part_views(out@) =~= seq![Comp::Cur]);
            assert(pv[0] =~= seq!['.']);
        }
        parts_to_comps(&parts, 1, &mut out);
        proof {
            assert(pv.skip(1) =~= pv.drop_first());
        }
    } else {
        proof {
            if pv.len() > 0 && pv[0] == seq!['.'] {
                assert(pv[0].len() == 1);
            }
        }
        parts_to_comps(&parts, 0, &mut out);
        proof {
            assert(pv.skip(0) =~= pv);
            assert(part_views(Seq::<PathPart>::empty()) =~= Seq::<Comp>::empty());
        }
    }
    out
}

proof fn lemma_split_nonempty(p: Seq<char>)
    ensures
        text::split_char(p, '/').len() > 0,
{
    text::lemma_split_char_len(p, '/');
}

fn text_of(c: &PathPart) -> (r: Vec<char>)
    ensures
        r@ == comp_text(c@),
{
    match *c {
        PathPart::Root => {
            let v = vec!['/'];
            proof {
                assert(v@ =~= seq!['/']);
            }
            v
        },
        PathPart::Cur => {
            let v = vec!['.'];
            proof {
                assert(v@ =~= seq!['.']);
            }
            v
        },
        PathPart::Parent => {
            let v = vec!['.', '.'];
            proof {
                assert(v@ =~= seq!['.', '.']);
            }
            v
        },
        PathPart::Normal(ref n) => {
            let v = text::slice_chars(n.as_slice(), 0, n.len());
            proof {
                assert(v@ =~= n@);
            }
            v
        },
    }
}

fn push_text_exec(path: &mut Vec<char>, s: &Vec<char>)
    ensures
        final(path)@ == push_text(old(path)@, s@),
{
    if s.len() > 0 && s[0] == '/' {
        *path = text::slice_chars(s.as_slice(), 0, s.len());
        return;
    }
    let n = path.len();
    if n > 0 && path[n - 1] != '/' {
        path.push('/');
    }
    let mut i: usize = 0;
    let ghost base = path@;
    while i < s.len()
        invariant
            i <= s@.len(),
            path@ == base + s@.take(i as int),
        decreases s@.len() - i,
    {
        proof {
            assert(s@.take(i + 1) =~= s@.take(i as int).push(s@[i as int]));
        }
        path.push(s[i]);
        i += 1;
    }
    proof {
        assert(s@.take(i as int) =~= s@);
    }
}

pub fn push_parts(path: &mut Vec<char>, cs: &Vec<PathPart>, from: usize)
    requires
        from <= cs@.len(),
    ensures
        final(path)@ == push_all(old(path)@, part_views(cs@).skip(from as int)),
    decreases cs@.len() - from,
{
    if from < cs.len() {
        let t = text_of(&cs[from]);
        push_text_exec(path, &t);
        push_parts(path, cs, from + 1);
        proof {
            let s = part_views(cs@).skip(from as int);
            assert(s.drop_first() =~= part_views(cs@).skip(from + 1));
            assert(s[0] == cs@[from as int]@);
        }
    } else {
        proof {
            assert(part_views(cs@).skip(from as int).len() == 0);
        }
    }
}

/// The path with `.` dropped and each `..` removing the component before it.
pub fn normalize(path: &str) -> (r: String)
    ensures
        r@ == normalize_spec(path@),
{
    let cs = path_components(path);
    let mut kept: Vec<PathPart> = Vec::new();
    let ghost all = part_views(cs@);
    let mut i: usize = 0;
    proof {
        assert(all.take(0) =~= Seq::<Comp>::empty());
        assert(part_views(kept@) =~= Seq::<Comp>::empty());
    }
    while i < cs.len()
        invariant
            i <= cs@.len(),
            all == part_views(cs@),
            part_views(kept@) == normalized(all.take(i as int)),
        decreases cs@.len() - i,
    {
        proof {
            assert(all.take(i + 1).drop_last() =~= all.take(i as int));
            assert(all.take(i + 1).last() == cs@[i as int]@);
        }
        match cs[i] {
            PathPart::Parent => {
                let poppable = kept.len() > 0 && match &kept[kept.len() - 1] {
                    PathPart::Root => false,
                    _ => true,
                };
                proof {
                    if kept@.len() > 0 {
                        assert(part_views(kept@).last() == kept@.last()@);
                    }
                }
                if poppable {
                    let _ = kept.pop();
                    proof {
                        assert(part_views(kept@) =~= normalized(all.take(i as int)).drop_last());
                    }
                }
            },
            PathPart::Cur => {},
            _ => {
                let c = copy_part(&cs[i]);
                proof {
                    assert(part_views(kept@.push(c)) =~= part_views(kept@).push(c@));
                }
                kept.push(c);
            },
        }
        i += 1;
    }
    proof {
        assert(all.take(i as int) =~= all);
    }
    let mut out: Vec<char> = Vec::new();
    push_parts(&mut out, &kept, 0);
    proof {
        assert(part_views(kept@).skip(0) =~= part_views(kept@));
    }
    text::string_of(out.as_slice())
}

/// The path of `target` relative to `base`, by their components.
pub fn relative(target: &str, base: &str) -> (r: Option<String>)
    ensures
        r matches Some(s) && s@ == relative_comps(components(target@), components(base@)),
{
    let t = path_components(target);
    let b = path_components(base);
    let ghost tv = part_views(t@);
    let ghost bv = part_views(b@);
    let mut i: usize = 0;
    proof {
        assert(tv.skip(0) =~= tv);
        assert(bv.skip(0) =~= bv);
    }
    while i < t.len() && i < b.len() && same_part(&t[i], &b[i])
        invariant
            i <= t@.len(),
            i <= b@.len(),
            tv == part_views(t@),
            bv == part_views(b@),
            relative_comps(tv, bv) == relative_comps(tv.skip(i as int), bv.skip(i as int)),
        decreases t@.len() - i,
    {
        proof {
            assert(tv.skip(i as int).drop_first() =~= tv.skip(i + 1));
            assert(bv.skip(i as int).drop_first() =~= bv.skip(i + 1));
            assert(tv.skip(i as int)[0] == bv.skip(i as int)[0]);
        }
        i += 1;
    }
    let ghost ts = tv.skip(i as int);
    let ghost bs = bv.skip(i as int);
    proof {
        if i < t@.len() && i < b@.len() {
            assert(ts[0] == t@[i as int]@);
            assert(bs[0] == b@[i as int]@);
        }
    }
    let mut out: Vec<char> = Vec::new();
    if i >= t.len() && i >= b.len() {
        out.push('.');
        proof {
            assert(out@ =~= seq!['.']);
        }
    } else {
        let up: Vec<char> = vec!['.', '.'];
        let mut j: usize = i;
        proof {
            assert(parents(0) =~= Seq::<Comp>::empty());
        }
        while j < b.len()
            invariant
                i <= j <= b@.len(),
                up@ == seq!['.', '.'],
                out@ == push_all(Seq::empty(), parents((j - i) as nat)),
            decreases b@.len() - j,
        {
            push_text_exec(&mut out, &up);
            proof {
                let k = (j - i) as nat;
                lemma_push_all_concat(Seq::empty(), parents(k), seq![Comp::Parent]);
                assert(parents(k) + seq![Comp::Parent] =~= parents(k + 1));
                assert(comp_text(Comp::Parent) == seq!['.', '.']);
                assert(push_all(push_all(Seq::empty(), parents(k)), seq![Comp::Parent]) == push_text(
                    push_all(Seq::empty(), parents(k)),
                    seq!['.', '.'],
                )) by {
                    let q = push_all(Seq::empty(), parents(k));
                    assert(seq![Comp::Parent].drop_first() =~= Seq::<Comp>::empty());
                    assert(seq![Comp::Parent][0] == Comp::Parent);
                    assert(push_all(push_text(q, seq!['.', '.']), Seq::<Comp>::empty()) == push_text(
                        q,
                        seq!['.', '.'],
                    ));
                }
            }
            j += 1;
        }
        let ghost mid = out@;
        push_parts(&mut out, &t, i);
        proof {
            assert(bs.len() == b@.len() - i);
            lemma_push_all_concat(Seq::empty(), parents(bs.len()), ts);
            assert(part_views(t@).skip(i as int) == ts);
        }
    }
    Some(text::string_of(out.as_slice()))
}

/// `path:line:column`.
pub fn format_location(path: &str, line: usize, column: usize) -> (r: String)
    ensures
        r@ == path@ + seq![':'] + text::decimal(line as nat) + seq![':'] + text::decimal(
            column as nat,
        ),
{
    let l = text::usize_to_string(line);
    let c = text::usize_to_string(column);
    let a = text::cat3(path, ":", l.as_str());
    proof {
        reveal_strlit(":");
    }
    text::cat3(a.as_str(), ":", c.as_str())
}

/// The last component of a path, where it is a name.
pub open spec fn file_name(p: Seq<char>) -> Option<Seq<char>> {
    let cs = components(p);
    if cs.len() > 0 && cs.last() is Normal {
        Some(comp_text(cs.last()))
    } else {
        None
    }
}

/// The position of the last `.` in a name, if any.
pub open spec fn last_dot(n: Seq<char>, i: int) -> Option<int>
    decreases i,
{
    if i <= 0 {
        None
    } else if n[i - 1] == '.' {
        Some(i - 1)
    } else {
        last_dot(n, i - 1)
    }
}

/// `Path::extension`: what follows the last `.` of the file name, unless the name
/// has no `.` but a leading one.
pub open spec fn extension_of(p: Seq<char>) -> Option<Seq<char>> {
    match file_name(p) {
        Some(n) => match last_dot(n, n.len() as int) {
            Some(k) => if k == 0 {
                None
            } else {
                Some(n.skip(k + 1))
            },
            None => None,
        },
        None => None,
    }
}

/// `Path::file_stem`: the file name up to its last `.`, where that dot is not leading.
pub open spec fn stem_of(p: Seq<char>) -> Option<Seq<char>> {
    match file_name(p) {
        Some(n) => match last_dot(n, n.len() as int) {
            Some(k) => if k == 0 {
                Some(n)
            } else {
                Some(n.take(k))
            },
            None => Some(n),
        },
        None => None,
    }
}

fn file_name_exec(path: &str) -> (r: Option<Vec<char>>)
    ensures
        match r {
            Some(n) => file_name(path@) == Some(n@),
            None => file_name(path@) is None,
        },
{
    let cs = path_components(path);
    let n = cs.len();
    if n == 0 {
        return None;
    }
    proof {
        assert(part_views(cs@).last() == cs@[n - 1]@);
    }
    match cs[n - 1] {
        PathPart::Normal(ref name) => {
            let c = text::slice_chars(name.as_slice(), 0, name.len());
            proof {
                assert(c@ =~= name@);
            }
            Some(c)
        },
        _ => None,
    }
}

fn last_dot_exec(n: &Vec<char>) -> (r: Option<usize>)
    ensures
        match r {
            Some(k) => last_dot(n@, n@.len() as int) == Some(k as int) && k < n@.len() && k < n.len(),
            None => last_dot(n@, n@.len() as int) is None,
        },
{
    let mut i: usize = n.len();
    while i > 0
        invariant
            i <= n@.len(),
            last_dot(n@, n@.len() as int) == last_dot(n@, i as int),
        decreases i,
    {
        if n[i - 1] == '.' {
            return Some(i - 1);
        }
        i -= 1;
    }
    None
}

/// The extension of a path's file name, in lowercase.
pub fn extension(path: &str) -> (r: Option<String>)
    ensures
        match r {
            Some(e) => extension_of(path@) matches Some(x) && e@ == text::lowercase(x),
            None => extension_of(path@) is None,
        },
{
    match file_name_exec(path) {
        Some(n) => match last_dot_exec(&n) {
            Some(k) => {
                if k == 0 {
                    None
                } else {
                    assert(k < n@.len());
                    let e = text::sub_string(n.as_slice(), k + 1, n.len());
                    proof {
                        assert(e@ =~= n@.skip(k + 1));
                    }
                    Some(text::to_lowercase(e.as_str()))
                }
            },
            None => None,
        },
        None => None,
    }
}

/// The file name of a path without its extension.
pub fn stem(path: &str) -> (r: Option<String>)
    ensures
        match r {
            Some(s) => stem_of(path@) == Some(s@),
            None => stem_of(path@) is None,
        },
{
    match file_name_exec(path) {
        Some(n) => match last_dot_exec(&n) {
            Some(k) => {
                if k == 0 {
                    Some(text::string_of(n.as_slice()))
                } else {
                    let s = text::sub_string(n.as_slice(), 0, k);
                    proof {
                        assert(s@ =~= n@.take(k as int));
                    }
                    Some(s)
                }
            },
            None => Some(text::string_of(n.as_slice())),
        },
        None => None,
    }
}


/// What is known of a file: its path, name and extension, size, time of change, kind.
#[derive(Debug, Clone)]
pub struct FileInfo {
    pub path: String,
    pub name: String,
    pub extension: String,
    pub size: u64,
    pub modified: Option<std::time::SystemTime>,
    pub is_dir: bool,
}

impl FileInfo {
    /// The information on the file at `path`, its name and extension taken from the
    /// path (empty where it has none).
    pub fn from_metadata(
        path: &str,
        size: u64,
        modified: Option<std::time::SystemTime>,
        is_dir: bool,
    ) -> (r: FileInfo)
        ensures
            r.path@ == path@,
            r.name@ == match stem_of(path@) {
                Some(s) => s,
                None => Seq::<char>::empty(),
            },
            match extension_of(path@) {
                Some(x) => r.extension@ == text::lowercase(x),
                None => r.extension@ == Seq::<char>::empty(),
            },
            r.size == size,
            r.modified == modified,
            r.is_dir == is_dir,
    {
        let name = match stem(path) {
            Some(s) => s,
            None => String::new(),
        };
        let ext = match extension(path) {
            Some(e) => e,
            None => String::new(),
        };
        FileInfo { path: text::owned(path), name, extension: ext, size, modified, is_dir }
    }
}


/// Whether a path's extension is exactly `rs` (as `extension() == Some("rs")` compares).
pub fn extension_is_rs(path: &str) -> (r: bool)
    ensures
        r == (extension_of(path@) == Some("rs"@)),
{
    match file_name_exec(path) {
        Some(n) => match last_dot_exec(&n) {
            Some(k) => {
                if k == 0 {
                    false
                } else {
                    let e = text::sub_string(n.as_slice(), k + 1, n.len());
                    proof {
                        assert(e@ =~= n@.skip(k + 1));
                    }
                    text::str_eq(e.as_str(), "rs")
                }
            },
            None => false,
        },
        None => false,
    }
}

} // verus!
