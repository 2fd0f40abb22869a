//! Character-level text operations with their mathematical models.
//!
//! Strings are modelled as `Seq<char>`. Each executable helper here is
//! proved against a spec function that says, as directly as possible,
//! what the corresponding operation of `str` computes.
use vstd::prelude::*;

verus! {

// ───────────────────────── character classes ─────────────────────────

/// The Unicode `White_Space` property, as `char::is_whitespace` decides it.
pub open spec fn is_ws(c: char) -> bool {
    let n = c as u32;
    ||| 9 <= n <= 13
    ||| n == 32
    ||| n == 0x85
    ||| n == 0xA0
    ||| n == 0x1680
    ||| 0x2000 <= n <= 0x200A
    ||| n == 0x2028
    ||| n == 0x2029
    ||| n == 0x202F
    ||| n == 0x205F
    ||| n == 0x3000
}

/// `char::is_whitespace`.
pub fn is_whitespace(c: char) -> (b: bool)
    ensures
        b == is_ws(c),
{
    let n = c as u32;
    (9 <= n && n <= 13) || n == 32 || n == 0x85 || n == 0xA0 || n == 0x1680 || (0x2000 <= n
        && n <= 0x200A) || n == 0x2028 || n == 0x2029 || n == 0x202F || n == 0x205F || n == 0x3000
}

pub open spec fn is_ascii_digit(c: char) -> bool {
    '0' <= c && c <= '9'
}

pub open spec fn is_ascii_alnum(c: char) -> bool {
    ||| is_ascii_digit(c)
    ||| 'a' <= c && c <= 'z'
    ||| 'A' <= c && c <= 'Z'
}

pub open spec fn is_ascii_upper(c: char) -> bool {
    'A' <= c && c <= 'Z'
}

pub open spec fn is_ascii_lower(c: char) -> bool {
    'a' <= c && c <= 'z'
}

/// `char::to_ascii_uppercase`.
pub open spec fn upper_ascii(c: char) -> char {
    if is_ascii_lower(c) {
        ((c as u32) - 32) as char
    } else {
        c
    }
}

/// `char::to_ascii_lowercase`.
pub open spec fn lower_ascii(c: char) -> char {
    if is_ascii_upper(c) {
        ((c as u32) + 32) as char
    } else {
        c
    }
}

pub fn to_ascii_upper(c: char) -> (r: char)
    ensures
        r == upper_ascii(c),
{
    if 'a' <= c && c <= 'z' {
        let n = (c as u32) - 32;
        let r = char_from_ascii(n);
        r
    } else {
        c
    }
}

pub fn to_ascii_lower(c: char) -> (r: char)
    ensures
        r == lower_ascii(c),
{
    if 'A' <= c && c <= 'Z' {
        let n = (c as u32) + 32;
        let r = char_from_ascii(n);
        r
    } else {
        c
    }
}

/// The character of an ASCII code point.
pub(crate) fn char_from_ascii(n: u32) -> (c: char)
    requires
        n < 128,
    ensures
        c == n as char,
        c as u32 == n,
{
    let b: u8 = n as u8;
    b as char
}

// ───────────────────────── conversions ─────────────────────────

/// Appends one character to a string (std `String::push`).
#[verifier::external_body]
pub(crate) fn push_char(s: &mut String, c: char)
    ensures
        final(s)@ == old(s)@.push(c),
{
    s.push(c);
}

/// The characters of a string slice, in order.
pub fn chars_of(s: &str) -> (v: Vec<char>)
    ensures
        v@ == s@,
{
    let mut v: Vec<char> = Vec::new();
    for c in it: s.chars()
        invariant
            v@ == it.seq().take(it.index() as int),
    {
        v.push(c);
    }
    v
}

/// A string made of the given characters.
pub fn string_of(v: &[char]) -> (s: String)
    ensures
        s@ == v@,
{
    let mut s = String::new();
    let mut i: usize = 0;
    while i < v.len()
        invariant
            i <= v.len(),
            s@ == v@.take(i as int),
        decreases v.len() - i,
    {
        push_char(&mut s, v[i]);
        proof {
            assert(v@.take(i + 1) == v@.take(i as int).push(v@[i as int]));
        }
        i += 1;
    }
    proof {
        assert(v@.take(v@.len() as int) == v@);
    }
    s
}

/// A fresh string equal to the given slice.
pub fn owned(s: &str) -> (r: String)
    ensures
        r@ == s@,
{
    s.to_owned()
}

/// `a + b` as a new string.
pub fn cat(a: &str, b: &str) -> (r: String)
    ensures
        r@ == a@ + b@,
{
    let mut r = a.to_owned();
    r.append(b);
    r
}

/// `a + b + c` as a new string.
pub fn cat3(a: &str, b: &str, c: &str) -> (r: String)
    ensures
        r@ == a@ + b@ + c@,
{
    let mut r = a.to_owned();
    r.append(b);
    r.append(c);
    r
}

/// Copies the characters `s[from..to]`.
pub fn slice_chars(s: &[char], from: usize, to: usize) -> (r: Vec<char>)
    requires
        from <= to <= s@.len(),
    ensures
        r@ == s@.subrange(from as int, to as int),
{
    let mut r: Vec<char> = Vec::new();
    let mut i = from;
    while i < to
        invariant
            from <= i <= to <= s@.len(),
            r@ == s@.subrange(from as int, i as int),
        decreases to - i,
    {
        r.push(s[i]);
        proof {
            assert(s@.subrange(from as int, i + 1) == s@.subrange(from as int, i as int).push(
                s@[i as int],
            ));
        }
        i += 1;
    }
    r
}

/// The string `s[from..to]` (character positions).
pub fn sub_string(s: &[char], from: usize, to: usize) -> (r: String)
    requires
        from <= to <= s@.len(),
    ensures
        r@ == s@.subrange(from as int, to as int),
{
    let v = slice_chars(s, from, to);
    string_of(v.as_slice())
}

// ───────────────────────── comparisons ─────────────────────────

/// Character-wise equality.
pub fn chars_eq(a: &[char], b: &[char]) -> (r: bool)
    ensures
        r == (a@ == b@),
{
    if a.len() != b.len() {
        return false;
    }
    let mut i: usize = 0;
    while i < a.len()
        invariant
            a@.len() == b@.len(),
            i <= a@.len(),
            forall|j: int| 0 <= j < i ==> a@[j] == b@[j],
        decreases a.len() - i,
    {
        if a[i] != b[i] {
            return false;
        }
        i += 1;
    }
    proof {
        assert(a@ =~= b@);
    }
    true
}

/// Equality of two strings.
pub fn str_eq(a: &str, b: &str) -> (r: bool)
    ensures
        r == (a@ == b@),
{
    let x = chars_of(a);
    let y = chars_of(b);
    chars_eq(x.as_slice(), y.as_slice())
}

/// Whether `p` occurs at position `at` of `s`.
pub open spec fn occurs_at(s: Seq<char>, p: Seq<char>, at: int) -> bool {
    0 <= at && at + p.len() <= s.len() && s.subrange(at, at + p.len()) == p
}

pub fn occurs_at_exec(s: &[char], p: &[char], at: usize) -> (r: bool)
    ensures
        r == occurs_at(s@, p@, at as int),
{
    if at > s.len() || p.len() > s.len() - at {
        return false;
    }
    let n = s.len();
    let mut i: usize = 0;
    while i < p.len()
        invariant
            n == s@.len(),
            at + p@.len() <= s@.len(),
            i <= p@.len(),
            forall|j: int| 0 <= j < i ==> s@[at + j] == p@[j],
        decreases p.len() - i,
    {
        assert(at + i < s@.len());
        if s[at + i] != p[i] {
            proof {
                assert(s@.subrange(at as int, at + p@.len())[i as int] != p@[i as int]);
            }
            return false;
        }
        i += 1;
    }
    proof {
        assert(s@.subrange(at as int, at + p@.len()) =~= p@);
    }
    true
}

/// `str::starts_with`.
pub open spec fn starts_with(s: Seq<char>, p: Seq<char>) -> bool {
    p.is_prefix_of(s)
}

/// `str::ends_with`.
pub open spec fn ends_with(s: Seq<char>, p: Seq<char>) -> bool {
    p.is_suffix_of(s)
}

pub fn starts_with_exec(s: &[char], p: &[char]) -> (r: bool)
    ensures
        r == starts_with(s@, p@),
{
    let r = occurs_at_exec(s, p, 0);
    proof {
        if r {
            assert(s@.subrange(0, p@.len() as int) == p@);
        }
        if starts_with(s@, p@) {
            assert(occurs_at(s@, p@, 0));
        }
    }
    r
}

pub fn ends_with_exec(s: &[char], p: &[char]) -> (r: bool)
    ensures
        r == ends_with(s@, p@),
{
    if p.len() > s.len() {
        return false;
    }
    let r = occurs_at_exec(s, p, s.len() - p.len());
    r
}

/// `s` contains `p` as a substring.
pub open spec fn contains_sub(s: Seq<char>, p: Seq<char>) -> bool {
    exists|i: int| occurs_at(s, p, i)
}

/// `str::contains` with a string pattern.
pub fn contains_exec(s: &[char], p: &[char]) -> (r: bool)
    ensures
        r == contains_sub(s@, p@),
{
    if p.len() > s.len() {
        return false;
    }
    if p.len() == 0 {
        proof {
            assert(s@.subrange(0, 0) =~= p@);
            assert(occurs_at(s@, p@, 0));
        }
        return true;
    }
    let n = s.len();
    let mut i: usize = 0;
    while i <= s.len() - p.len()
        invariant
            n == s@.len(),
            p@.len() <= s@.len(),
            p@.len() > 0,
            i <= s@.len() - p@.len() + 1,
            forall|j: int| 0 <= j < i ==> !occurs_at(s@, p@, j),
        decreases s.len() - p.len() + 1 - i,
    {
        if occurs_at_exec(s, p, i) {
            return true;
        }
        i += 1;
    }
    proof {
        assert forall|j: int| !occurs_at(s@, p@, j) by {
            if 0 <= j < i {
            } else {
            }
        }
    }
    false
}

/// First position of `c` in `s`.
pub open spec fn first_index(s: Seq<char>, c: char, i: int) -> bool {
    0 <= i < s.len() && s[i] == c && forall|j: int| 0 <= j < i ==> s[j] != c
}

/// `str::find` with a character pattern.
pub fn find_char(s: &[char], c: char) -> (r: Option<usize>)
    ensures
        match r {
            Some(i) => first_index(s@, c, i as int),
            None => !s@.contains(c),
        },
{
    let mut i: usize = 0;
    while i < s.len()
        invariant
            i <= s@.len(),
            forall|j: int| 0 <= j < i ==> s@[j] != c,
        decreases s.len() - i,
    {
        if s[i] == c {
            return Some(i);
        }
        i += 1;
    }
    None
}

/// The first position of `c`, as a spec value.
pub open spec fn find_spec(s: Seq<char>, c: char) -> Option<int> {
    if s.contains(c) {
        Some(choose|i: int| first_index(s, c, i))
    } else {
        None
    }
}

pub proof fn lemma_first_index_unique(s: Seq<char>, c: char, i: int, k: int)
    requires
        first_index(s, c, i),
        first_index(s, c, k),
    ensures
        i == k,
{
    if i < k {
        assert(s[i] != c);
    } else if k < i {
        assert(s[k] != c);
    }
}

/// `find_spec` agrees with the first position.
pub proof fn lemma_find_spec(s: Seq<char>, c: char, i: int)
    requires
        first_index(s, c, i),
    ensures
        find_spec(s, c) == Some(i),
{
    assert(s.contains(c)) by {
        assert(s[i] == c);
    }
    let k = choose|k: int| first_index(s, c, k);
    assert(first_index(s, c, k)) by {
        assert(first_index(s, c, i));
    }
    lemma_first_index_unique(s, c, i, k);
}

/// `find_char` as a spec-level result.
pub fn find_char_spec(s: &[char], c: char) -> (r: Option<usize>)
    ensures
        match r {
            Some(i) => find_spec(s@, c) == Some(i as int) && first_index(s@, c, i as int),
            None => find_spec(s@, c) is None && !s@.contains(c),
        },
{
    let r = find_char(s, c);
    proof {
        if let Some(i) = r {
            lemma_find_spec(s@, c, i as int);
        }
    }
    r
}

// ───────────────────────── trimming ─────────────────────────

/// `str::trim_start`.
pub open spec fn trim_start(s: Seq<char>) -> Seq<char>
    decreases s.len(),
{
    if s.len() > 0 && is_ws(s[0]) {
        trim_start(s.drop_first())
    } else {
        s
    }
}

/// `str::trim_end`.
pub open spec fn trim_end(s: Seq<char>) -> Seq<char>
    decreases s.len(),
{
    if s.len() > 0 && is_ws(s.last()) {
        trim_end(s.drop_last())
    } else {
        s
    }
}

/// `str::trim`.
pub open spec fn trim(s: Seq<char>) -> Seq<char> {
    trim_end(trim_start(s))
}

pub fn trim_start_exec(s: &[char]) -> (r: Vec<char>)
    ensures
        r@ == trim_start(s@),
{
    let mut i: usize = 0;
    proof {
        assert(s@.skip(0) =~= s@);
    }
    while i < s.len() && is_whitespace(s[i])
        invariant
            i <= s@.len(),
            trim_start(s@) == trim_start(s@.skip(i as int)),
        decreases s.len() - i,
    {
        proof {
            assert(s@.skip(i as int).drop_first() =~= s@.skip(i + 1));
        }
        i += 1;
    }
    slice_chars(s, i, s.len())
}

pub fn trim_end_exec(s: &[char]) -> (r: Vec<char>)
    ensures
        r@ == trim_end(s@),
{
    let mut n: usize = s.len();
    proof {
        assert(s@.take(s@.len() as int) =~= s@);
    }
    while n > 0 && is_whitespace(s[n - 1])
        invariant
            n <= s@.len(),
            trim_end(s@) == trim_end(s@.take(n as int)),
        decreases n,
    {
        proof {
            assert(s@.take(n as int).drop_last() =~= s@.take(n - 1));
        }
        n -= 1;
    }
    proof {
        assert(s@.subrange(0, n as int) =~= s@.take(n as int));
    }
    slice_chars(s, 0, n)
}

pub fn trim_exec(s: &[char]) -> (r: Vec<char>)
    ensures
        r@ == trim(s@),
{
    let a = trim_start_exec(s);
    trim_end_exec(a.as_slice())
}

/// `str::trim_start_matches` with a non-empty string pattern.
pub open spec fn trim_start_matches(s: Seq<char>, p: Seq<char>) -> Seq<char>
    decreases s.len(),
{
    if p.len() > 0 && starts_with(s, p) {
        trim_start_matches(s.skip(p.len() as int), p)
    } else {
        s
    }
}

/// `str::trim_end_matches` with a non-empty string pattern.
pub open spec fn trim_end_matches(s: Seq<char>, p: Seq<char>) -> Seq<char>
    decreases s.len(),
{
    if p.len() > 0 && ends_with(s, p) {
        trim_end_matches(s.take(s.len() - p.len()), p)
    } else {
        s
    }
}

pub fn trim_start_matches_exec(s: &[char], p: &[char]) -> (r: Vec<char>)
    ensures
        r@ == trim_start_matches(s@, p@),
{
    let mut i: usize = 0;
    if p.len() == 0 {
        return slice_chars(s, 0, s.len());
    }
    proof {
        assert(s@.skip(0) =~= s@);
    }
    while i <= s.len() && occurs_at_exec(s, p, i)
        invariant
            p@.len() > 0,
            i <= s@.len(),
            trim_start_matches(s@, p@) == trim_start_matches(s@.skip(i as int), p@),
        decreases s.len() - i,
    {
        proof {
            assert(s@.skip(i as int).subrange(0, p@.len() as int) =~= s@.subrange(
                i as int,
                i + p@.len(),
            ));
            assert(s@.skip(i as int).skip(p@.len() as int) =~= s@.skip(i + p@.len()));
        }
        i += p.len();
    }
    proof {
        if i <= s@.len() && starts_with(s@.skip(i as int), p@) {
            assert(s@.skip(i as int).subrange(0, p@.len() as int) =~= s@.subrange(
                i as int,
                i + p@.len(),
            ));
            assert(occurs_at(s@, p@, i as int));
        }
    }
    slice_chars(s, i, s.len())
}

pub fn trim_end_matches_exec(s: &[char], p: &[char]) -> (r: Vec<char>)
    ensures
        r@ == trim_end_matches(s@, p@),
{
    if p.len() == 0 {
        return slice_chars(s, 0, s.len());
    }
    let mut n: usize = s.len();
    proof {
        assert(s@.take(s@.len() as int) =~= s@);
    }
    while n >= p.len() && occurs_at_exec(s, p, n - p.len())
        invariant
            p@.len() > 0,
            n <= s@.len(),
            trim_end_matches(s@, p@) == trim_end_matches(s@.take(n as int), p@),
        decreases n,
    {
        proof {
            let t = s@.take(n as int);
            assert(t.subrange(t.len() - p@.len(), t.len() as int) =~= s@.subrange(
                n - p@.len(),
                n as int,
            ));
            assert(t.take(t.len() - p@.len()) =~= s@.take(n - p@.len()));
        }
        n -= p.len();
    }
    proof {
        let t = s@.take(n as int);
        if n >= p@.len() && ends_with(t, p@) {
            assert(t.subrange(t.len() - p@.len(), t.len() as int) =~= s@.subrange(
                n - p@.len(),
                n as int,
            ));
            assert(occurs_at(s@, p@, n - p@.len()));
        }
        assert(s@.subrange(0, n as int) =~= t);
    }
    slice_chars(s, 0, n)
}

// ───────────────────────── splitting ─────────────────────────

/// The pieces of `s` between separators, scanning from `pos` with the
/// current piece starting at `start` (`str::split` with a char predicate).
pub open spec fn split_scan(s: Seq<char>, sep: spec_fn(char) -> bool, start: int, pos: int) -> Seq<
    Seq<char>,
>
    decreases s.len() - pos,
{
    if pos >= s.len() {
        seq![s.subrange(start, s.len() as int)]
    } else if sep(s[pos]) {
        seq![s.subrange(start, pos)] + split_scan(s, sep, pos + 1, pos + 1)
    } else {
        split_scan(s, sep, start, pos + 1)
    }
}

pub open spec fn is_char(c: char) -> spec_fn(char) -> bool {
    |x: char| x == c
}

pub open spec fn ws_pred() -> spec_fn(char) -> bool {
    |x: char| is_ws(x)
}

/// `str::split(c)`.
pub open spec fn split_char(s: Seq<char>, c: char) -> Seq<Seq<char>> {
    split_scan(s, is_char(c), 0, 0)
}

pub open spec fn non_empty() -> spec_fn(Seq<char>) -> bool {
    |p: Seq<char>| p.len() > 0
}

/// `str::split_whitespace`.
pub open spec fn split_ws(s: Seq<char>) -> Seq<Seq<char>> {
    split_scan(s, ws_pred(), 0, 0).filter(non_empty())
}

/// The views of a sequence of character vectors.
pub open spec fn views(v: Seq<Vec<char>>) -> Seq<Seq<char>> {
    v.map_values(|x: Vec<char>| x@)
}

/// The views of a sequence of strings.
pub open spec fn str_views(v: Seq<String>) -> Seq<Seq<char>> {
    v.map_values(|x: String| x@)
}

pub fn split_char_exec(s: &[char], c: char) -> (r: Vec<Vec<char>>)
    ensures
        views(r@) == split_char(s@, c),
{
    let mut r: Vec<Vec<char>> = Vec::new();
    let mut start: usize = 0;
    let mut i: usize = 0;
    while i < s.len()
        invariant
            start <= i <= s@.len(),
            views(r@) + split_scan(s@, is_char(c), start as int, i as int) == split_char(s@, c),
        decreases s.len() - i,
    {
        if s[i] == c {
            let piece = slice_chars(s, start, i);
            proof {
                let sp = split_scan(s@, is_char(c), (i + 1) as int, (i + 1) as int);
                assert(views(r@.push(piece)) =~= views(r@).push(piece@));
                assert(views(r@) + split_scan(s@, is_char(c), start as int, i as int) =~= views(
                    r@.push(piece),
                ) + sp);
            }
            r.push(piece);
            i += 1;
            start = i;
        } else {
            i += 1;
        }
    }
    let piece = slice_chars(s, start, s.len());
    proof {
        assert(views(r@.push(piece)) =~= views(r@).push(piece@));
        assert(views(r@) + split_scan(s@, is_char(c), start as int, i as int) =~= views(
            r@.push(piece),
        ));
    }
    r.push(piece);
    r
}

pub fn split_ws_exec(s: &[char]) -> (r: Vec<Vec<char>>)
    ensures
        views(r@) == split_ws(s@),
{
    let mut r: Vec<Vec<char>> = Vec::new();
    let mut start: usize = 0;
    let mut i: usize = 0;
    let ghost f = non_empty();
    while i < s.len()
        invariant
            start <= i <= s@.len(),
            f == non_empty(),
            views(r@) + split_scan(s@, ws_pred(), start as int, i as int).filter(f) == split_ws(
                s@,
            ),
        decreases s.len() - i,
    {
        if is_whitespace(s[i]) {
            let piece = slice_chars(s, start, i);
            proof {
                let sp = split_scan(s@, ws_pred(), (i + 1) as int, (i + 1) as int);
                let head = seq![s@.subrange(start as int, i as int)];
                assert(split_scan(s@, ws_pred(), start as int, i as int) == head + sp);
                Seq::<Seq<char>>::filter_distributes_over_add(head, sp, f);
                reveal_with_fuel(Seq::filter, 2);
                assert(views(r@.push(piece)) =~= views(r@).push(piece@));
                if piece@.len() > 0 {
                    assert(head.filter(f) =~= head);
                } else {
                    assert(head.filter(f) =~= Seq::<Seq<char>>::empty());
                }
            }
            if piece.len() > 0 {
                r.push(piece);
                proof {
                    assert(views(r@) + split_scan(s@, ws_pred(), (i + 1) as int, (i + 1) as int).filter(f)
                        =~= split_ws(s@));
                }
            } else {
                proof {
                    assert(views(r@) + split_scan(s@, ws_pred(), (i + 1) as int, (i + 1) as int).filter(f)
                        =~= split_ws(s@));
                }
            }
            i += 1;
            start = i;
        } else {
            i += 1;
        }
    }
    let piece = slice_chars(s, start, s.len());
    proof {
        let head = seq![s@.subrange(start as int, i as int)];
        assert(split_scan(s@, ws_pred(), start as int, i as int) == head);
        reveal_with_fuel(Seq::filter, 2);
        assert(views(r@.push(piece)) =~= views(r@).push(piece@));
        if piece@.len() > 0 {
            assert(head.filter(f) =~= head);
        } else {
            assert(head.filter(f) =~= Seq::<Seq<char>>::empty());
        }
    }
    if piece.len() > 0 {
        r.push(piece);
        proof {
            assert(views(r@) =~= split_ws(s@));
        }
    } else {
        proof {
            assert(views(r@) =~= split_ws(s@));
        }
    }
    r
}

/// Removes one trailing carriage return.
pub open spec fn strip_cr(x: Seq<char>) -> Seq<char> {
    if x.len() > 0 && x.last() == '\r' {
        x.drop_last()
    } else {
        x
    }
}

/// The lines of `s` from position `pos`, the current line starting at `start`
/// (`str::lines`: split at `'\n'`, a final `'\n'` ends the last line, and a
/// `'\r'` before a `'\n'` is removed).
pub open spec fn lines_scan(s: Seq<char>, start: int, pos: int) -> Seq<Seq<char>>
    decreases s.len() - pos,
{
    if pos >= s.len() {
        if start < s.len() {
            seq![s.subrange(start, s.len() as int)]
        } else {
            seq![]
        }
    } else if s[pos] == '\n' {
        seq![strip_cr(s.subrange(start, pos))] + lines_scan(s, pos + 1, pos + 1)
    } else {
        lines_scan(s, start, pos + 1)
    }
}

/// `str::lines`.
pub open spec fn lines(s: Seq<char>) -> Seq<Seq<char>> {
    lines_scan(s, 0, 0)
}

pub fn lines_exec(s: &[char]) -> (r: Vec<Vec<char>>)
    ensures
        views(r@) == lines(s@),
{
    let mut r: Vec<Vec<char>> = Vec::new();
    let mut start: usize = 0;
    let mut i: usize = 0;
    while i < s.len()
        invariant
            start <= i <= s@.len(),
            views(r@) + lines_scan(s@, start as int, i as int) == lines(s@),
        decreases s.len() - i,
    {
        if s[i] == '\n' {
            let mut end = i;
            if end > start && s[end - 1] == '\r' {
                end = end - 1;
            }
            let piece = slice_chars(s, start, end);
            proof {
                let full = s@.subrange(start as int, i as int);
                if i > start && s@[i - 1] == '\r' {
                    assert(strip_cr(full) =~= piece@);
                } else {
                    assert(strip_cr(full) =~= piece@);
                }
                assert(views(r@.push(piece)) =~= views(r@).push(piece@));
                assert(views(r@) + lines_scan(s@, start as int, i as int) =~= views(r@.push(piece))
                    + lines_scan(s@, (i + 1) as int, (i + 1) as int));
            }
            r.push(piece);
            i += 1;
            start = i;
        } else {
            i += 1;
        }
    }
    if start < s.len() {
        let piece = slice_chars(s, start, s.len());
        proof {
            assert(views(r@.push(piece)) =~= views(r@).push(piece@));
            assert(views(r@) + lines_scan(s@, start as int, i as int) =~= views(r@.push(piece)));
        }
        r.push(piece);
    } else {
        proof {
            assert(views(r@) + lines_scan(s@, start as int, i as int) =~= views(r@));
        }
    }
    r
}

// ───────────────────────── numbers ─────────────────────────

pub open spec fn digit_char(d: nat) -> char {
    ((d + 48) as u32) as char
}

/// The decimal digits of `n`, as `Display` writes them.
pub open spec fn decimal(n: nat) -> Seq<char>
    decreases n,
{
    if n < 10 {
        seq![digit_char(n)]
    } else {
        decimal(n / 10) + seq![digit_char(n % 10)]
    }
}

/// `u64::to_string`.
pub fn u64_to_string(n: u64) -> (s: String)
    ensures
        s@ == decimal(n as nat),
{
    let mut digits: Vec<char> = Vec::new();
    let mut m = n;
    // digits are collected least significant first
    while m >= 10
        invariant
            decimal(n as nat) == decimal(m as nat) + digits@.reverse(),
        decreases m,
    {
        let d = m % 10;
        let c = char_from_ascii((d + 48) as u32);
        proof {
            assert(decimal(m as nat) == decimal((m / 10) as nat) + seq![digit_char((m % 10) as nat)]);
            assert(digits@.push(c).reverse() =~= seq![c] + digits@.reverse());
        }
        digits.push(c);
        m = m / 10;
    }
    let c = char_from_ascii((m + 48) as u32);
    digits.push(c);
    proof {
        assert(digits@.reverse() =~= seq![c] + digits@.drop_last().reverse());
    }
    let mut out: Vec<char> = Vec::new();
    let mut k: usize = digits.len();
    while k > 0
        invariant
            k <= digits@.len(),
            out@ == digits@.subrange(k as int, digits@.len() as int).reverse(),
        decreases k,
    {
        k -= 1;
        proof {
            assert(digits@.subrange(k as int, digits@.len() as int).reverse() =~= digits@.subrange(
                (k + 1) as int,
                digits@.len() as int,
            ).reverse().push(digits@[k as int]));
        }
        out.push(digits[k]);
    }
    proof {
        assert(digits@.subrange(0, digits@.len() as int) =~= digits@);
    }
    string_of(out.as_slice())
}

/// `usize::to_string`.
pub fn usize_to_string(n: usize) -> (s: String)
    ensures
        s@ == decimal(n as nat),
{
    u64_to_string(n as u64)
}

/// `i64::to_string`.
pub open spec fn signed_decimal(n: int) -> Seq<char> {
    if n < 0 {
        seq!['-'] + decimal((-n) as nat)
    } else {
        decimal(n as nat)
    }
}

pub fn i64_to_string(n: i64) -> (s: String)
    ensures
        s@ == signed_decimal(n as int),
{
    if n < 0 {
        let m: u64 = if n == i64::MIN {
            9223372036854775808u64
        } else {
            (-n) as u64
        };
        let d = u64_to_string(m);
        let mut r = String::new();
        push_char(&mut r, '-');
        r.append(d.as_str());
        r
    } else {
        u64_to_string(n as u64)
    }
}


// ───────────────────────── ordering ─────────────────────────

/// The order of `str` (byte order of UTF-8, which is code point order).
pub open spec fn lex_le(a: Seq<char>, b: Seq<char>) -> bool
    decreases a.len(),
{
    if a.len() == 0 {
        true
    } else if b.len() == 0 {
        false
    } else if a[0] < b[0] {
        true
    } else if a[0] > b[0] {
        false
    } else {
        lex_le(a.drop_first(), b.drop_first())
    }
}

pub proof fn lemma_lex_total(a: Seq<char>, b: Seq<char>)
    ensures
        lex_le(a, b) || lex_le(b, a),
    decreases a.len(),
{
    if a.len() > 0 && b.len() > 0 && a[0] == b[0] {
        lemma_lex_total(a.drop_first(), b.drop_first());
    }
}

pub proof fn lemma_lex_trans(a: Seq<char>, b: Seq<char>, c: Seq<char>)
    requires
        lex_le(a, b),
        lex_le(b, c),
    ensures
        lex_le(a, c),
    decreases a.len(),
{
    if a.len() > 0 && b.len() > 0 && c.len() > 0 && a[0] == b[0] && b[0] == c[0] {
        lemma_lex_trans(a.drop_first(), b.drop_first(), c.drop_first());
    }
}

pub fn lex_le_exec(a: &[char], b: &[char]) -> (r: bool)
    ensures
        r == lex_le(a@, b@),
{
    let mut i: usize = 0;
    proof {
        assert(a@.skip(0) =~= a@);
        assert(b@.skip(0) =~= b@);
    }
    while i < a.len() && i < b.len() && a[i] == b[i]
        invariant
            i <= a@.len(),
            i <= b@.len(),
            lex_le(a@, b@) == lex_le(a@.skip(i as int), b@.skip(i as int)),
        decreases a.len() - i,
    {
        proof {
            assert(a@.skip(i as int).drop_first() =~= a@.skip(i + 1));
            assert(b@.skip(i as int).drop_first() =~= b@.skip(i + 1));
        }
        i += 1;
    }
    if i == a.len() {
        true
    } else if i == b.len() {
        false
    } else {
        proof {
            assert(a@.skip(i as int)[0] == a@[i as int]);
            assert(b@.skip(i as int)[0] == b@[i as int]);
        }
        a[i] < b[i]
    }
}

/// Sorted in the order of `str`.
pub open spec fn sorted(s: Seq<Seq<char>>) -> bool {
    forall|i: int, j: int| 0 <= i <= j < s.len() ==> lex_le(s[i], s[j])
}

/// The strings in the order of `str` (`sort_unstable`).
pub fn sort_strings(v: Vec<String>) -> (r: Vec<String>)
    ensures
        sorted(str_views(r@)),
        str_views(r@).to_multiset() == str_views(v@).to_multiset(),
{
    let mut out: Vec<String> = Vec::new();
    let mut k: usize = 0;
    proof {
        assert(str_views(v@).take(0) =~= Seq::<Seq<char>>::empty());
        assert(str_views(out@) =~= Seq::<Seq<char>>::empty());
    }
    while k < v.len()
        invariant
            k <= v@.len(),
            sorted(str_views(out@)),
            str_views(out@).to_multiset() == str_views(v@).take(k as int).to_multiset(),
        decreases v.len() - k,
    {
        let x = owned(v[k].as_str());
        let xc = chars_of(x.as_str());
        let mut p: usize = 0;
        let mut stop = false;
        while p < out.len() && !stop
            invariant
                p <= out@.len(),
                xc@ == x@,
                stop ==> p < out@.len() && !lex_le(out@[p as int]@, x@),
                forall|q: int| 0 <= q < p ==> lex_le((#[trigger] out@[q])@, x@),
            decreases out@.len() - p + (if stop { 0int } else { 1int }),
        {
            let oc = chars_of(out[p].as_str());
            if lex_le_exec(oc.as_slice(), xc.as_slice()) {
                p += 1;
            } else {
                stop = true;
            }
        }
        let ghost before = str_views(out@);
        proof {
            if p < out@.len() {
                lemma_lex_total(out@[p as int]@, x@);
            }
        }
        out.insert(p, x);
        proof {
            let after = str_views(out@);
            assert(after =~= before.insert(p as int, x@));
            assert forall|i: int, j: int| 0 <= i <= j < after.len() implies lex_le(
                after[i],
                after[j],
            ) by {
                if i < p && j < p {
                } else if i < p && j == p {
                    assert(after[i] == before[i]);
                } else if i < p && j > p {
                    assert(after[i] == before[i]);
                    assert(after[j] == before[j - 1]);
                } else if i == p && j == p {
                    lemma_lex_total(x@, x@);
                } else if i == p && j > p {
                    assert(after[j] == before[j - 1]);
                    assert(lex_le(x@, before[p as int]));
                    lemma_lex_trans(x@, before[p as int], before[j - 1]);
                } else {
                    assert(after[i] == before[i - 1]);
                    assert(after[j] == before[j - 1]);
                }
            }
            before.insert_ensures(p as int, x@);
            assert(str_views(v@).take(k + 1) =~= str_views(v@).take(k as int).push(x@));
            vstd::seq_lib::to_multiset_insert(before, p as int, x@);
            str_views(v@).take(k as int).to_multiset_ensures();
        }
        k += 1;
    }
    proof {
        assert(str_views(v@).take(v@.len() as int) =~= str_views(v@));
    }
    out
}

/// The part of a slice from `from` on.
pub(crate) fn slice_from<T>(v: &[T], from: usize) -> (r: &[T])
    requires
        from <= v@.len(),
    ensures
        r@ == v@.skip(from as int),
{
    let r = vstd::slice::slice_subrange(v, from, v.len());
    proof {
        assert(r@ =~= v@.skip(from as int));
    }
    r
}

pub proof fn lemma_str_views_push(s: Seq<String>, x: String)
    ensures
        str_views(s.push(x)) == str_views(s).push(x@),
{
    assert(str_views(s.push(x)) =~= str_views(s).push(x@));
}

pub proof fn lemma_str_views_take_push(s: Seq<String>, i: int)
    requires
        0 <= i < s.len(),
    ensures
        str_views(s).take(i + 1) == str_views(s).take(i).push(s[i]@),
{
    assert(str_views(s).take(i + 1) =~= str_views(s).take(i).push(s[i]@));
}

// ───────────────────────── parsing integers ─────────────────────────

/// Every character is an ASCII digit, and there is at least one.
pub open spec fn all_digits(d: Seq<char>) -> bool {
    d.len() > 0 && forall|i: int| 0 <= i < d.len() ==> is_ascii_digit(#[trigger] d[i])
}

/// The number that a string of decimal digits denotes.
pub open spec fn digits_value(d: Seq<char>) -> nat
    decreases d.len(),
{
    if d.len() == 0 {
        0
    } else {
        digits_value(d.drop_last()) * 10 + ((d.last() as u32) - 48) as nat
    }
}

/// What `str::parse::<i64>` gives: an optional `+` or `-`, then one or more
/// ASCII digits, whose value must lie within the range of `i64`.
pub open spec fn parse_i64_spec(s: Seq<char>) -> Option<int> {
    if s.len() > 0 && (s[0] == '-' || s[0] == '+') {
        let body = s.skip(1);
        let v: int = if s[0] == '-' {
            -(digits_value(body) as int)
        } else {
            digits_value(body) as int
        };
        if all_digits(body) && i64::MIN <= v <= i64::MAX {
            Some(v)
        } else {
            None
        }
    } else if all_digits(s) && digits_value(s) <= i64::MAX {
        Some(digits_value(s) as int)
    } else {
        None
    }
}

proof fn lemma_digits_value_monotone(d: Seq<char>, k: int)
    requires
        0 <= k <= d.len(),
    ensures
        digits_value(d.take(k)) <= digits_value(d),
    decreases d.len() - k,
{
    if k < d.len() {
        lemma_digits_value_monotone(d, k + 1);
        assert(d.take(k + 1).drop_last() =~= d.take(k));
    } else {
        assert(d.take(k) =~= d);
    }
}

/// The value of the digits `s[from..]`, or `None` where one of them is not a
/// digit, there are none, or the value exceeds `limit`.
fn digits_upto(s: &[char], from: usize, limit: u64) -> (r: Option<u64>)
    requires
        from <= s@.len(),
        limit >= 9,
    ensures
        match r {
            Some(v) => all_digits(s@.skip(from as int)) && v == digits_value(s@.skip(from as int))
                && v <= limit,
            None => !all_digits(s@.skip(from as int)) || digits_value(s@.skip(from as int)) > limit,
        },
{
    let n = s.len();
    if from >= n {
        return None;
    }
    let ghost body = s@.skip(from as int);
    let mut acc: u64 = 0;
    let mut i: usize = from;
    proof {
        assert(body.take(0) =~= Seq::<char>::empty());
    }
    while i < n
        invariant
            from <= i <= n,
            n == s@.len(),
            body == s@.skip(from as int),
            acc <= limit,
            limit >= 9,
            acc == digits_value(body.take(i - from)),
            forall|j: int| 0 <= j < i - from ==> is_ascii_digit(#[trigger] body[j]),
        decreases n - i,
    {
        let c = s[i];
        if !('0' <= c && c <= '9') {
            proof {
                assert(body[i - from] == c);
            }
            return None;
        }
        let d = (c as u32 - 48) as u64;
        proof {
            assert(body.take(i - from + 1).drop_last() =~= body.take(i - from));
            assert(body.take(i - from + 1).last() == c);
        }
        if acc > (limit - d) / 10 {
            proof {
                assert(acc * 10 + d > limit) by (nonlinear_arith)
                    requires
                        acc > (limit - d) / 10,
                        d <= limit,
                ;
                lemma_digits_value_monotone(body, i - from + 1);
            }
            return None;
        }
        proof {
            assert(acc * 10 + d <= limit) by (nonlinear_arith)
                requires
                    acc <= (limit - d) / 10,
                    d <= limit,
            ;
        }
        acc = acc * 10 + d;
        i += 1;
    }
    proof {
        assert(body.take(n - from) =~= body);
    }
    Some(acc)
}

/// `str::parse::<i64>`.
pub fn parse_i64(s: &[char]) -> (r: Option<i64>)
    ensures
        match r {
            Some(v) => parse_i64_spec(s@) == Some(v as int),
            None => parse_i64_spec(s@) is None,
        },
{
    if s.len() > 0 && s[0] == '-' {
        match digits_upto(s, 1, 9223372036854775808u64) {
            Some(v) => {
                if v == 9223372036854775808u64 {
                    Some(i64::MIN)
                } else {
                    Some(-(v as i64))
                }
            },
            None => None,
        }
    } else if s.len() > 0 && s[0] == '+' {
        match digits_upto(s, 1, 9223372036854775807u64) {
            Some(v) => Some(v as i64),
            None => None,
        }
    } else {
        proof {
            assert(s@.skip(0) =~= s@);
        }
        match digits_upto(s, 0, 9223372036854775807u64) {
            Some(v) => Some(v as i64),
            None => None,
        }
    }
}

/// What `str::to_lowercase` returns for a string.
pub uninterp spec fn lowercase(s: Seq<char>) -> Seq<char>;

/// `str::to_lowercase`: the result is `lowercase` of the argument; Unicode's
/// lowercase mapping is not spelled out here.
#[verifier::external_body]
pub(crate) fn to_lowercase(s: &str) -> (r: String)
    ensures
        r@ == lowercase(s@),
{
    s.to_lowercase()
}


/// The first position at or after `i` where the non-empty `p` occurs in `s`, or -1.
pub open spec fn first_occurrence_from(s: Seq<char>, p: Seq<char>, i: int) -> int
    decreases s.len() - i,
{
    if i < 0 || p.len() == 0 || i + p.len() > s.len() {
        -1
    } else if occurs_at(s, p, i) {
        i
    } else {
        first_occurrence_from(s, p, i + 1)
    }
}

/// What `s.split(p).next()` gives: `s` up to the first occurrence of `p`, or all of it.
pub open spec fn before_first(s: Seq<char>, p: Seq<char>) -> Seq<char> {
    let k = first_occurrence_from(s, p, 0);
    if k < 0 {
        s
    } else {
        s.take(k)
    }
}

pub fn before_first_exec(s: &[char], p: &[char]) -> (r: Vec<char>)
    requires
        p@.len() > 0,
    ensures
        r@ == before_first(s@, p@),
{
    let mut i: usize = 0;
    while i <= s.len() && p.len() <= s.len() - i
        invariant
            i <= s@.len() + 1,
            p@.len() > 0,
            first_occurrence_from(s@, p@, 0) == first_occurrence_from(s@, p@, i as int),
        decreases s@.len() + 1 - i,
    {
        if occurs_at_exec(s, p, i) {
            return slice_chars(s, 0, i);
        }
        i += 1;
    }
    slice_chars(s, 0, s.len())
}


/// What `str::parse::<u64>` gives: an optional `+`, then one or more ASCII digits,
/// whose value must fit in a `u64`.
pub open spec fn parse_u64_spec(s: Seq<char>) -> Option<nat> {
    let body = if s.len() > 0 && s[0] == '+' {
        s.skip(1)
    } else {
        s
    };
    if all_digits(body) && digits_value(body) <= u64::MAX {
        Some(digits_value(body))
    } else {
        None
    }
}

/// `str::parse::<u64>`.
pub fn parse_u64(s: &[char]) -> (r: Option<u64>)
    ensures
        match r {
            Some(v) => parse_u64_spec(s@) == Some(v as nat),
            None => parse_u64_spec(s@) is None,
        },
{
    if s.len() > 0 && s[0] == '+' {
        digits_upto(s, 1, u64::MAX)
    } else {
        proof {
            assert(s@.skip(0) =~= s@);
        }
        digits_upto(s, 0, u64::MAX)
    }
}


proof fn lemma_split_scan_len(s: Seq<char>, sep: spec_fn(char) -> bool, start: int, pos: int)
    ensures
        split_scan(s, sep, start, pos).len() > 0,
    decreases s.len() - pos,
{
    if pos < s.len() {
        lemma_split_scan_len(s, sep, start, pos + 1);
        lemma_split_scan_len(s, sep, pos + 1, pos + 1);
    }
}

/// `str::split` always yields at least one piece.
pub proof fn lemma_split_char_len(s: Seq<char>, c: char)
    ensures
        split_char(s, c).len() > 0,
{
    lemma_split_scan_len(s, is_char(c), 0, 0);
}

/// Pieces joined with a separator (`[String]::join`).
pub open spec fn joined_with(pieces: Seq<Seq<char>>, sep: Seq<char>) -> Seq<char>
    decreases pieces.len(),
{
    if pieces.len() == 0 {
        Seq::empty()
    } else if pieces.len() == 1 {
        pieces[0]
    } else {
        joined_with(pieces.drop_last(), sep) + sep + pieces.last()
    }
}

/// `[String]::join`.
pub fn join_with(pieces: &[String], sep: &str) -> (r: String)
    ensures
        r@ == joined_with(str_views(pieces@), sep@),
{
    let ghost pv = str_views(pieces@);
    let mut out = String::new();
    let mut i: usize = 0;
    proof {
        assert(pv.take(0) =~= Seq::<Seq<char>>::empty());
        assert(out@ =~= Seq::<char>::empty());
    }
    while i < pieces.len()
        invariant
            i <= pieces@.len(),
            pv == str_views(pieces@),
            out@ == joined_with(pv.take(i as int), sep@),
        decreases pieces.len() - i,
    {
        proof {
            assert(pv.take(i + 1).drop_last() =~= pv.take(i as int));
            assert(pv.take(i + 1).last() == pieces@[i as int]@);
        }
        if i == 0 {
            out = owned(pieces[i].as_str());
            proof {
                assert(pv.take(1) =~= seq![pieces@[0]@]);
            }
        } else {
            out = cat3(out.as_str(), sep, pieces[i].as_str());
        }
        i += 1;
    }
    proof {
        assert(pv.take(i as int) =~= pv);
    }
    out
}

} // verus!
