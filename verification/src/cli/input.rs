//! Parsed command-line input: positional arguments, `--option=value`,
//! `--option value` and `--flag`.
use vstd::prelude::*;
use crate::text;
use crate::cli::command::{Signature, SignatureSpec, OptSpec, ArgSpec, opt_string_view};

verus! {

/// The map that a list of key/value pairs builds when later pairs replace earlier ones.
pub open spec fn assoc(s: Seq<(String, String)>) -> Map<Seq<char>, Seq<char>>
    decreases s.len(),
{
    if s.len() == 0 {
        Map::empty()
    } else {
        assoc(s.drop_last()).insert(s.last().0@, s.last().1@)
    }
}

/// The parser's state: positional words, options and flags seen so far.
pub ghost struct ParseState {
    pub positional: Seq<Seq<char>>,
    pub options: Map<Seq<char>, Seq<char>>,
    pub flags: Set<Seq<char>>,
}

pub open spec fn empty_state() -> ParseState {
    ParseState { positional: seq![], options: Map::empty(), flags: Set::empty() }
}

pub open spec fn dashes() -> Seq<char> {
    seq!['-', '-']
}

/// Some option of the signature has this name and takes no value.
pub open spec fn known_flag(sig: SignatureSpec, name: Seq<char>) -> bool {
    exists|k: int|
        0 <= k < sig.options.len() && (#[trigger] sig.options[k]).name == name
            && !sig.options[k].has_value
}

/// Some option of the signature has this name and takes a value.
pub open spec fn known_valued(sig: SignatureSpec, name: Seq<char>) -> bool {
    exists|k: int|
        0 <= k < sig.options.len() && (#[trigger] sig.options[k]).name == name
            && sig.options[k].has_value
}

/// The first option of the list with this name.
pub open spec fn first_opt(opts: Seq<OptSpec>, name: Seq<char>) -> Option<OptSpec>
    decreases opts.len(),
{
    if opts.len() == 0 {
        None
    } else if opts[0].name == name {
        Some(opts[0])
    } else {
        first_opt(opts.drop_first(), name)
    }
}

/// The default of the first option with this name, if it has one.
pub open spec fn first_opt_default(opts: Seq<OptSpec>, name: Seq<char>) -> Option<Seq<char>> {
    match first_opt(opts, name) {
        Some(o) => o.default,
        None => None,
    }
}

/// Reads the raw words from position `i` on, starting in state `st`.
pub open spec fn parse_from(raw: Seq<Seq<char>>, sig: SignatureSpec, i: int, st: ParseState) -> ParseState
    decreases raw.len() - i,
{
    if i < 0 || i >= raw.len() {
        st
    } else {
        let arg = raw[i];
        if text::starts_with(arg, dashes()) {
            let opt = text::trim_start_matches(arg, dashes());
            match text::find_spec(opt, '=') {
                Some(e) => parse_from(
                    raw,
                    sig,
                    i + 1,
                    ParseState {
                        positional: st.positional,
                        options: st.options.insert(opt.take(e), opt.skip(e + 1)),
                        flags: st.flags,
                    },
                ),
                None => if known_flag(sig, opt) || !known_valued(sig, opt) {
                    parse_from(
                        raw,
                        sig,
                        i + 1,
                        ParseState {
                            positional: st.positional,
                            options: st.options,
                            flags: st.flags.insert(opt),
                        },
                    )
                } else if i + 1 < raw.len() && !text::starts_with(raw[i + 1], seq!['-']) {
                    parse_from(
                        raw,
                        sig,
                        i + 2,
                        ParseState {
                            positional: st.positional,
                            options: st.options.insert(opt, raw[i + 1]),
                            flags: st.flags,
                        },
                    )
                } else {
                    match first_opt_default(sig.options, opt) {
                        Some(d) => parse_from(
                            raw,
                            sig,
                            i + 1,
                            ParseState {
                                positional: st.positional,
                                options: st.options.insert(opt, d),
                                flags: st.flags,
                            },
                        ),
                        None => parse_from(raw, sig, i + 1, st),
                    }
                },
            }
        } else {
            parse_from(
                raw,
                sig,
                i + 1,
                ParseState {
                    positional: st.positional.push(arg),
                    options: st.options,
                    flags: st.flags,
                },
            )
        }
    }
}

/// What `Input::parse` reads from the raw words.
pub open spec fn parse_input(raw: Seq<Seq<char>>, sig: SignatureSpec) -> ParseState {
    parse_from(raw, sig, 0, empty_state())
}

/// The position of the first argument with this name.
pub open spec fn first_arg_index(args: Seq<ArgSpec>, name: Seq<char>, k: int) -> bool {
    0 <= k < args.len() && args[k].name == name && forall|j: int|
        0 <= j < k ==> args[j].name != name
}

/// The value that the last `--name` among the raw words gives, scanning from `i`.
pub open spec fn option_scan(
    raw: Seq<Seq<char>>,
    flag: Seq<char>,
    default: Option<Seq<char>>,
    i: int,
    found: Option<Seq<char>>,
) -> Option<Seq<char>>
    decreases raw.len() - i,
{
    if i < 0 || i >= raw.len() {
        found
    } else if raw[i] == flag {
        match default {
            Some(d) => option_scan(raw, flag, default, i + 1, Some(d)),
            None => if i + 1 < raw.len() {
                option_scan(raw, flag, default, i + 1, Some(raw[i + 1]))
            } else {
                option_scan(raw, flag, default, i + 1, found)
            },
        }
    } else {
        option_scan(raw, flag, default, i + 1, found)
    }
}

#[derive(Debug)]
pub struct Input {
    pub command_name: String,
    pub raw_args: Vec<String>,
    pub signature: Signature,
    /// `--name=value` pairs in the order read; a later pair replaces an earlier one.
    parsed_options: Vec<(String, String)>,
    /// Flags in the order read.
    parsed_flags: Vec<String>,
}

proof fn lemma_assoc_tail(s: Seq<(String, String)>, n: int, k: Seq<char>)
    requires
        0 <= n <= s.len(),
        forall|i: int| n <= i < s.len() ==> (#[trigger] s[i]).0@ != k,
    ensures
        assoc(s).dom().contains(k) == assoc(s.take(n)).dom().contains(k),
        assoc(s).dom().contains(k) ==> assoc(s)[k] == assoc(s.take(n))[k],
    decreases s.len(),
{
    if s.len() == n {
        assert(s.take(n) =~= s);
    } else {
        assert(s.drop_last().take(n) =~= s.take(n));
        lemma_assoc_tail(s.drop_last(), n, k);
    }
}

/// Looks up `name` in a list of pairs, the last pair with that key winning.
fn assoc_get<'a>(s: &'a Vec<(String, String)>, name: &[char]) -> (r: Option<&'a String>)
    ensures
        match r {
            Some(v) => assoc(s@).dom().contains(name@) && assoc(s@)[name@] == v@,
            None => !assoc(s@).dom().contains(name@),
        },
{
    let mut j: usize = s.len();
    while j > 0
        invariant
            j <= s@.len(),
            forall|i: int| j <= i < s@.len() ==> (#[trigger] s@[i]).0@ != name@,
        decreases j,
    {
        let k = text::chars_of(s[j - 1].0.as_str());
        if text::chars_eq(k.as_slice(), name) {
            proof {
                lemma_assoc_tail(s@, j as int, name@);
                assert(s@.take(j as int).drop_last() =~= s@.take(j - 1));
            }
            return Some(&s[j - 1].1);
        }
        j -= 1;
    }
    proof {
        lemma_assoc_tail(s@, 0, name@);
        assert(s@.take(0) =~= Seq::<(String, String)>::empty());
    }
    None
}

/// Whether any option of the signature has this name and (does not) take a value.
fn is_known(sig: &Signature, name: &[char], valued: bool) -> (r: bool)
    ensures
        r == (if valued {
            known_valued(sig@, name@)
        } else {
            known_flag(sig@, name@)
        }),
{
    let mut k: usize = 0;
    while k < sig.options.len()
        invariant
            k <= sig.options@.len(),
            forall|j: int|
                0 <= j < k ==> !((#[trigger] sig@.options[j]).name == name@ && sig@.options[j].has_value
                    == valued),
        decreases sig.options.len() - k,
    {
        let n = text::chars_of(sig.options[k].name.as_str());
        if text::chars_eq(n.as_slice(), name) && sig.options[k].has_value == valued {
            proof {
                assert(sig@.options[k as int] == sig.options@[k as int]@);
            }
            return true;
        }
        proof {
            assert(sig@.options[k as int] == sig.options@[k as int]@);
        }
        k += 1;
    }
    false
}

/// The first option of the signature with this name.
fn find_option<'a>(sig: &'a Signature, name: &[char]) -> (r: Option<&'a crate::cli::command::OptDef>)
    ensures
        match r {
            Some(o) => first_opt(sig@.options, name@) == Some(o@),
            None => first_opt(sig@.options, name@) is None,
        },
{
    let mut k: usize = 0;
    proof {
        assert(sig@.options.skip(0) =~= sig@.options);
    }
    while k < sig.options.len()
        invariant
            k <= sig.options@.len(),
            sig@.options.len() == sig.options@.len(),
            first_opt(sig@.options, name@) == first_opt(sig@.options.skip(k as int), name@),
        decreases sig.options.len() - k,
    {
        let n = text::chars_of(sig.options[k].name.as_str());
        proof {
            assert(sig@.options.skip(k as int)[0] == sig.options@[k as int]@);
            assert(sig@.options.skip(k as int).drop_first() =~= sig@.options.skip(k + 1));
        }
        if text::chars_eq(n.as_slice(), name) {
            return Some(&sig.options[k]);
        }
        k += 1;
    }
    None
}

impl Input {
    /// The options read, name to value.
    pub closed spec fn options_map(&self) -> Map<Seq<char>, Seq<char>> {
        assoc(self.parsed_options@)
    }

    /// The command name.
    pub closed spec fn name_view(&self) -> Seq<char> {
        self.command_name@
    }

    /// The raw words: the command name, then the positional words.
    pub closed spec fn args_view(&self) -> Seq<Seq<char>> {
        text::str_views(self.raw_args@)
    }

    /// The signature the input was read against.
    pub closed spec fn sig_view(&self) -> SignatureSpec {
        self.signature@
    }

    /// The flags read.
    pub closed spec fn flag_set(&self) -> Set<Seq<char>> {
        text::str_views(self.parsed_flags@).to_set()
    }

    pub fn new(args: Vec<String>, signature: Signature) -> (r: Input)
        ensures
            r.name_view() == signature@.name,
            r.args_view() == text::str_views(args@),
            r.sig_view() == signature@,
            r.options_map() == Map::<Seq<char>, Seq<char>>::empty(),
            r.flag_set() == Set::<Seq<char>>::empty(),
    {
        let command_name = text::owned(signature.name.as_str());
        let r = Input {
            command_name,
            raw_args: args,
            signature,
            parsed_options: Vec::new(),
            parsed_flags: Vec::new(),
        };
        proof {
            assert(text::str_views(r.parsed_flags@).to_set() =~= Set::<Seq<char>>::empty());
        }
        r
    }

    /// Parse raw CLI args against the signature.
    ///
    /// Handles both `--option=value` and `--option value` forms,
    /// plus standalone `--flag` boolean flags.
    pub fn parse(raw: &[String], signature: &Signature) -> (r: Input)
        ensures
            r.name_view() == signature@.name,
            r.sig_view() == signature@,
            r.args_view() == seq![signature@.name] + parse_input(
                text::str_views(raw@),
                signature@,
            ).positional,
            r.options_map() == parse_input(text::str_views(raw@), signature@).options,
            r.flag_set() == parse_input(text::str_views(raw@), signature@).flags,
    {
        let ghost rv = text::str_views(raw@);
        let ghost sig = signature@;
        let dd = text::chars_of("--");
        let d1 = text::chars_of("-");
        proof {
            reveal_strlit("--");
            reveal_strlit("-");
            assert(dd@ =~= dashes());
            assert(d1@ =~= seq!['-']);
        }
        let mut positional: Vec<String> = Vec::new();
        let mut options: Vec<(String, String)> = Vec::new();
        let mut flags: Vec<String> = Vec::new();
        let mut i: usize = 0;
        proof {
            assert(text::str_views(positional@) =~= Seq::<Seq<char>>::empty());
            assert(assoc(options@) =~= Map::<Seq<char>, Seq<char>>::empty());
            assert(text::str_views(flags@).to_set() =~= Set::<Seq<char>>::empty());
        }
        while i < raw.len()
            invariant
                rv == text::str_views(raw@),
                sig == signature@,
                dd@ == dashes(),
                d1@ == seq!['-'],
                i <= raw@.len(),
                parse_input(rv, sig) == parse_from(
                    rv,
                    sig,
                    i as int,
                    ParseState {
                        positional: text::str_views(positional@),
                        options: assoc(options@),
                        flags: text::str_views(flags@).to_set(),
                    },
                ),
            decreases raw.len() - i,
        {
            let arg = text::chars_of(raw[i].as_str());
            proof {
                assert(rv[i as int] == arg@);
            }
            let ghost before = ParseState {
                positional: text::str_views(positional@),
                options: assoc(options@),
                flags: text::str_views(flags@).to_set(),
            };
            if text::starts_with_exec(arg.as_slice(), dd.as_slice()) {
                let opt = text::trim_start_matches_exec(arg.as_slice(), dd.as_slice());
                match text::find_char_spec(opt.as_slice(), '=') {
                    Some(e) => {
                        assert(e < opt.len());
                        let key = text::sub_string(opt.as_slice(), 0, e);
                        let val = text::sub_string(opt.as_slice(), e + 1, opt.len());
                        proof {
                            assert(opt@.take(e as int) =~= key@);
                            assert(opt@.skip(e + 1) =~= val@);
                            assert(options@.push((key, val)).drop_last() =~= options@);
                        }
                        options.push((key, val));
                        i += 1;
                    },
                    None => {
                        let is_flag = is_known(signature, opt.as_slice(), false);
                        let is_opt = is_known(signature, opt.as_slice(), true);
                        if is_flag || !is_opt {
                            let f = text::string_of(opt.as_slice());
                            proof {
                                assert(text::str_views(flags@.push(f)) =~= text::str_views(
                                    flags@,
                                ).push(f@));
                                Seq::<Seq<char>>::lemma_push_to_set_commute(
                                    text::str_views(flags@),
                                    f@,
                                );
                            }
                            flags.push(f);
                            i += 1;
                        } else {
                            let mut took = false;
                            if i + 1 < raw.len() {
                                let next = text::chars_of(raw[i + 1].as_str());
                                proof {
                                    assert(rv[i + 1] == next@);
                                }
                                if !text::starts_with_exec(next.as_slice(), d1.as_slice()) {
                                    let key = text::string_of(opt.as_slice());
                                    let val = text::owned(raw[i + 1].as_str());
                                    proof {
                                        assert(options@.push((key, val)).drop_last() =~= options@);
                                    }
                                    options.push((key, val));
                                    i += 2;
                                    took = true;
                                }
                            }
                            if !took {
                                match find_option(signature, opt.as_slice()) {
                                    Some(o) => {
                                        match &o.default {
                                            Some(d) => {
                                                let key = text::string_of(opt.as_slice());
                                                let val = text::owned(d.as_str());
                                                proof {
                                                    assert(options@.push((key, val)).drop_last()
                                                        =~= options@);
                                                }
                                                options.push((key, val));
                                            },
                                            None => {},
                                        }
                                    },
                                    None => {},
                                }
                                i += 1;
                            }
                        }
                    },
                }
            } else {
                let p = text::owned(raw[i].as_str());
                proof {
                    assert(text::str_views(positional@.push(p)) =~= text::str_views(
                        positional@,
                    ).push(p@));
                }
                positional.push(p);
                i += 1;
            }
        }
        let mut full: Vec<String> = Vec::new();
        full.push(text::owned(signature.name.as_str()));
        let mut k: usize = 0;
        while k < positional.len()
            invariant
                k <= positional@.len(),
                full@.len() == k + 1,
                text::str_views(full@) == seq![signature@.name] + text::str_views(
                    positional@,
                ).take(k as int),
            decreases positional.len() - k,
        {
            let p = text::owned(positional[k].as_str());
            proof {
                assert(text::str_views(full@.push(p)) =~= text::str_views(full@).push(p@));
                assert(text::str_views(positional@).take(k + 1) =~= text::str_views(
                    positional@,
                ).take(k as int).push(p@));
            }
            full.push(p);
            k += 1;
        }
        proof {
            assert(text::str_views(positional@).take(positional@.len() as int) =~= text::str_views(
                positional@,
            ));
        }
        Input {
            command_name: text::owned(signature.name.as_str()),
            raw_args: full,
            signature: signature.duplicate(),
            parsed_options: options,
            parsed_flags: flags,
        }
    }
}


impl Input {
    /// Return all positional argument values in order.
    pub fn arguments(&self) -> (r: Vec<&str>)
        ensures
            r@.len() == if self.args_view().len() > 0 { self.args_view().len() - 1 } else { 0 },
            forall|i: int| 0 <= i < r@.len() ==> (#[trigger] r@[i])@ == self.args_view()[i + 1],
    {
        let mut r: Vec<&str> = Vec::new();
        proof {
            assert(self.args_view().len() == self.raw_args@.len());
        }
        if self.raw_args.len() == 0 {
            return r;
        }
        let mut i: usize = 1;
        while i < self.raw_args.len()
            invariant
                1 <= i,
                self.args_view().len() == self.raw_args@.len(),
                i <= self.raw_args@.len(),
                r@.len() == i - 1,
                forall|j: int| 0 <= j < r@.len() ==> (#[trigger] r@[j])@ == self.args_view()[j + 1],
            decreases self.raw_args.len() - i,
        {
            proof {
                assert(self.args_view()[i as int] == self.raw_args@[i as int]@);
            }
            r.push(self.raw_args[i].as_str());
            i += 1;
        }
        r
    }

    /// Check if an option was explicitly provided (regardless of value).
    pub fn has_option(&self, name: &str) -> (r: bool)
        ensures
            r == (self.options_map().dom().contains(name@) || exists|j: int|
                0 <= j < self.args_view().len() && (self.args_view()[j] == dashes() + name@
                    || text::starts_with(
                    #[trigger] self.args_view()[j],
                    dashes() + name@ + seq!['='],
                ))),
    {
        let nm = text::chars_of(name);
        if assoc_get(&self.parsed_options, nm.as_slice()).is_some() {
            return true;
        }
        let flag = text::cat("--", name);
        let flag_eq = text::cat3("--", name, "=");
        let fv = text::chars_of(flag.as_str());
        let fe = text::chars_of(flag_eq.as_str());
        proof {
            reveal_strlit("--");
            reveal_strlit("=");
            assert(fv@ =~= dashes() + name@);
            assert(fe@ =~= dashes() + name@ + seq!['=']);
        }
        let mut j: usize = 0;
        while j < self.raw_args.len()
            invariant
                j <= self.raw_args@.len(),
                fv@ == dashes() + name@,
                fe@ == dashes() + name@ + seq!['='],
                forall|k: int|
                    0 <= k < j ==> !(self.args_view()[k] == dashes() + name@ || text::starts_with(
                        #[trigger] self.args_view()[k],
                        dashes() + name@ + seq!['='],
                    )),
            decreases self.raw_args.len() - j,
        {
            let a = text::chars_of(self.raw_args[j].as_str());
            proof {
                assert(self.args_view()[j as int] == a@);
            }
            if text::chars_eq(a.as_slice(), fv.as_slice()) || text::starts_with_exec(
                a.as_slice(),
                fe.as_slice(),
            ) {
                return true;
            }
            j += 1;
        }
        false
    }

    /// Check if a boolean flag was set.
    pub fn has_flag(&self, name: &str) -> (r: bool)
        ensures
            r == (self.flag_set().contains(name@) || exists|j: int|
                0 <= j < self.args_view().len() && #[trigger] self.args_view()[j] == dashes() + name@),
    {
        let nm = text::chars_of(name);
        let mut k: usize = 0;
        while k < self.parsed_flags.len()
            invariant
                k <= self.parsed_flags@.len(),
                nm@ == name@,
                forall|i: int| 0 <= i < k ==> (#[trigger] self.parsed_flags@[i])@ != name@,
            decreases self.parsed_flags.len() - k,
        {
            let f = text::chars_of(self.parsed_flags[k].as_str());
            proof {
                assert(self.parsed_flags@[k as int]@ == f@);
                assert(nm@ == name@);
            }
            if text::chars_eq(f.as_slice(), nm.as_slice()) {
                proof {
                    assert(text::str_views(self.parsed_flags@)[k as int] == name@);
                    assert(text::str_views(self.parsed_flags@).contains(name@));
                }
                return true;
            }
            k += 1;
        }
        proof {
            assert(!text::str_views(self.parsed_flags@).contains(name@));
        }
        let flag = text::cat("--", name);
        let fv = text::chars_of(flag.as_str());
        proof {
            reveal_strlit("--");
            assert(fv@ =~= dashes() + name@);
        }
        let mut j: usize = 0;
        while j < self.raw_args.len()
            invariant
                j <= self.raw_args@.len(),
                fv@ == dashes() + name@,
                forall|i: int| 0 <= i < j ==> #[trigger] self.args_view()[i] != dashes() + name@,
            decreases self.raw_args.len() - j,
        {
            let a = text::chars_of(self.raw_args[j].as_str());
            proof {
                assert(self.args_view()[j as int] == a@);
            }
            if text::chars_eq(a.as_slice(), fv.as_slice()) {
                return true;
            }
            j += 1;
        }
        false
    }

    /// Get a positional argument by name: its raw value, or why there is none.
    pub fn argument(&self, name: &str) -> (r: Result<String, String>)
        ensures
            match r {
                Ok(v) => exists|k: int|
                    first_arg_index(self.sig_view().arguments, name@, k) && k + 1
                        < self.args_view().len() && v@ == self.args_view()[k + 1],
                Err(e) => (forall|k: int| !first_arg_index(self.sig_view().arguments, name@, k))
                    && e@ == "Unknown argument: "@ + name@ || exists|k: int|
                    first_arg_index(self.sig_view().arguments, name@, k) && k + 1
                        >= self.args_view().len() && e@ == "Missing required argument: "@
                        + name@,
            },
    {
        let nm = text::chars_of(name);
        let mut k: usize = 0;
        while k < self.signature.arguments.len()
            invariant
                k <= self.signature.arguments@.len(),
                nm@ == name@,
                self.sig_view().arguments.len() == self.signature.arguments@.len(),
                forall|j: int| 0 <= j < k ==> self.sig_view().arguments[j].name != name@,
            decreases self.signature.arguments.len() - k,
        {
            let a = text::chars_of(self.signature.arguments[k].name.as_str());
            proof {
                assert(self.signature.arguments@[k as int].name@ == a@);
                assert(nm@ == name@);
                assert(self.sig_view().arguments[k as int] == self.signature.arguments@[k as int]@);
            }
            if text::chars_eq(a.as_slice(), nm.as_slice()) {
                proof {
                    assert(first_arg_index(self.sig_view().arguments, name@, k as int));
                }
                if k + 1 < self.raw_args.len() {
                    let v = text::owned(self.raw_args[k + 1].as_str());
                    return Ok(v);
                } else {
                    return Err(text::cat("Missing required argument: ", name));
                }
            }
            k += 1;
        }
        proof {
            assert forall|j: int| !first_arg_index(self.sig_view().arguments, name@, j) by {
                if 0 <= j < self.sig_view().arguments.len() {
                    assert(self.sig_view().arguments[j].name != name@);
                }
            }
        }
        Err(text::cat("Unknown argument: ", name))
    }
}

/// The value `Input::option` gives for `name`.
pub open spec fn option_value(
    opts: Map<Seq<char>, Seq<char>>,
    sig: SignatureSpec,
    raw: Seq<Seq<char>>,
    name: Seq<char>,
) -> Option<Seq<char>> {
    if opts.dom().contains(name) {
        Some(opts[name])
    } else {
        match first_opt(sig.options, name) {
            Some(o) => match option_scan(raw, dashes() + name, o.default, 0, None) {
                Some(v) => Some(v),
                None => o.default,
            },
            None => None,
        }
    }
}

proof fn lemma_first_opt_at(opts: Seq<OptSpec>, name: Seq<char>, k: int)
    requires
        0 <= k < opts.len(),
        opts[k].name == name,
        forall|j: int| 0 <= j < k ==> (#[trigger] opts[j]).name != name,
    ensures
        first_opt(opts, name) == Some(opts[k]),
    decreases k,
{
    if k > 0 {
        assert(opts[0].name != name);
        assert forall|j: int| 0 <= j < k - 1 implies (#[trigger] opts.drop_first()[j]).name != name by {
            assert(opts.drop_first()[j] == opts[j + 1]);
        }
        lemma_first_opt_at(opts.drop_first(), name, k - 1);
    }
}

proof fn lemma_scan_with_default(raw: Seq<Seq<char>>, flag: Seq<char>, d: Seq<char>, i: int, found: Option<Seq<char>>)
    requires
        found is None || found == Some(d),
    ensures
        option_scan(raw, flag, Some(d), i, found) is None || option_scan(raw, flag, Some(d), i, found) == Some(d),
    decreases raw.len() - i,
{
    if 0 <= i < raw.len() {
        if raw[i] == flag {
            lemma_scan_with_default(raw, flag, d, i + 1, Some(d));
        } else {
            lemma_scan_with_default(raw, flag, d, i + 1, found);
        }
    }
}

/// An option that the signature declares with a default `d` reads `d` unless a
/// value was given for it with `--name=value`, whatever other words were given
/// (a bare `--name` also reads its default).
pub proof fn lemma_option_default(
    opts: Map<Seq<char>, Seq<char>>,
    sig: SignatureSpec,
    raw: Seq<Seq<char>>,
    name: Seq<char>,
    k: int,
    d: Seq<char>,
)
    requires
        !opts.dom().contains(name),
        0 <= k < sig.options.len(),
        sig.options[k].name == name,
        sig.options[k].default == Some(d),
        forall|j: int| 0 <= j < k ==> (#[trigger] sig.options[j]).name != name,
    ensures
        option_value(opts, sig, raw, name) == Some(d),
{
    lemma_first_opt_at(sig.options, name, k);
    lemma_scan_with_default(raw, dashes() + name, d, 0, None);
}

proof fn lemma_no_dashes_no_options(raw: Seq<Seq<char>>, sig: SignatureSpec, i: int, st: ParseState)
    requires
        forall|j: int| 0 <= j < raw.len() ==> !text::starts_with(#[trigger] raw[j], dashes()),
    ensures
        parse_from(raw, sig, i, st).options == st.options,
    decreases raw.len() - i,
{
    if 0 <= i < raw.len() {
        assert(!text::starts_with(raw[i], dashes()));
        lemma_no_dashes_no_options(
            raw,
            sig,
            i + 1,
            ParseState { positional: st.positional.push(raw[i]), options: st.options, flags: st.flags },
        );
    }
}

/// Read from words none of which begins with `--`, an option that the signature
/// declares with a default `d` reads `d`.
pub proof fn lemma_parsed_option_default(
    raw: Seq<Seq<char>>,
    sig: SignatureSpec,
    args: Seq<Seq<char>>,
    name: Seq<char>,
    k: int,
    d: Seq<char>,
)
    requires
        forall|j: int| 0 <= j < raw.len() ==> !text::starts_with(#[trigger] raw[j], dashes()),
        0 <= k < sig.options.len(),
        sig.options[k].name == name,
        sig.options[k].default == Some(d),
        forall|j: int| 0 <= j < k ==> (#[trigger] sig.options[j]).name != name,
    ensures
        option_value(parse_input(raw, sig).options, sig, args, name) == Some(d),
{
    lemma_no_dashes_no_options(raw, sig, 0, empty_state());
    assert(!empty_state().options.dom().contains(name));
    lemma_option_default(parse_input(raw, sig).options, sig, args, name, k, d);
}

/// An option given as `--name=value` reads that value.
pub proof fn lemma_option_given(
    opts: Map<Seq<char>, Seq<char>>,
    sig: SignatureSpec,
    raw: Seq<Seq<char>>,
    name: Seq<char>,
)
    requires
        opts.dom().contains(name),
    ensures
        option_value(opts, sig, raw, name) == Some(opts[name]),
{
}

impl Input {
    /// Get an option value by name: `None` if it was not provided and has no default.
    /// Values are strings, so reading one never fails.
    pub fn option(&self, name: &str) -> (r: Result<Option<String>, String>)
        ensures
            r is Ok,
            opt_string_view(r->Ok_0) == option_value(
                self.options_map(),
                self.sig_view(),
                self.args_view(),
                name@,
            ),
    {
        let nm = text::chars_of(name);
        if let Some(v) = assoc_get(&self.parsed_options, nm.as_slice()) {
            return Ok(Some(text::owned(v.as_str())));
        }
        match find_option(&self.signature, nm.as_slice()) {
            Some(opt) => {
                let flag = text::cat("--", name);
                let fv = text::chars_of(flag.as_str());
                proof {
                    reveal_strlit("--");
                    assert(fv@ =~= dashes() + name@);
                }
                let ghost dflt = opt_string_view(opt.default);
                let mut found: Option<String> = None;
                let mut i: usize = 0;
                while i < self.raw_args.len()
                    invariant
                        i <= self.raw_args@.len(),
                        self.args_view().len() == self.raw_args@.len(),
                        fv@ == dashes() + name@,
                        dflt == opt_string_view(opt.default),
                        option_scan(self.args_view(), fv@, dflt, 0, None) == option_scan(
                            self.args_view(),
                            fv@,
                            dflt,
                            i as int,
                            opt_string_view(found),
                        ),
                    decreases self.raw_args.len() - i,
                {
                    let a = text::chars_of(self.raw_args[i].as_str());
                    proof {
                        assert(self.args_view()[i as int] == a@);
                    }
                    if text::chars_eq(a.as_slice(), fv.as_slice()) {
                        match &opt.default {
                            Some(d) => {
                                found = Some(text::owned(d.as_str()));
                            },
                            None => {
                                if i + 1 < self.raw_args.len() {
                                    proof {
                                        assert(self.args_view()[i + 1] == self.raw_args@[i
                                            + 1]@);
                                    }
                                    found = Some(text::owned(self.raw_args[i + 1].as_str()));
                                }
                            },
                        }
                    }
                    i += 1;
                }
                let val = match found {
                    Some(v) => Some(v),
                    None => match &opt.default {
                        Some(d) => Some(text::owned(d.as_str())),
                        None => None,
                    },
                };
                Ok(val)
            },
            None => Ok(None),
        }
    }

    /// Get an option value with a default fallback.
    pub fn option_or(&self, name: &str, default: String) -> (r: String)
        ensures
            r@ == match option_value(self.options_map(), self.sig_view(), self.args_view(), name@) {
                Some(v) => v,
                None => default@,
            },
    {
        match self.option(name) {
            Ok(Some(v)) => v,
            _ => default,
        }
    }

    /// Get an option value, using `default` if not provided.
    pub fn option_or_else(&self, name: &str, default: String) -> (r: Result<String, String>)
        ensures
            r is Ok,
            r->Ok_0@ == match option_value(
                self.options_map(),
                self.sig_view(),
                self.args_view(),
                name@,
            ) {
                Some(v) => v,
                None => default@,
            },
    {
        match self.option(name) {
            Ok(Some(v)) => Ok(v),
            _ => Ok(default),
        }
    }
}
} // verus!
