//! Command signatures in the Laravel style: `"make:thing {name} {--force} {--type=default}"`.
use vstd::prelude::*;
use crate::text;

verus! {

/// What a positional argument of a signature is.
pub ghost struct ArgSpec {
    pub name: Seq<char>,
    pub required: bool,
}

/// What an option of a signature is.
pub ghost struct OptSpec {
    pub name: Seq<char>,
    pub has_value: bool,
    pub default: Option<Seq<char>>,
}

/// What a signature is: its command name, its arguments and its options, in order.
pub ghost struct SignatureSpec {
    pub name: Seq<char>,
    pub arguments: Seq<ArgSpec>,
    pub options: Seq<OptSpec>,
}

#[derive(Debug, Clone)]
pub struct Signature {
    pub name: String,
    pub arguments: Vec<ArgDef>,
    pub options: Vec<OptDef>,
}

#[derive(Debug, Clone)]
pub struct ArgDef {
    pub name: String,
    pub required: bool,
}

#[derive(Debug, Clone)]
pub struct OptDef {
    pub name: String,
    pub has_value: bool,
    pub default: Option<String>,
}

impl View for ArgDef {
    type V = ArgSpec;

    open spec fn view(&self) -> ArgSpec {
        ArgSpec { name: self.name@, required: self.required }
    }
}

pub open spec fn opt_string_view(o: Option<String>) -> Option<Seq<char>> {
    match o {
        Some(s) => Some(s@),
        None => None,
    }
}

impl View for OptDef {
    type V = OptSpec;

    open spec fn view(&self) -> OptSpec {
        OptSpec { name: self.name@, has_value: self.has_value, default: opt_string_view(self.default) }
    }
}

pub open spec fn arg_views(v: Seq<ArgDef>) -> Seq<ArgSpec> {
    v.map_values(|a: ArgDef| a@)
}

pub open spec fn opt_views(v: Seq<OptDef>) -> Seq<OptSpec> {
    v.map_values(|o: OptDef| o@)
}

impl View for Signature {
    type V = SignatureSpec;

    open spec fn view(&self) -> SignatureSpec {
        SignatureSpec {
            name: self.name@,
            arguments: arg_views(self.arguments@),
            options: opt_views(self.options@),
        }
    }
}

/// How one word of a signature reads.
pub ghost enum PartSpec {
    Arg(ArgSpec),
    Opt(OptSpec),
    Other,
}

pub open spec fn opt_prefix() -> Seq<char> {
    seq!['{', '-', '-']
}

/// The reading of one word after the command name.
pub open spec fn classify_part(raw: Seq<char>) -> PartSpec {
    let part = text::trim_start_matches(raw, seq!['\\']);
    if text::starts_with(part, opt_prefix()) {
        let inner = text::trim_end_matches(
            text::trim_start_matches(part, opt_prefix()),
            seq!['}'],
        );
        match text::find_spec(inner, '=') {
            Some(e) => {
                let d = inner.skip(e + 1);
                PartSpec::Opt(
                    OptSpec {
                        name: inner.take(e),
                        has_value: true,
                        default: if d.len() == 0 || d == seq!['='] {
                            None
                        } else {
                            Some(d)
                        },
                    },
                )
            },
            None => PartSpec::Opt(OptSpec { name: inner, has_value: false, default: None }),
        }
    } else if text::starts_with(part, seq!['{']) {
        let inner = text::trim_end_matches(text::trim_start_matches(part, seq!['{']), seq!['}']);
        PartSpec::Arg(
            ArgSpec {
                name: text::trim_end_matches(inner, seq!['?']),
                required: !text::ends_with(inner, seq!['?']),
            },
        )
    } else {
        PartSpec::Other
    }
}

/// The arguments declared by a list of words, in order.
pub open spec fn args_of(parts: Seq<Seq<char>>) -> Seq<ArgSpec>
    decreases parts.len(),
{
    if parts.len() == 0 {
        seq![]
    } else {
        args_of(parts.drop_last()) + match classify_part(parts.last()) {
            PartSpec::Arg(a) => seq![a],
            _ => seq![],
        }
    }
}

/// The options declared by a list of words, in order.
pub open spec fn opts_of(parts: Seq<Seq<char>>) -> Seq<OptSpec>
    decreases parts.len(),
{
    if parts.len() == 0 {
        seq![]
    } else {
        opts_of(parts.drop_last()) + match classify_part(parts.last()) {
            PartSpec::Opt(o) => seq![o],
            _ => seq![],
        }
    }
}

/// The signature that a signature string declares: the first word is the
/// command name, and each later word may declare an argument or an option.
pub open spec fn parse_signature(s: Seq<char>) -> SignatureSpec {
    let parts = text::split_ws(s);
    SignatureSpec {
        name: parts[0],
        arguments: args_of(parts.skip(1)),
        options: opts_of(parts.skip(1)),
    }
}

enum Part {
    Arg(ArgDef),
    Opt(OptDef),
    Other,
}

spec fn part_view(p: Part) -> PartSpec {
    match p {
        Part::Arg(a) => PartSpec::Arg(a@),
        Part::Opt(o) => PartSpec::Opt(o@),
        Part::Other => PartSpec::Other,
    }
}

fn classify(raw: &[char]) -> (r: Part)
    ensures
        part_view(r) == classify_part(raw@),
{
    let bs = text::chars_of("\\");
    let pre = text::chars_of("{--");
    let open = text::chars_of("{");
    let close = text::chars_of("}");
    let q = text::chars_of("?");
    let eq = text::chars_of("=");
    proof {
        reveal_strlit("\\");
        reveal_strlit("{--");
        reveal_strlit("{");
        reveal_strlit("}");
        reveal_strlit("?");
        reveal_strlit("=");
        assert(bs@ =~= seq!['\\']);
        assert(pre@ =~= opt_prefix());
        assert(open@ =~= seq!['{']);
        assert(close@ =~= seq!['}']);
        assert(q@ =~= seq!['?']);
        assert(eq@ =~= seq!['=']);
    }
    let part = text::trim_start_matches_exec(raw, bs.as_slice());
    if text::starts_with_exec(part.as_slice(), pre.as_slice()) {
        let a = text::trim_start_matches_exec(part.as_slice(), pre.as_slice());
        let inner = text::trim_end_matches_exec(a.as_slice(), close.as_slice());
        match text::find_char_spec(inner.as_slice(), '=') {
            Some(e) => {
                assert(e < inner.len());
                let name = text::sub_string(inner.as_slice(), 0, e);
                let d = text::slice_chars(inner.as_slice(), e + 1, inner.len());
                let default = if d.len() == 0 || text::chars_eq(d.as_slice(), eq.as_slice()) {
                    None
                } else {
                    Some(text::string_of(d.as_slice()))
                };
                proof {
                    assert(inner@.take(e as int) =~= inner@.subrange(0, e as int));
                    assert(inner@.skip(e + 1) =~= d@);
                }
                Part::Opt(OptDef { name, has_value: true, default })
            },
            None => {
                let name = text::string_of(inner.as_slice());
                Part::Opt(OptDef { name, has_value: false, default: None })
            },
        }
    } else if text::starts_with_exec(part.as_slice(), open.as_slice()) {
        let a = text::trim_start_matches_exec(part.as_slice(), open.as_slice());
        let inner = text::trim_end_matches_exec(a.as_slice(), close.as_slice());
        let required = !text::ends_with_exec(inner.as_slice(), q.as_slice());
        let n = text::trim_end_matches_exec(inner.as_slice(), q.as_slice());
        let name = text::string_of(n.as_slice());
        Part::Arg(ArgDef { name, required })
    } else {
        Part::Other
    }
}

impl ArgDef {
    /// A field-by-field copy.
    pub fn duplicate(&self) -> (r: ArgDef)
        ensures
            r@ == self@,
    {
        ArgDef { name: text::owned(self.name.as_str()), required: self.required }
    }
}

impl OptDef {
    /// A field-by-field copy.
    pub fn duplicate(&self) -> (r: OptDef)
        ensures
            r@ == self@,
    {
        let default = match &self.default {
            Some(d) => Some(text::owned(d.as_str())),
            None => None,
        };
        OptDef { name: text::owned(self.name.as_str()), has_value: self.has_value, default }
    }
}

impl Signature {
    /// Parse a Laravel-style signature string.
    ///
    /// Examples:
    ///   "make:component {name} {--force} {--type=default}"
    ///   "build {target?} {--release} {--out-dir=dist}"
    pub fn parse(s: &str) -> (r: Signature)
        requires
            text::split_ws(s@).len() > 0,
        ensures
            r@ == parse_signature(s@),
    {
        let chars = text::chars_of(s);
        let parts = text::split_ws_exec(chars.as_slice());
        let name = text::string_of(parts[0].as_slice());
        let mut arguments: Vec<ArgDef> = Vec::new();
        let mut options: Vec<OptDef> = Vec::new();
        let ghost rest = text::views(parts@).skip(1);
        let mut i: usize = 1;
        while i < parts.len()
            invariant
                1 <= i <= parts@.len(),
                rest == text::views(parts@).skip(1),
                arg_views(arguments@) == args_of(rest.take(i - 1)),
                opt_views(options@) == opts_of(rest.take(i - 1)),
            decreases parts.len() - i,
        {
            let p = classify(parts[i].as_slice());
            proof {
                let t = rest.take(i as int);
                assert(t.drop_last() =~= rest.take(i - 1));
                assert(t.last() == parts@[i as int]@);
            }
            match p {
                Part::Arg(a) => {
                    proof {
                        assert(arg_views(arguments@.push(a)) =~= arg_views(arguments@).push(a@));
                    }
                    arguments.push(a);
                    proof {
                        assert(opt_views(options@) =~= opts_of(rest.take(i as int)));
                    }
                },
                Part::Opt(o) => {
                    proof {
                        assert(opt_views(options@.push(o)) =~= opt_views(options@).push(o@));
                    }
                    options.push(o);
                    proof {
                        assert(arg_views(arguments@) =~= args_of(rest.take(i as int)));
                    }
                },
                Part::Other => {
                    proof {
                        assert(arg_views(arguments@) =~= args_of(rest.take(i as int)));
                        assert(opt_views(options@) =~= opts_of(rest.take(i as int)));
                    }
                },
            }
            i += 1;
        }
        proof {
            assert(rest.take(parts@.len() - 1) =~= rest);
        }
        Signature { name, arguments, options }
    }

    /// A field-by-field copy.
    pub fn duplicate(&self) -> (r: Signature)
        ensures
            r@ == self@,
    {
        let mut arguments: Vec<ArgDef> = Vec::new();
        let mut i: usize = 0;
        while i < self.arguments.len()
            invariant
                i <= self.arguments@.len(),
                arg_views(arguments@) == arg_views(self.arguments@).take(i as int),
            decreases self.arguments.len() - i,
        {
            let a = self.arguments[i].duplicate();
            proof {
                assert(a@ == arg_views(self.arguments@)[i as int]);
                assert(arg_views(arguments@.push(a)) =~= arg_views(arguments@).push(a@));
                assert(arg_views(self.arguments@).take(i + 1) =~= arg_views(self.arguments@).take(
                    i as int,
                ).push(a@));
            }
            arguments.push(a);
            i += 1;
        }
        let mut options: Vec<OptDef> = Vec::new();
        let mut j: usize = 0;
        while j < self.options.len()
            invariant
                j <= self.options@.len(),
                opt_views(options@) == opt_views(self.options@).take(j as int),
            decreases self.options.len() - j,
        {
            let o = self.options[j].duplicate();
            proof {
                assert(o@ == opt_views(self.options@)[j as int]);
                assert(opt_views(options@.push(o)) =~= opt_views(options@).push(o@));
                assert(opt_views(self.options@).take(j + 1) =~= opt_views(self.options@).take(
                    j as int,
                ).push(o@));
            }
            options.push(o);
            j += 1;
        }
        proof {
            assert(arg_views(arguments@) =~= arg_views(self.arguments@));
            assert(opt_views(options@) =~= opt_views(self.options@));
        }
        Signature { name: text::owned(self.name.as_str()), arguments, options }
    }
}

} // verus!
